//! Lists of nodes that are read as maps: each node has a key, no key occurs
//! twice, and the list stands for the map from each key to its node.

use vstd::prelude::*;

verus! {

/// The nodes of a list as a map: each node's model under the node's key.
pub open spec fn keyed<N, M>(
    nodes: Seq<N>,
    key: spec_fn(N) -> Seq<char>,
    model: spec_fn(N) -> M,
) -> Map<Seq<char>, M>
    decreases nodes.len(),
{
    if nodes.len() == 0 {
        Map::empty()
    } else {
        keyed(nodes.drop_last(), key, model).insert(key(nodes.last()), model(nodes.last()))
    }
}

/// No two nodes of the list have the same key.
pub open spec fn distinct<N>(nodes: Seq<N>, key: spec_fn(N) -> Seq<char>) -> bool {
    forall|i: int, j: int| 0 <= i < j < nodes.len() ==> key(nodes[i]) != key(nodes[j])
}

/// A key is in the map of a list exactly when a node of the list has it.
pub proof fn lemma_keyed_domain<N, M>(
    nodes: Seq<N>,
    key: spec_fn(N) -> Seq<char>,
    model: spec_fn(N) -> M,
    k: Seq<char>,
)
    ensures
        keyed(nodes, key, model).contains_key(k) <==> exists|i: int|
            0 <= i < nodes.len() && key(#[trigger] nodes[i]) == k,
    decreases nodes.len(),
{
    if nodes.len() > 0 {
        let rest = nodes.drop_last();
        lemma_keyed_domain(rest, key, model, k);
        if keyed(nodes, key, model).contains_key(k) && key(nodes.last()) != k {
            let i = choose|i: int| 0 <= i < rest.len() && key(#[trigger] rest[i]) == k;
            assert(key(nodes[i]) == k);
        }
        if exists|i: int| 0 <= i < nodes.len() && key(#[trigger] nodes[i]) == k {
            let i = choose|i: int| 0 <= i < nodes.len() && key(#[trigger] nodes[i]) == k;
            if i < nodes.len() - 1 {
                assert(key(rest[i]) == k);
            }
        }
    }
}

/// In a list without repeated keys, the map holds each node's model under
/// the node's key.
pub proof fn lemma_keyed_value<N, M>(
    nodes: Seq<N>,
    key: spec_fn(N) -> Seq<char>,
    model: spec_fn(N) -> M,
    i: int,
)
    requires
        distinct(nodes, key),
        0 <= i < nodes.len(),
    ensures
        keyed(nodes, key, model).contains_key(key(nodes[i])),
        keyed(nodes, key, model)[key(nodes[i])] == model(nodes[i]),
    decreases nodes.len(),
{
    if i < nodes.len() - 1 {
        let rest = nodes.drop_last();
        assert(distinct(rest, key));
        lemma_keyed_value(rest, key, model, i);
    }
}

/// Replacing a node by one with the same key replaces its model in the map
/// and leaves the keys without repetition.
pub proof fn lemma_keyed_update<N, M>(
    nodes: Seq<N>,
    key: spec_fn(N) -> Seq<char>,
    model: spec_fn(N) -> M,
    i: int,
    node: N,
)
    requires
        distinct(nodes, key),
        0 <= i < nodes.len(),
        key(node) == key(nodes[i]),
    ensures
        distinct(nodes.update(i, node), key),
        keyed(nodes.update(i, node), key, model) == keyed(nodes, key, model).insert(
            key(node),
            model(node),
        ),
    decreases nodes.len(),
{
    let updated = nodes.update(i, node);
    assert(distinct(updated, key));
    let rest = nodes.drop_last();
    assert(distinct(rest, key));
    if i == nodes.len() - 1 {
        assert(updated.drop_last() =~= rest);
        assert(keyed(updated, key, model) =~= keyed(nodes, key, model).insert(
            key(node),
            model(node),
        ));
    } else {
        assert(updated.drop_last() =~= rest.update(i, node));
        lemma_keyed_update(rest, key, model, i, node);
        assert(keyed(updated, key, model) =~= keyed(nodes, key, model).insert(
            key(node),
            model(node),
        ));
    }
}

/// Appending a node with a new key adds its model to the map and leaves the
/// keys without repetition.
pub proof fn lemma_keyed_push<N, M>(
    nodes: Seq<N>,
    key: spec_fn(N) -> Seq<char>,
    model: spec_fn(N) -> M,
    node: N,
)
    requires
        distinct(nodes, key),
        forall|i: int| 0 <= i < nodes.len() ==> key(#[trigger] nodes[i]) != key(node),
    ensures
        distinct(nodes.push(node), key),
        !keyed(nodes, key, model).contains_key(key(node)),
        keyed(nodes.push(node), key, model) == keyed(nodes, key, model).insert(
            key(node),
            model(node),
        ),
{
    let pushed = nodes.push(node);
    assert(pushed.drop_last() =~= nodes);
    lemma_keyed_domain(nodes, key, model, key(node));
    assert(distinct(pushed, key));
}

/// A list without repeated keys has as many nodes as its map has keys.
pub proof fn lemma_keyed_len<N, M>(
    nodes: Seq<N>,
    key: spec_fn(N) -> Seq<char>,
    model: spec_fn(N) -> M,
)
    requires
        distinct(nodes, key),
    ensures
        keyed(nodes, key, model).dom().finite(),
        keyed(nodes, key, model).dom().len() == nodes.len(),
    decreases nodes.len(),
{
    if nodes.len() > 0 {
        let rest = nodes.drop_last();
        assert(distinct(rest, key));
        lemma_keyed_len(rest, key, model);
        lemma_keyed_domain(rest, key, model, key(nodes.last()));
        assert(!keyed(rest, key, model).dom().contains(key(nodes.last()))) by {
            if keyed(rest, key, model).contains_key(key(nodes.last())) {
                let i = choose|i: int|
                    0 <= i < rest.len() && key(#[trigger] rest[i]) == key(nodes.last());
                assert(key(nodes[i]) == key(nodes[nodes.len() - 1]));
            }
        }
        assert(keyed(nodes, key, model).dom() =~= keyed(rest, key, model).dom().insert(
            key(nodes.last()),
        ));
    }
}

} // verus!
