//! Strings as sequences of characters: their characters one by one, and
//! the order in which names are listed.

use vstd::prelude::*;

verus! {

/// The views of a list of strings.
pub open spec fn texts(strings: Seq<String>) -> Seq<Seq<char>> {
    Seq::new(strings.len(), |i: int| strings[i]@)
}

/// `a` and `b` agree before position `k`, where `a` has ended or holds the
/// smaller character.
pub open spec fn differs_at(a: Seq<char>, b: Seq<char>, k: int) -> bool {
    &&& 0 <= k <= a.len()
    &&& k < b.len()
    &&& forall|i: int| 0 <= i < k ==> a[i] == b[i]
    &&& (k == a.len() || a[k] < b[k])
}

/// `a` comes before `b` in the order of strings: character by character,
/// the shorter first where one is the beginning of the other.
pub open spec fn text_lt(a: Seq<char>, b: Seq<char>) -> bool {
    exists|k: int| differs_at(a, b, k)
}

/// Of two strings, one comes before the other or they are the same.
pub proof fn lemma_text_lt_total(a: Seq<char>, b: Seq<char>)
    ensures
        text_lt(a, b) || text_lt(b, a) || a == b,
{
    if a != b {
        if exists|i: int| 0 <= i < a.len() && i < b.len() && a[i] != b[i] {
            lemma_first_difference(a, b, 0);
            let k = first_difference(a, b, 0);
            if a[k] < b[k] {
                assert(differs_at(a, b, k));
            } else {
                assert(differs_at(b, a, k));
            }
        } else if a.len() < b.len() {
            assert(differs_at(a, b, a.len() as int));
        } else if b.len() < a.len() {
            assert(differs_at(b, a, b.len() as int));
        }
    }
}

/// The first position from `from` on at which `a` and `b` both have a
/// character and the two are not the same.
pub open spec fn first_difference(a: Seq<char>, b: Seq<char>, from: int) -> int
    decreases a.len() - from,
{
    if from < 0 || from >= a.len() || from >= b.len() || a[from] != b[from] {
        from
    } else {
        first_difference(a, b, from + 1)
    }
}

/// Where two strings differ at a common position, `first_difference` finds
/// the first such position.
proof fn lemma_first_difference(a: Seq<char>, b: Seq<char>, from: int)
    requires
        0 <= from,
        forall|i: int| 0 <= i < from && i < a.len() && i < b.len() ==> a[i] == b[i],
        exists|i: int| 0 <= i < a.len() && i < b.len() && a[i] != b[i],
    ensures
        ({
            let k = first_difference(a, b, from);
            &&& from <= k < a.len()
            &&& k < b.len()
            &&& a[k] != b[k]
            &&& forall|i: int| 0 <= i < k ==> a[i] == b[i]
        }),
    decreases a.len() - from,
{
    if a[from] == b[from] {
        lemma_first_difference(a, b, from + 1);
    }
}

/// No string comes before itself, and of two strings at most one comes
/// before the other.
pub proof fn lemma_text_lt_asymmetric(a: Seq<char>, b: Seq<char>)
    ensures
        !(text_lt(a, b) && text_lt(b, a)),
{
    if text_lt(a, b) && text_lt(b, a) {
        let k = choose|k: int| differs_at(a, b, k);
        let m = choose|m: int| differs_at(b, a, m);
        assert(k == m);
    }
}

/// The order of strings is transitive.
pub proof fn lemma_text_lt_transitive(a: Seq<char>, b: Seq<char>, c: Seq<char>)
    requires
        text_lt(a, b),
        text_lt(b, c),
    ensures
        text_lt(a, c),
{
    let k = choose|k: int| differs_at(a, b, k);
    let m = choose|m: int| differs_at(b, c, m);
    if k <= m {
        assert(differs_at(a, c, k));
    } else {
        assert(differs_at(a, c, m));
    }
}

/// The characters of a string.
pub fn chars_of(text: &str) -> (chars: Vec<char>)
    ensures
        chars@ == text@,
{
    broadcast use vstd::string::group_string_axioms;

    let mut chars: Vec<char> = Vec::new();
    for c in it: text.chars()
        invariant
            it.seq() == text@,
            chars@ == text@.take(it.index()),
    {
        chars.push(c);
    }
    chars
}

/// Whether `a` comes before `b` in the order of strings.
pub fn name_precedes(a: &str, b: &str) -> (before: bool)
    ensures
        before == text_lt(a@, b@),
{
    let x = chars_of(a);
    let y = chars_of(b);
    let mut i: usize = 0;
    while i < x.len() && i < y.len() && x[i] == y[i]
        invariant
            i <= x.len(),
            i <= y.len(),
            forall|k: int| 0 <= k < i ==> x@[k] == y@[k],
        decreases x.len() - i,
    {
        i = i + 1;
    }
    let before = if i == y.len() {
        false
    } else if i == x.len() {
        true
    } else {
        x[i] < y[i]
    };
    proof {
        if before {
            assert(differs_at(a@, b@, i as int));
        } else {
            assert forall|k: int| !differs_at(a@, b@, k) by {
                if k > i && differs_at(a@, b@, k) {
                    assert(a@[i as int] == b@[i as int]);
                }
            }
        }
    }
    before
}

} // verus!
