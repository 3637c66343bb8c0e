//! Request paths: which of them stay inside the store.
//!
//! A requested path is joined to the root of the store and resolved by its
//! text alone: empty segments and `.` are dropped, `..` takes back the
//! segment before it. Only a path that still lies under the root may be
//! read, so the decision is made before the file system is touched.

use crate::text::{chars_of, texts};
use vstd::prelude::*;

verus! {

/// The path leads out of the store.
#[derive(Clone, Copy, Debug, PartialEq, Eq, Structural)]
pub struct AccessDenied;

/// The segments of a path: the pieces between its slashes, empty ones
/// included.
pub open spec fn split(path: Seq<char>) -> Seq<Seq<char>>
    decreases path.len(),
{
    if path.len() == 0 {
        seq![Seq::empty()]
    } else {
        let before = split(path.drop_last());
        if path.last() == '/' {
            before.push(Seq::empty())
        } else {
            before.update(before.len() - 1, before.last().push(path.last()))
        }
    }
}

/// The segment `.` and the empty segment stand for no step at all.
pub open spec fn is_blank(segment: Seq<char>) -> bool {
    segment.len() == 0 || segment == seq!['.']
}

/// The segment `..`, a step to the parent.
pub open spec fn is_parent(segment: Seq<char>) -> bool {
    segment == seq!['.', '.']
}

/// The path begins at the root of the file system.
pub open spec fn is_absolute(path: Seq<char>) -> bool {
    path.len() > 0 && path[0] == '/'
}

/// One step from the place `stack`: a name leads down, `..` leads up. Above
/// the root of the file system there is nothing, so `..` stays there; a
/// relative path that leads above its start keeps the `..`.
pub open spec fn step(stack: Seq<Seq<char>>, segment: Seq<char>, absolute: bool) -> Seq<Seq<char>> {
    if is_blank(segment) {
        stack
    } else if is_parent(segment) {
        if stack.len() > 0 && !is_parent(stack.last()) {
            stack.drop_last()
        } else if absolute {
            stack
        } else {
            stack.push(segment)
        }
    } else {
        stack.push(segment)
    }
}

/// The place reached from `stack` by the given segments, one after the
/// other.
pub open spec fn walk(stack: Seq<Seq<char>>, segments: Seq<Seq<char>>, absolute: bool) -> Seq<
    Seq<char>,
>
    decreases segments.len(),
{
    if segments.len() == 0 {
        stack
    } else {
        step(walk(stack, segments.drop_last(), absolute), segments.last(), absolute)
    }
}

/// The names that a path leads through, once resolved.
pub open spec fn components(path: Seq<char>) -> Seq<Seq<char>> {
    walk(Seq::empty(), split(path), is_absolute(path))
}

/// Where a request leads: an absolute request stands for itself, any other
/// continues from the root of the store.
pub open spec fn resolved(root: Seq<char>, requested: Seq<char>) -> Seq<Seq<char>> {
    if is_absolute(requested) {
        components(requested)
    } else {
        walk(components(root), split(requested), is_absolute(root))
    }
}

/// No name is `.`, `..` or empty.
pub open spec fn plain_names(names: Seq<Seq<char>>) -> bool {
    forall|i: int| 0 <= i < names.len() ==> !is_blank(#[trigger] names[i]) && !is_parent(names[i])
}

/// The request stays inside the store: resolved, it leads through the root
/// and from there on through plain names, never up.
pub open spec fn within(root: Seq<char>, requested: Seq<char>) -> bool {
    &&& is_absolute(requested) ==> is_absolute(root)
    &&& components(root).is_prefix_of(resolved(root, requested))
    &&& plain_names(resolved(root, requested).skip(components(root).len() as int))
}

/// The names joined by slashes.
pub open spec fn joined(names: Seq<Seq<char>>) -> Seq<char>
    decreases names.len(),
{
    if names.len() == 0 {
        Seq::empty()
    } else if names.len() == 1 {
        names[0]
    } else {
        joined(names.drop_last()) + seq!['/'] + names.last()
    }
}

/// The text of a resolved path.
pub open spec fn path_text(absolute: bool, names: Seq<Seq<char>>) -> Seq<char> {
    if absolute {
        seq!['/'] + joined(names)
    } else {
        joined(names)
    }
}

/// Whether the path begins with a slash.
pub fn begins_at_root(path: &str) -> (absolute: bool)
    ensures
        absolute == is_absolute(path@),
{
    let chars = chars_of(path);
    chars.len() > 0 && chars[0] == '/'
}

/// Cuts a path at its slashes.
pub fn split_path(path: &str) -> (segments: Vec<String>)
    ensures
        texts(segments@) == split(path@),
{
    let chars = chars_of(path);
    let mut segments: Vec<String> = Vec::new();
    let mut start: usize = 0;
    let mut i: usize = 0;
    assert(path@.take(0) =~= Seq::<char>::empty());
    while i < chars.len()
        invariant
            chars@ == path@,
            start <= i <= chars.len(),
            split(path@.take(i as int)) == texts(segments@).push(
                path@.subrange(start as int, i as int),
            ),
        decreases chars.len() - i,
    {
        let ghost before = split(path@.take(i as int));
        let ghost cut = texts(segments@);
        let ghost open = path@.subrange(start as int, i as int);
        assert(path@.take(i + 1).drop_last() =~= path@.take(i as int));
        if chars[i] == '/' {
            let segment = path.substring_char(start, i).to_owned();
            segments.push(segment);
            start = i + 1;
            assert(path@.subrange(start as int, i + 1) =~= Seq::<char>::empty());
        } else {
            assert(path@.subrange(start as int, i + 1) =~= open.push(chars@[i as int]));
            assert(cut.push(open.push(chars@[i as int])) =~= before.update(
                before.len() - 1,
                before.last().push(chars@[i as int]),
            ));
        }
        i = i + 1;
    }
    assert(path@.take(i as int) =~= path@);
    let segment = path.substring_char(start, i).to_owned();
    segments.push(segment);
    segments
}

/// Whether the segment is `.` or empty.
fn blank(segment: &String) -> (yes: bool)
    ensures
        yes == is_blank(segment@),
{
    let chars = chars_of(segment.as_str());
    let yes = chars.len() == 0 || (chars.len() == 1 && chars[0] == '.');
    assert(yes ==> segment@.len() == 0 || segment@ =~= seq!['.']);
    yes
}

/// Whether the segment is `..`.
fn parent(segment: &String) -> (yes: bool)
    ensures
        yes == is_parent(segment@),
{
    let chars = chars_of(segment.as_str());
    let yes = chars.len() == 2 && chars[0] == '.' && chars[1] == '.';
    assert(yes ==> segment@ =~= seq!['.', '.']);
    yes
}

/// Follows the segments from the place `stack`.
pub fn follow(stack: Vec<String>, segments: &Vec<String>, absolute: bool) -> (place: Vec<String>)
    ensures
        texts(place@) == walk(texts(stack@), texts(segments@), absolute),
{
    let mut place = stack;
    let mut i: usize = 0;
    while i < segments.len()
        invariant
            i <= segments.len(),
            texts(place@) == walk(texts(stack@), texts(segments@).take(i as int), absolute),
        decreases segments.len() - i,
    {
        let segment = &segments[i];
        assert(texts(segments@).take(i + 1).drop_last() =~= texts(segments@).take(i as int));
        if blank(segment) {
        } else if parent(segment) {
            let up = place.len() > 0 && !parent(&place[place.len() - 1]);
            if up {
                place.pop();
            } else if !absolute {
                place.push(segment.clone());
            }
        } else {
            place.push(segment.clone());
        }
        i = i + 1;
    }
    assert(texts(segments@).take(i as int) =~= texts(segments@));
    place
}

/// Whether `path` begins with all of `prefix`.
pub fn leads_through(path: &Vec<String>, prefix: &Vec<String>) -> (yes: bool)
    ensures
        yes == texts(prefix@).is_prefix_of(texts(path@)),
{
    if prefix.len() > path.len() {
        return false;
    }
    let mut i: usize = 0;
    while i < prefix.len()
        invariant
            i <= prefix.len() <= path.len(),
            forall|k: int| 0 <= k < i ==> prefix@[k]@ == path@[k]@,
        decreases prefix.len() - i,
    {
        if prefix[i] != path[i] {
            assert(texts(prefix@)[i as int] != texts(path@).subrange(
                0,
                texts(prefix@).len() as int,
            )[i as int]);
            return false;
        }
        i = i + 1;
    }
    true
}

/// Whether the names from position `from` on are all plain.
pub fn plain_from(names: &Vec<String>, from: usize) -> (yes: bool)
    requires
        from <= names.len(),
    ensures
        yes == plain_names(texts(names@).skip(from as int)),
{
    let mut i: usize = from;
    while i < names.len()
        invariant
            from <= i <= names.len(),
            forall|k: int| from <= k < i ==> !is_blank(names@[k]@) && !is_parent(names@[k]@),
        decreases names.len() - i,
    {
        if blank(&names[i]) || parent(&names[i]) {
            assert(texts(names@).skip(from as int)[i - from] == names@[i as int]@);
            return false;
        }
        i = i + 1;
    }
    assert(plain_names(texts(names@).skip(from as int)));
    true
}

/// Writes a resolved path out.
pub fn write_path(absolute: bool, names: &Vec<String>) -> (path: String)
    ensures
        path@ == path_text(absolute, texts(names@)),
{
    proof {
        reveal_strlit("/");
    }
    let mut path = String::new();
    if absolute {
        path.append("/");
    }
    let ghost lead = path@;
    let mut i: usize = 0;
    while i < names.len()
        invariant
            i <= names.len(),
            "/"@ == seq!['/'],
            path@ == lead + joined(texts(names@).take(i as int)),
        decreases names.len() - i,
    {
        let ghost so_far = texts(names@).take(i as int);
        assert(texts(names@).take(i + 1).drop_last() =~= so_far);
        if i > 0 {
            path.append("/");
        }
        path.append(names[i].as_str());
        i = i + 1;
    }
    assert(texts(names@).take(i as int) =~= texts(names@));
    path
}

/// Resolves a requested path against the root of the store and decides
/// whether it may be read.
///
/// The answer is the resolved path, written out, where the request stays
/// inside the store, and `AccessDenied` where it does not.
pub fn resolve_request(root: &str, requested: &str) -> (decision: Result<String, AccessDenied>)
    ensures
        decision is Ok <==> within(root@, requested@),
        decision matches Ok(path) ==> path@ == path_text(
            is_absolute(root@),
            resolved(root@, requested@),
        ),
{
    let rooted = begins_at_root(root);
    let root_segments = split_path(root);
    let home = follow(Vec::new(), &root_segments, rooted);
    assert(texts(Seq::<String>::empty()) =~= Seq::<Seq<char>>::empty());
    let request_segments = split_path(requested);
    let place = if begins_at_root(requested) {
        if !rooted {
            return Err(AccessDenied);
        }
        follow(Vec::new(), &request_segments, true)
    } else {
        let start = follow(Vec::new(), &root_segments, rooted);
        follow(start, &request_segments, rooted)
    };
    if leads_through(&place, &home) && plain_from(&place, home.len()) {
        Ok(write_path(rooted, &place))
    } else {
        Err(AccessDenied)
    }
}

/// What is left of a path once the root of the store is taken from its
/// front; the path as it stands where it does not lie under the root.
pub open spec fn relative_text(root: Seq<char>, path: Seq<char>) -> Seq<char> {
    if is_absolute(root) == is_absolute(path) && components(root).is_prefix_of(components(path)) {
        joined(components(path).skip(components(root).len() as int))
    } else {
        path
    }
}

/// The path of a file of the store as the catalogue keeps it: without the
/// root of the store in front. A path that does not lie under the root is
/// kept whole.
pub fn relative_path(root: &str, path: &str) -> (relative: String)
    ensures
        relative@ == relative_text(root@, path@),
{
    let rooted = begins_at_root(root);
    let home = follow(Vec::new(), &split_path(root), rooted);
    let place = follow(Vec::new(), &split_path(path), begins_at_root(path));
    assert(texts(Seq::<String>::empty()) =~= Seq::<Seq<char>>::empty());
    if rooted == begins_at_root(path) && leads_through(&place, &home) {
        let mut rest: Vec<String> = Vec::new();
        let mut i: usize = home.len();
        while i < place.len()
            invariant
                home.len() <= i <= place.len(),
                texts(rest@) == texts(place@).subrange(home.len() as int, i as int),
            decreases place.len() - i,
        {
            let ghost before = texts(rest@);
            rest.push(place[i].clone());
            assert(texts(rest@) =~= before.push(place@[i as int]@));
            i = i + 1;
        }
        write_path(false, &rest)
    } else {
        path.to_owned()
    }
}

/// A walk from the root of the file system leads through plain names only:
/// resolved, an absolute path holds no `.` and no `..`, so that the path
/// that is read is the path that was checked.
pub proof fn lemma_walk_is_plain(stack: Seq<Seq<char>>, segments: Seq<Seq<char>>)
    requires
        plain_names(stack),
    ensures
        plain_names(walk(stack, segments, true)),
    decreases segments.len(),
{
    if segments.len() > 0 {
        lemma_walk_is_plain(stack, segments.drop_last());
    }
}

/// Names that begin with the names of a root, joined, begin with the text
/// of the root.
pub proof fn lemma_joined_prefix(prefix: Seq<Seq<char>>, names: Seq<Seq<char>>)
    requires
        prefix.is_prefix_of(names),
    ensures
        joined(prefix).is_prefix_of(joined(names)),
    decreases names.len(),
{
    if prefix.len() == names.len() {
        assert(prefix =~= names);
    } else if prefix.len() == 0 {
    } else {
        let shorter = names.drop_last();
        assert(prefix.is_prefix_of(shorter));
        lemma_joined_prefix(prefix, shorter);
    }
}

/// A request that is allowed resolves to a path whose text begins with the
/// text of the resolved root. Where the root of the store begins at the
/// root of the file system, the whole path holds no `.` and no `..`, and the
/// request is allowed exactly when its resolved path leads through the
/// root.
pub proof fn lemma_allowed_lies_under_root(root: Seq<char>, requested: Seq<char>)
    ensures
        within(root, requested) ==> path_text(is_absolute(root), components(root)).is_prefix_of(
            path_text(is_absolute(root), resolved(root, requested)),
        ),
        is_absolute(root) ==> plain_names(resolved(root, requested)),
        is_absolute(root) ==> (within(root, requested) <==> components(root).is_prefix_of(
            resolved(root, requested),
        )),
{
    let home = components(root);
    let place = resolved(root, requested);
    if within(root, requested) {
        lemma_joined_prefix(home, place);
        if is_absolute(root) {
            assert(path_text(true, home) =~= path_text(true, place).subrange(
                0,
                path_text(true, home).len() as int,
            ));
        }
    }
    if is_absolute(root) {
        lemma_walk_is_plain(Seq::empty(), split(root));
        if is_absolute(requested) {
            lemma_walk_is_plain(Seq::empty(), split(requested));
        } else {
            lemma_walk_is_plain(home, split(requested));
        }
        if home.is_prefix_of(place) {
            let rest = place.skip(home.len() as int);
            assert forall|i: int| 0 <= i < rest.len() implies !is_blank(#[trigger] rest[i])
                && !is_parent(rest[i]) by {
                assert(rest[i] == place[i + home.len()]);
            }
        }
    }
}

} // verus!
