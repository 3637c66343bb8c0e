//! Directory listings: the entries of one directory of the store,
//! directories first, each group by name.

use crate::text::{
    lemma_text_lt_asymmetric, lemma_text_lt_total, lemma_text_lt_transitive, name_precedes, text_lt,
};
use vstd::prelude::*;
use vstd::seq_lib::to_multiset_insert;

verus! {

/// One entry of a directory listing.
#[derive(Clone, Debug)]
pub struct FileEntry {
    /// The entry's own name.
    pub name: String,
    /// The entry's path below the root of the store.
    pub path: String,
    pub is_dir: bool,
}

/// The mathematical content of a [`FileEntry`].
pub struct ListedModel {
    pub name: Seq<char>,
    pub path: Seq<char>,
    pub is_dir: bool,
}

impl View for FileEntry {
    type V = ListedModel;

    open spec fn view(&self) -> ListedModel {
        ListedModel { name: self.name@, path: self.path@, is_dir: self.is_dir }
    }
}

/// The views of a list of entries.
pub open spec fn views(entries: Seq<FileEntry>) -> Seq<ListedModel> {
    Seq::new(entries.len(), |i: int| entries[i]@)
}

/// The path of the entry `name` of the directory that was asked for as
/// `requested`: the name alone in the root, else the two joined by `/`.
pub open spec fn entry_path(requested: Seq<char>, name: Seq<char>) -> Seq<char> {
    if requested.len() == 0 {
        name
    } else {
        requested + seq!['/'] + name
    }
}

/// `a` is listed before `b`: a directory before a file, and within each
/// group the smaller name first.
pub open spec fn listed_before(a: ListedModel, b: ListedModel) -> bool {
    if a.is_dir != b.is_dir {
        a.is_dir
    } else {
        text_lt(a.name, b.name)
    }
}

/// The entries are in listing order: none should stand before an earlier
/// one.
pub open spec fn is_listing(entries: Seq<ListedModel>) -> bool {
    forall|i: int, j: int| 0 <= i < j < entries.len() ==> !listed_before(entries[j], entries[i])
}

/// The place of a new entry in a listing, looked for from `from` on: in
/// front of the first entry that it is listed before, or at the end.
pub open spec fn place_from(listing: Seq<ListedModel>, entry: ListedModel, from: int) -> int
    decreases listing.len() - from,
{
    if from < 0 || from >= listing.len() || listed_before(entry, listing[from]) {
        from
    } else {
        place_from(listing, entry, from + 1)
    }
}

/// The listing with one more entry, which goes behind every entry that it
/// is not listed before.
pub open spec fn with_entry(listing: Seq<ListedModel>, entry: ListedModel) -> Seq<ListedModel> {
    listing.insert(place_from(listing, entry, 0), entry)
}

/// The entries in listing order: directories first, each group by name,
/// and entries of the same kind and name in the order in which they came.
pub open spec fn listing_of(entries: Seq<ListedModel>) -> Seq<ListedModel>
    decreases entries.len(),
{
    if entries.len() == 0 {
        Seq::empty()
    } else {
        with_entry(listing_of(entries.drop_last()), entries.last())
    }
}

/// The entries of a directory that was asked for as `requested` and in
/// which the given names were found, each with whether it is a directory.
pub open spec fn found_entries(requested: Seq<char>, found: Seq<(String, bool)>) -> Seq<
    ListedModel,
> {
    Seq::new(
        found.len(),
        |i: int|
            ListedModel {
                name: found[i].0@,
                path: entry_path(requested, found[i].0@),
                is_dir: found[i].1,
            },
    )
}

/// Being listed before is a strict order: no entry stands before itself,
/// of two entries at most one stands before the other, and the order is
/// transitive.
pub proof fn lemma_listed_before_strict(a: ListedModel, b: ListedModel, c: ListedModel)
    ensures
        !(listed_before(a, b) && listed_before(b, a)),
        listed_before(a, b) && listed_before(b, c) ==> listed_before(a, c),
{
    lemma_text_lt_asymmetric(a.name, b.name);
    if listed_before(a, b) && listed_before(b, c) {
        if a.is_dir == b.is_dir && b.is_dir == c.is_dir {
            lemma_text_lt_transitive(a.name, b.name, c.name);
        }
    }
}

/// Two entries of the same kind with different names are never tied: one
/// of them is listed before the other.
pub proof fn lemma_listed_before_total(a: ListedModel, b: ListedModel)
    ensures
        listed_before(a, b) || listed_before(b, a) || (a.is_dir == b.is_dir && a.name == b.name),
{
    lemma_text_lt_total(a.name, b.name);
}

/// The place of a new entry lies in the listing or at its end; the entries
/// in front of it are not behind the new entry, and the entry at the place
/// is.
pub proof fn lemma_place(listing: Seq<ListedModel>, entry: ListedModel, from: int)
    requires
        0 <= from <= listing.len(),
    ensures
        ({
            let at = place_from(listing, entry, from);
            &&& from <= at <= listing.len()
            &&& forall|k: int| from <= k < at ==> !listed_before(entry, listing[k])
            &&& at < listing.len() ==> listed_before(entry, listing[at])
        }),
    decreases listing.len() - from,
{
    if from < listing.len() && !listed_before(entry, listing[from]) {
        lemma_place(listing, entry, from + 1);
    }
}

/// One more entry leaves a listing in order and adds nothing but itself.
pub proof fn lemma_with_entry(listing: Seq<ListedModel>, entry: ListedModel)
    requires
        is_listing(listing),
    ensures
        is_listing(with_entry(listing, entry)),
        with_entry(listing, entry).to_multiset() == listing.to_multiset().insert(entry),
{
    let at = place_from(listing, entry, 0);
    lemma_place(listing, entry, 0);
    to_multiset_insert(listing, at, entry);
    let grown = with_entry(listing, entry);
    assert forall|a: int, b: int| 0 <= a < b < grown.len() implies !listed_before(
        grown[b],
        grown[a],
    ) by {
        if b == at {
            // the new entry stands behind entries that it is not listed before
            assert(grown[a] == listing[a]);
        } else if a == at {
            // the new entry is listed before the entry at its place, and
            // that one is not behind any later one
            assert(grown[b] == listing[b - 1]);
            lemma_listed_before_strict(entry, listing[at], entry);
            if b - 1 > at {
                lemma_listed_before_strict(listing[b - 1], entry, listing[at]);
            }
        } else {
            // two entries of the old listing
            let a0 = if a < at { a } else { a - 1 };
            let b0 = if b < at { b } else { b - 1 };
            assert(grown[a] == listing[a0] && grown[b] == listing[b0]);
        }
    }
}

/// The listing of any entries is in listing order and holds the same
/// entries, each as often as it was given.
pub proof fn lemma_listing_of(entries: Seq<ListedModel>)
    ensures
        is_listing(listing_of(entries)),
        listing_of(entries).to_multiset() == entries.to_multiset(),
        listing_of(entries).len() == entries.len(),
    decreases entries.len(),
{
    broadcast use vstd::seq_lib::to_multiset_build;

    if entries.len() == 0 {
        assert(listing_of(entries) =~= entries);
    } else {
        let rest = entries.drop_last();
        lemma_listing_of(rest);
        lemma_with_entry(listing_of(rest), entries.last());
        lemma_place(listing_of(rest), entries.last(), 0);
        assert(entries =~= rest.push(entries.last()));
    }
}

impl FileEntry {
    /// The entry for `name`, found in the directory that was asked for as
    /// `requested`.
    pub fn new(requested: &str, name: String, is_dir: bool) -> (entry: FileEntry)
        ensures
            entry.name@ == name@,
            entry.path@ == entry_path(requested@, name@),
            entry.is_dir == is_dir,
    {
        let path = if requested.is_empty() {
            name.clone()
        } else {
            let mut path = requested.to_owned();
            proof {
                reveal_strlit("/");
            }
            path.append("/");
            path.append(name.as_str());
            path
        };
        FileEntry { name, path, is_dir }
    }

    /// Whether this entry is listed before `other`.
    pub fn precedes(&self, other: &FileEntry) -> (before: bool)
        ensures
            before == listed_before(self@, other@),
    {
        if self.is_dir != other.is_dir {
            self.is_dir
        } else {
            name_precedes(self.name.as_str(), other.name.as_str())
        }
    }
}

/// Puts one more entry into a listing: behind every entry that it is not
/// listed before.
pub fn insert_entry(listing: &mut Vec<FileEntry>, entry: FileEntry)
    ensures
        views(final(listing)@) == with_entry(views(old(listing)@), entry@),
{
    let mut at: usize = 0;
    while at < listing.len() && !entry.precedes(&listing[at])
        invariant
            at <= listing.len(),
            place_from(views(listing@), entry@, at as int) == place_from(
                views(listing@),
                entry@,
                0,
            ),
        decreases listing.len() - at,
    {
        at = at + 1;
    }
    listing.insert(at, entry);
}

/// Puts entries in listing order: directories first, each group by name,
/// and entries of the same kind and name in the order in which they came.
pub fn sort_entries(entries: Vec<FileEntry>) -> (listing: Vec<FileEntry>)
    ensures
        views(listing@) == listing_of(views(entries@)),
{
    let mut rest = entries;
    let mut listing: Vec<FileEntry> = Vec::new();
    let ghost mut done: int = 0;
    while rest.len() > 0
        invariant
            0 <= done <= entries@.len(),
            rest@ == entries@.skip(done),
            views(listing@) == listing_of(views(entries@).take(done)),
        decreases rest.len(),
    {
        let entry = rest.remove(0);
        proof {
            assert(views(entries@).take(done + 1).drop_last() =~= views(entries@).take(done));
            done = done + 1;
        }
        insert_entry(&mut listing, entry);
    }
    assert(views(entries@).take(done) =~= views(entries@));
    listing
}

/// The listing of a directory that was asked for as `requested` and in
/// which the given names were found, each with whether it is a directory.
pub fn list_directory(requested: &str, found: &Vec<(String, bool)>) -> (listing: Vec<FileEntry>)
    ensures
        views(listing@) == listing_of(found_entries(requested@, found@)),
{
    let mut listing: Vec<FileEntry> = Vec::new();
    let mut i: usize = 0;
    while i < found.len()
        invariant
            i <= found.len(),
            views(listing@) == listing_of(found_entries(requested@, found@).take(i as int)),
        decreases found.len() - i,
    {
        let entry = FileEntry::new(requested, found[i].0.clone(), found[i].1);
        proof {
            let all = found_entries(requested@, found@);
            assert(all.take(i + 1).drop_last() =~= all.take(i as int));
        }
        insert_entry(&mut listing, entry);
        i = i + 1;
    }
    assert(found_entries(requested@, found@).take(i as int) =~= found_entries(requested@, found@));
    listing
}

} // verus!
