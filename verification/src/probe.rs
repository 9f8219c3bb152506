//! Directory listings and the test for a collision between the short forms of
//! sibling directories.
//!
//! The library reads no filesystem. A caller lists the directories that a
//! render consults and hands the listings over as a [`Snapshot`]; a directory
//! that is missing from it counts as unreadable, which means no collision.

use crate::shorten::{shorten_dir, shorten_spec};
use crate::text::{lemma_names_push, names, same_text};
use vstd::prelude::*;

verus! {

/// One entry of a directory listing.
pub struct Entry {
    /// The entry's name, without any separator.
    pub name: String,
    /// Whether the entry is a directory.
    pub is_dir: bool,
}

/// What listing one directory returned.
pub struct Listing {
    /// The absolute path of the directory that was listed.
    pub dir: String,
    /// Its entries, in the order in which they were read.
    pub entries: Vec<Entry>,
}

/// The listings taken for one render. Where a directory occurs twice, the
/// first listing counts.
pub struct Snapshot {
    pub listings: Vec<Listing>,
}

/// An entry of a listing as a value: its name and whether it is a directory.
pub struct EntryView {
    pub name: Seq<char>,
    pub is_dir: bool,
}

impl View for Entry {
    type V = EntryView;

    open spec fn view(&self) -> EntryView {
        EntryView { name: self.name@, is_dir: self.is_dir }
    }
}

/// What was listed, as a map from each listed directory to its entries.
pub type Listed = Map<Seq<char>, Seq<EntryView>>;

/// The entries of a listing as values, in listing order.
pub open spec fn entry_views(entries: Seq<Entry>) -> Seq<EntryView> {
    Seq::new(entries.len(), |i: int| entries[i]@)
}

impl View for Snapshot {
    type V = Listed;

    /// The snapshot as a map from each listed directory to the entries of
    /// its first listing.
    open spec fn view(&self) -> Listed {
        Map::new(
            |dir: Seq<char>| find_from(self.listings@, dir, 0).is_some(),
            |dir: Seq<char>|
                entry_views(self.listings@[find_from(self.listings@, dir, 0).unwrap()].entries@),
        )
    }
}

/// Whether an entry is a sibling directory of the directory called `name`:
/// a directory under another name.
pub open spec fn is_sibling(name: Seq<char>, e: EntryView) -> bool {
    e.is_dir && e.name != name
}

/// The names of the sibling directories of `name` among `entries`, in the
/// order of the listing.
pub open spec fn siblings_of(name: Seq<char>, entries: Seq<EntryView>) -> Seq<Seq<char>>
    decreases entries.len(),
{
    if entries.len() == 0 {
        Seq::empty()
    } else if is_sibling(name, entries.last()) {
        siblings_of(name, entries.drop_last()).push(entries.last().name)
    } else {
        siblings_of(name, entries.drop_last())
    }
}

/// Whether one of `siblings` has the same short form as `name`.
pub open spec fn collides_with(name: Seq<char>, siblings: Seq<Seq<char>>) -> bool {
    exists|i: int|
        0 <= i < siblings.len() && shorten_spec(#[trigger] siblings[i]) == shorten_spec(name)
}

/// Whether some sibling directory among `entries` has the same short form as
/// `name`.
pub open spec fn collides(name: Seq<char>, entries: Seq<EntryView>) -> bool {
    exists|i: int|
        0 <= i < entries.len() && is_sibling(name, #[trigger] entries[i]) && shorten_spec(
            entries[i].name,
        ) == shorten_spec(name)
}

/// The index of the first listing of `dir` at or after `from`, if there is one.
pub open spec fn find_from(listings: Seq<Listing>, dir: Seq<char>, from: int) -> Option<int>
    decreases listings.len() - from,
{
    if from < 0 || from >= listings.len() {
        None
    } else if listings[from].dir@ == dir {
        Some(from)
    } else {
        find_from(listings, dir, from + 1)
    }
}

/// The entries listed for `dir`; none where it was not listed.
pub open spec fn entries_at(listed: Listed, dir: Seq<char>) -> Seq<EntryView> {
    if listed.dom().contains(dir) {
        listed[dir]
    } else {
        Seq::empty()
    }
}

/// A listing added at the end is found only where no earlier one is.
pub proof fn lemma_find_after_push(
    listings: Seq<Listing>,
    added: Listing,
    dir: Seq<char>,
    from: int,
)
    requires
        0 <= from <= listings.len(),
    ensures
        find_from(listings.push(added), dir, from) == match find_from(listings, dir, from) {
            Some(i) => Some(i),
            None => if added.dir@ == dir {
                Some(listings.len() as int)
            } else {
                None
            },
        },
        find_from(listings, dir, from) matches Some(i) ==> from <= i < listings.len()
            && listings[i].dir@ == dir,
    decreases listings.len() - from,
{
    let longer = listings.push(added);
    if from < listings.len() {
        assert(longer[from] == listings[from]);
        lemma_find_after_push(listings, added, dir, from + 1);
    } else {
        assert(longer[from] == added);
        assert(find_from(longer, dir, from + 1).is_none());
    }
}

/// A name is among the siblings exactly if a sibling entry carries it.
pub proof fn lemma_siblings_members(name: Seq<char>, entries: Seq<EntryView>)
    ensures
        forall|s: Seq<char>|
            siblings_of(name, entries).contains(s) <==> exists|i: int|
                0 <= i < entries.len() && is_sibling(name, #[trigger] entries[i])
                    && entries[i].name == s,
    decreases entries.len(),
{
    let sibs = siblings_of(name, entries);
    if entries.len() == 0 {
        assert forall|s: Seq<char>| !sibs.contains(s) by {}
    } else {
        let init = entries.drop_last();
        let last = entries.last();
        lemma_siblings_members(name, init);
        assert forall|s: Seq<char>|
            sibs.contains(s) <==> exists|i: int|
                0 <= i < entries.len() && is_sibling(name, #[trigger] entries[i])
                    && entries[i].name == s by {
            let before = siblings_of(name, init);
            if sibs.contains(s) {
                let k = choose|k: int| 0 <= k < sibs.len() && sibs[k] == s;
                if k < before.len() {
                    assert(before[k] == s);
                    assert(before.contains(s));
                    let i = choose|i: int|
                        0 <= i < init.len() && is_sibling(name, #[trigger] init[i])
                            && init[i].name == s;
                    assert(entries[i] == init[i]);
                } else {
                    assert(is_sibling(name, entries[entries.len() - 1]));
                }
            }
            if exists|i: int|
                0 <= i < entries.len() && is_sibling(name, #[trigger] entries[i])
                    && entries[i].name == s {
                let i = choose|i: int|
                    0 <= i < entries.len() && is_sibling(name, #[trigger] entries[i])
                        && entries[i].name == s;
                if i < init.len() {
                    assert(init[i] == entries[i]);
                    assert(before.contains(s));
                    let k = choose|k: int| 0 <= k < before.len() && before[k] == s;
                    assert(sibs[k] == s);
                } else {
                    assert(sibs[sibs.len() - 1] == s);
                }
            }
        }
    }
}

/// A collision with the sibling names is a collision with a sibling entry,
/// and the other way round.
pub proof fn lemma_collides_by_entries(name: Seq<char>, entries: Seq<EntryView>)
    ensures
        collides_with(name, siblings_of(name, entries)) == collides(name, entries),
{
    let sibs = siblings_of(name, entries);
    lemma_siblings_members(name, entries);
    if collides_with(name, sibs) {
        let k = choose|k: int|
            0 <= k < sibs.len() && shorten_spec(#[trigger] sibs[k]) == shorten_spec(name);
        assert(sibs.contains(sibs[k]));
    }
    if collides(name, entries) {
        let i = choose|i: int|
            0 <= i < entries.len() && is_sibling(name, #[trigger] entries[i]) && shorten_spec(
                entries[i].name,
            ) == shorten_spec(name);
        let s = entries[i].name;
        assert(sibs.contains(s));
        let k = choose|k: int| 0 <= k < sibs.len() && sibs[k] == s;
        assert(shorten_spec(sibs[k]) == shorten_spec(name));
    }
}

/// The sibling directories of the directory called `name`, given the listing
/// of its parent: every directory entry under another name, in listing order.
pub fn get_siblings(name: &str, entries: &Vec<Entry>) -> (siblings: Vec<String>)
    ensures
        names(siblings@) == siblings_of(name@, entry_views(entries@)),
{
    let ghost all = entry_views(entries@);
    let mut siblings: Vec<String> = Vec::new();
    let mut i: usize = 0;
    proof {
        assert(names(siblings@) =~= Seq::<Seq<char>>::empty());
    }
    while i < entries.len()
        invariant
            i <= entries@.len(),
            all == entry_views(entries@),
            names(siblings@) == siblings_of(name@, all.take(i as int)),
        decreases entries@.len() - i,
    {
        let e = &entries[i];
        proof {
            let upto = all.take(i + 1);
            assert(upto.drop_last() =~= all.take(i as int));
            assert(upto.last() == entries@[i as int]@);
        }
        if e.is_dir && !same_text(e.name.as_str(), name) {
            let owned = e.name.clone();
            proof {
                lemma_names_push(siblings@, owned);
            }
            siblings.push(owned);
        }
        i += 1;
    }
    proof {
        assert(all.take(entries@.len() as int) =~= all);
    }
    siblings
}

/// Whether the short form of `name` is also the short form of one of
/// `siblings`.
pub fn shares_short_form(name: &str, siblings: &Vec<String>) -> (r: bool)
    ensures
        r == collides_with(name@, names(siblings@)),
{
    if siblings.len() == 0 {
        return false;
    }
    let own = shorten_dir(name);
    let mut i: usize = 0;
    while i < siblings.len()
        invariant
            i <= siblings@.len(),
            own@ == shorten_spec(name@),
            forall|k: int| 0 <= k < i ==> shorten_spec(#[trigger] names(siblings@)[k]) != own@,
        decreases siblings@.len() - i,
    {
        let other = shorten_dir(siblings[i].as_str());
        if same_text(other.as_str(), own.as_str()) {
            proof {
                assert(names(siblings@)[i as int] == siblings@[i as int]@);
            }
            return true;
        }
        i += 1;
    }
    false
}

/// Whether shortening the directory called `name` would make it look like a
/// sibling, given the listing of its parent.
///
/// True exactly if some directory entry under another name has the same
/// short form. An empty listing, as of a parent that could not be read, gives
/// false.
pub fn has_sibling_collision(name: &str, entries: &Vec<Entry>) -> (r: bool)
    ensures
        r == collides(name@, entry_views(entries@)),
        entries@.len() == 0 ==> !r,
{
    let siblings = get_siblings(name, entries);
    proof {
        lemma_collides_by_entries(name@, entry_views(entries@));
    }
    shares_short_form(name, &siblings)
}

impl Snapshot {
    /// A snapshot without any listing: every directory counts as unreadable.
    pub fn new() -> (s: Snapshot)
        ensures
            s@ == Listed::empty(),
            s.listings@.len() == 0,
    {
        let s = Snapshot { listings: Vec::new() };
        proof {
            assert(s@ =~= Listed::empty());
        }
        s
    }

    /// Adds the listing of `dir` behind those already held. A directory that
    /// was listed before keeps its first listing.
    pub fn add(&mut self, dir: String, entries: Vec<Entry>)
        ensures
            final(self).listings@ == old(self).listings@.push((Listing { dir, entries })),
            final(self)@ == if old(self)@.dom().contains(dir@) {
                old(self)@
            } else {
                old(self)@.insert(dir@, entry_views(entries@))
            },
    {
        let ghost before = self.listings@;
        let ghost added = Listing { dir, entries };
        self.listings.push(Listing { dir, entries });
        proof {
            let after = self.listings@;
            let expected = if old(self)@.dom().contains(dir@) {
                old(self)@
            } else {
                old(self)@.insert(dir@, entry_views(entries@))
            };
            assert forall|d: Seq<char>| #[trigger]
                self@.dom().contains(d) == expected.dom().contains(d) && (self@.dom().contains(d)
                    ==> self@[d] == expected[d]) by {
                lemma_find_after_push(before, added, d, 0);
                if let Some(i) = find_from(before, d, 0) {
                    assert(after[i] == before[i]);
                }
            }
            assert(self@ =~= expected);
        }
    }

    /// The place of the first listing of `dir`, if it was listed.
    pub fn find(&self, dir: &str) -> (r: Option<usize>)
        ensures
            r.is_some() == self@.dom().contains(dir@),
            r matches Some(i) ==> {
                &&& i < self.listings@.len()
                &&& self.listings@[i as int].dir@ == dir@
                &&& forall|j: int| 0 <= j < i ==> (#[trigger] self.listings@[j]).dir@ != dir@
                &&& entry_views(self.listings@[i as int].entries@) == self@[dir@]
            },
    {
        let mut i: usize = 0;
        while i < self.listings.len()
            invariant
                i <= self.listings@.len(),
                find_from(self.listings@, dir@, 0) == find_from(self.listings@, dir@, i as int),
                forall|j: int| 0 <= j < i ==> (#[trigger] self.listings@[j]).dir@ != dir@,
            decreases self.listings@.len() - i,
        {
            if same_text(self.listings[i].dir.as_str(), dir) {
                return Some(i);
            }
            i += 1;
        }
        None
    }

    /// Whether the directory called `name`, whose parent is `parent`, would
    /// collide with a sibling if shortened.
    pub fn collision_at(&self, parent: &str, name: &str) -> (r: bool)
        ensures
            r == collides(name@, entries_at(self@, parent@)),
    {
        match self.find(parent) {
            Some(i) => has_sibling_collision(name, &self.listings[i].entries),
            None => false,
        }
    }
}

} // verus!
