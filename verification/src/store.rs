//! The link store: one link for each resource name.

use crate::link::PrivateLink;
use vstd::prelude::*;

verus! {

/// One resource name with its link.
pub struct Entry {
    pub name: String,
    pub link: PrivateLink,
}

/// The mapping from resource names to links. The entries are kept in the
/// order in which the names came in; no name occurs twice.
pub struct LinkStore {
    pub entries: Vec<Entry>,
}

/// The names of the entries, in order.
pub open spec fn names_of(entries: Seq<Entry>) -> Seq<Seq<char>> {
    entries.map_values(|e: Entry| e.name@)
}

/// The set of the names at the positions that `keep` marks.
pub open spec fn marked(names: Seq<Seq<char>>, keep: Seq<bool>) -> Set<Seq<char>> {
    Set::new(|k: Seq<char>| exists|i: int| 0 <= i < names.len() && names[i] == k && keep[i])
}

/// The entries as pairs of name and link, in order.
pub open spec fn records_of(entries: Seq<Entry>) -> Seq<(Seq<char>, PrivateLink)> {
    entries.map_values(|e: Entry| (e.name@, e.link))
}

/// The map that a sequence of records stands for: each name has the link of
/// its last record.
pub open spec fn map_of(records: Seq<(Seq<char>, PrivateLink)>) -> Map<Seq<char>, PrivateLink>
    decreases records.len(),
{
    if records.len() == 0 {
        Map::empty()
    } else {
        map_of(records.drop_last()).insert(records.last().0, records.last().1)
    }
}

/// The map of records without a repeated name holds exactly their names, each
/// with its link.
pub proof fn map_of_distinct_records(records: Seq<(Seq<char>, PrivateLink)>)
    requires
        forall|i: int, j: int|
            0 <= i < j < records.len() ==> (#[trigger] records[i]).0 != (#[trigger] records[j]).0,
    ensures
        forall|i: int|
            0 <= i < records.len() ==> map_of(records).contains_key((#[trigger] records[i]).0)
                && map_of(records)[records[i].0] == records[i].1,
        forall|k: Seq<char>|
            map_of(records).contains_key(k) ==> exists|i: int|
                0 <= i < records.len() && (#[trigger] records[i]).0 == k,
    decreases records.len(),
{
    if records.len() > 0 {
        let front = records.drop_last();
        map_of_distinct_records(front);
        assert forall|i: int| 0 <= i < records.len() implies map_of(records).contains_key(
            (#[trigger] records[i]).0,
        ) && map_of(records)[records[i].0] == records[i].1 by {
            if i < records.len() - 1 {
                assert(front[i] == records[i]);
                assert(records[i].0 != records[records.len() - 1].0);
            }
        }
        assert forall|k: Seq<char>| map_of(records).contains_key(k) implies exists|i: int|
            0 <= i < records.len() && (#[trigger] records[i]).0 == k by {
            if k == records.last().0 {
                assert(records[records.len() - 1].0 == k);
            } else {
                assert(map_of(front).contains_key(k));
                let i = choose|i: int| 0 <= i < front.len() && (#[trigger] front[i]).0 == k;
                assert(front[i] == records[i]);
                assert(records[i].0 == k);
            }
        }
    }
}

impl LinkStore {
    /// The names of the store, in the order in which they came in.
    pub open spec fn names(&self) -> Seq<Seq<char>> {
        names_of(self.entries@)
    }

    /// No name occurs twice.
    pub open spec fn wf(&self) -> bool {
        self.names().no_duplicates()
    }

    /// The position of a name that the store holds.
    pub open spec fn position(&self, name: Seq<char>) -> int {
        choose|i: int| 0 <= i < self.names().len() && self.names()[i] == name
    }

    /// The store as a map from names to links.
    pub open spec fn view(&self) -> Map<Seq<char>, PrivateLink> {
        Map::new(
            |k: Seq<char>| self.names().contains(k),
            |k: Seq<char>| self.entries@[self.position(k)].link,
        )
    }

    /// In a well-formed store the entry at position `i` is the one that the
    /// map gives for its name.
    pub proof fn entry_is_mapped(&self, i: int)
        requires
            self.wf(),
            0 <= i < self.entries@.len(),
        ensures
            self@.contains_key(self.entries@[i].name@),
            self@[self.entries@[i].name@] == self.entries@[i].link,
            self.position(self.entries@[i].name@) == i,
    {
        let k = self.entries@[i].name@;
        assert(self.names()[i] == k);
        assert(self.names().contains(k));
        let j = self.position(k);
        assert(0 <= j < self.names().len() && self.names()[j] == k);
        assert(i == j);
    }

    /// An empty store.
    pub fn new() -> (r: Self)
        ensures
            r.wf(),
            r@ == Map::<Seq<char>, PrivateLink>::empty(),
            r.names().len() == 0,
    {
        let r = LinkStore { entries: Vec::new() };
        assert(r@ =~= Map::<Seq<char>, PrivateLink>::empty());
        r
    }

    /// The number of entries.
    pub fn len(&self) -> (r: usize)
        ensures
            r == self.names().len(),
    {
        self.entries.len()
    }

    /// The position of `name` among the entries, if the store holds it.
    pub fn find(&self, name: &str) -> (r: Option<usize>)
        requires
            self.wf(),
        ensures
            r is Some <==> self@.contains_key(name@),
            r matches Some(i) ==> i < self.names().len() && self.names()[i as int] == name@
                && self.position(name@) == i,
    {
        let key = String::from_str(name);
        let mut i: usize = 0;
        while i < self.entries.len()
            invariant
                i <= self.entries.len(),
                key@ == name@,
                self.wf(),
                forall|j: int| 0 <= j < i ==> self.names()[j] != name@,
            decreases self.entries.len() - i,
        {
            if self.entries[i].name == key {
                proof {
                    self.entry_is_mapped(i as int);
                }
                return Some(i);
            }
            assert(self.names()[i as int] == self.entries@[i as int].name@);
            i += 1;
        }
        assert(!self.names().contains(name@));
        None
    }

    /// The link of `name`, if the store holds one.
    pub fn get(&self, name: &str) -> (r: Option<PrivateLink>)
        requires
            self.wf(),
        ensures
            r == if self@.contains_key(name@) {
                Some(self@[name@])
            } else {
                None
            },
    {
        match self.find(name) {
            Some(i) => {
                proof {
                    self.entry_is_mapped(i as int);
                }
                Some(self.entries[i].link)
            },
            None => None,
        }
    }

    /// Whether the store holds a link for `name`.
    pub fn contains(&self, name: &str) -> (r: bool)
        requires
            self.wf(),
        ensures
            r == self@.contains_key(name@),
    {
        self.find(name).is_some()
    }

    /// Sets the link of `name`, whether the store held one or not. A new
    /// name goes to the end; the others keep their places.
    pub fn insert(&mut self, name: &str, link: PrivateLink)
        requires
            old(self).wf(),
        ensures
            final(self).wf(),
            final(self)@ == old(self)@.insert(name@, link),
            final(self).names() == if old(self)@.contains_key(name@) {
                old(self).names()
            } else {
                old(self).names().push(name@)
            },
    {
        let ghost before = *self;
        match self.find(name) {
            Some(i) => {
                let entry = Entry { name: String::from_str(name), link };
                self.entries.set(i, entry);
                assert(self.names() =~= before.names());
                assert forall|k: Seq<char>| self@.contains_key(k) implies #[trigger] self@[k]
                    == before@.insert(name@, link)[k] by {
                    let j = self.position(k);
                    assert(self.names()[j] == k);
                    assert(before.position(k) == j);
                }
                assert(self@ =~= before@.insert(name@, link));
            },
            None => {
                self.entries.push(Entry { name: String::from_str(name), link });
                assert(self.names() =~= before.names().push(name@));
                assert forall|k: Seq<char>| self@.contains_key(k) implies #[trigger] self@[k]
                    == before@.insert(name@, link)[k] by {
                    let j = self.position(k);
                    assert(self.names()[j] == k);
                    if k != name@ {
                        assert(j < before.names().len());
                        assert(before.names()[j] == k);
                        assert(before.names().contains(k));
                        let j2 = before.position(k);
                        assert(before.names()[j2] == k);
                        assert(self.names()[j2] == k);
                    }
                }
                assert forall|k: Seq<char>|
                    before@.insert(name@, link).contains_key(k) implies self@.contains_key(
                    k,
                ) by {
                    if k == name@ {
                        assert(self.names()[before.names().len() as int] == k);
                    } else {
                        let j2 = before.position(k);
                        assert(before.names()[j2] == k);
                        assert(self.names()[j2] == k);
                    }
                }
                assert(self@ =~= before@.insert(name@, link));
            },
        }
    }

    /// The name at position `i`.
    pub fn name_at(&self, i: usize) -> (r: &str)
        requires
            i < self.names().len(),
        ensures
            r@ == self.names()[i as int],
    {
        self.entries[i].name.as_str()
    }

    /// The link at position `i`.
    pub fn link_at(&self, i: usize) -> (r: PrivateLink)
        requires
            self.wf(),
            i < self.names().len(),
        ensures
            r == self@[self.names()[i as int]],
    {
        proof {
            self.entry_is_mapped(i as int);
        }
        self.entries[i].link
    }

    /// Drops the entries whose position `keep` does not mark; the others
    /// keep their links and their order.
    pub fn prune(&mut self, keep: &Vec<bool>)
        requires
            old(self).wf(),
            keep.len() == old(self).names().len(),
        ensures
            final(self).wf(),
            final(self)@ == old(self)@.restrict(marked(old(self).names(), keep@)),
    {
        let ghost before = *self;
        let mut kept: Vec<Entry> = Vec::new();
        let mut i: usize = 0;
        let ghost mut origin: Seq<int> = Seq::empty();
        while i < self.entries.len()
            invariant
                i <= self.entries.len(),
                *self == before,
                before.wf(),
                keep.len() == before.names().len(),
                origin.len() == kept.len(),
                forall|j: int|
                    0 <= j < origin.len() ==> 0 <= #[trigger] origin[j] < i && keep[origin[j]]
                        && kept@[j].name@ == before.entries@[origin[j]].name@ && kept@[j].link
                        == before.entries@[origin[j]].link,
                forall|j: int, l: int| 0 <= j < l < origin.len() ==> origin[j] < origin[l],
                forall|m: int|
                    0 <= m < i && keep[m] ==> exists|j: int|
                        0 <= j < origin.len() && origin[j] == m,
            decreases self.entries.len() - i,
        {
            if keep[i] {
                let entry = Entry {
                    name: self.entries[i].name.clone(),
                    link: self.entries[i].link,
                };
                kept.push(entry);
                proof {
                    let ghost prev = origin;
                    origin = origin.push(i as int);
                    assert forall|m: int| 0 <= m < i + 1 && keep[m] implies exists|j: int|
                        0 <= j < origin.len() && origin[j] == m by {
                        if m < i {
                            let j = choose|j: int| 0 <= j < prev.len() && prev[j] == m;
                            assert(origin[j] == m);
                        } else {
                            assert(origin[origin.len() - 1] == m);
                        }
                    }
                }
            }
            i += 1;
        }
        self.entries = kept;
        proof {
            let wanted = before@.restrict(marked(before.names(), keep@));
            assert forall|j: int, l: int|
                0 <= j < l < self.names().len() implies self.names()[j] != self.names()[l] by {
                assert(before.names()[origin[j]] == self.names()[j]);
                assert(before.names()[origin[l]] == self.names()[l]);
            }
            assert forall|k: Seq<char>| #[trigger] self@.contains_key(k) implies wanted.contains_key(
                k,
            ) && self@[k] == wanted[k] by {
                let j = self.position(k);
                assert(self.names()[j] == k);
                let m = origin[j];
                assert(before.names()[m] == k);
                before.entry_is_mapped(m);
                assert(marked(before.names(), keep@).contains(k));
            }
            assert forall|k: Seq<char>| #[trigger] wanted.contains_key(k) implies self@.contains_key(
                k,
            ) by {
                let m = choose|m: int|
                    0 <= m < before.names().len() && before.names()[m] == k && keep@[m];
                let j = choose|j: int| 0 <= j < origin.len() && origin[j] == m;
                assert(self.names()[j] == k);
            }
            assert(self@.dom() =~= wanted.dom());
            assert(self@ =~= wanted);
        }
    }

    /// Round trip, as far as the store goes. The records that a store hands
    /// out stand for the very mapping that the store is: every name with its
    /// token, its expiry, its policy and its exemption.
    pub proof fn records_stand_for_store(&self)
        requires
            self.wf(),
        ensures
            map_of(records_of(self.entries@)) == self@,
    {
        let records = records_of(self.entries@);
        assert forall|i: int, j: int| 0 <= i < j < records.len() implies (#[trigger] records[i]).0
            != (#[trigger] records[j]).0 by {
            assert(self.names()[i] == records[i].0);
            assert(self.names()[j] == records[j].0);
        }
        map_of_distinct_records(records);
        assert forall|k: Seq<char>| #[trigger] self@.contains_key(k) implies map_of(
            records,
        ).contains_key(k) && map_of(records)[k] == self@[k] by {
            let i = self.position(k);
            assert(self.names()[i] == k);
            assert(records[i].0 == k);
        }
        assert forall|k: Seq<char>| #[trigger] map_of(records).contains_key(k) implies self@.contains_key(
            k,
        ) by {
            let i = choose|i: int| 0 <= i < records.len() && (#[trigger] records[i]).0 == k;
            assert(self.names()[i] == k);
        }
        assert(map_of(records).dom() =~= self@.dom());
        assert(map_of(records) =~= self@);
    }

    /// The entries of the store as records, in order, for the caller to
    /// persist.
    pub fn records(&self) -> (r: Vec<Entry>)
        ensures
            records_of(r@) == records_of(self.entries@),
    {
        let mut out: Vec<Entry> = Vec::new();
        let mut i: usize = 0;
        while i < self.entries.len()
            invariant
                i <= self.entries.len(),
                records_of(out@) == records_of(self.entries@).take(i as int),
            decreases self.entries.len() - i,
        {
            let entry = Entry { name: self.entries[i].name.clone(), link: self.entries[i].link };
            let ghost had = records_of(out@);
            out.push(entry);
            assert(records_of(out@) =~= had.push((entry.name@, entry.link)));
            assert(records_of(out@) =~= records_of(self.entries@).take(i + 1));
            i += 1;
        }
        assert(records_of(self.entries@).take(self.entries.len() as int) =~= records_of(
            self.entries@,
        ));
        out
    }

    /// The store that records stand for, as they were read back: where a
    /// name occurs more than once, its last record counts.
    pub fn from_records(records: &Vec<Entry>) -> (r: Self)
        ensures
            r.wf(),
            r@ == map_of(records_of(records@)),
    {
        let mut store = LinkStore::new();
        let ghost all = records_of(records@);
        let mut i: usize = 0;
        assert(all.take(0) =~= Seq::<(Seq<char>, PrivateLink)>::empty());
        while i < records.len()
            invariant
                i <= records.len(),
                all == records_of(records@),
                store.wf(),
                store@ == map_of(all.take(i as int)),
            decreases records.len() - i,
        {
            proof {
                assert(all.take(i + 1).drop_last() =~= all.take(i as int));
                assert(all.take(i + 1).last() == (records@[i as int].name@, records@[i as int].link));
            }
            store.insert(records[i].name.as_str(), records[i].link);
            i += 1;
        }
        assert(all.take(records.len() as int) =~= all);
        store
    }
}

} // verus!
