//! A table of distinct commit identifiers, numbered in the order in which they came.

use std::collections::HashMap;
use vstd::prelude::*;

use crate::id::CommitId;

verus! {

/// Distinct commit identifiers in the order of their arrival. Each is found
/// again through a hash map from its filing number to the places that hold
/// identifiers with that number, so a lookup does not walk the whole table.
pub struct IdTable {
    ids: Vec<CommitId>,
    index: HashMap<u64, Vec<usize>>,
}

/// Every place listed under `key` exists and holds an identifier filed under `key`.
spec fn bucket_fits(ids: Seq<CommitId>, key: u64, bucket: Seq<usize>) -> bool {
    forall|j: int|
        0 <= j < bucket.len() ==> (#[trigger] bucket[j]) < ids.len() && ids[bucket[j] as int].key()
            == key
}

/// Place `p` is listed under the filing number of the identifier it holds.
spec fn is_listed(index: Map<u64, Vec<usize>>, ids: Seq<CommitId>, p: int) -> bool {
    index.contains_key(ids[p].key()) && index[ids[p].key()]@.contains(p as usize)
}

impl IdTable {
    /// The identifiers of the table, in the order of their arrival.
    pub closed spec fn view(&self) -> Seq<CommitId> {
        self.ids@
    }

    /// The invariant of the table: no identifier occurs twice, and the index
    /// lists each place exactly under the filing number of its identifier.
    pub closed spec fn wf(&self) -> bool {
        &&& self.ids@.no_duplicates()
        &&& forall|k: u64| #[trigger]
            self.index@.contains_key(k) ==> bucket_fits(self.ids@, k, self.index@[k]@)
        &&& forall|p: int| 0 <= p < self.ids@.len() ==> #[trigger] is_listed(self.index@, self.ids@, p)
    }

    /// The identifiers of the table as a set.
    pub open spec fn members(&self) -> Set<CommitId> {
        self@.to_set()
    }

    /// A well-formed table holds as many identifiers as its set has members.
    pub proof fn lemma_len_is_cardinality(&self)
        requires
            self.wf(),
        ensures
            self.members().finite(),
            self.members().len() == self@.len(),
            self@.no_duplicates(),
            self@.len() <= usize::MAX,
    {
        self.ids@.unique_seq_to_set();
        assert(self.ids.len() == self.ids@.len());
    }

    /// The empty table.
    pub fn new() -> (table: IdTable)
        ensures
            table.wf(),
            table@ == Seq::<CommitId>::empty(),
    {
        IdTable { ids: Vec::new(), index: HashMap::new() }
    }

    /// The number of identifiers in the table.
    pub fn len(&self) -> (n: usize)
        ensures
            n == self@.len(),
    {
        self.ids.len()
    }

    /// The identifier at place `p`.
    pub fn get(&self, p: usize) -> (id: CommitId)
        requires
            p < self@.len(),
        ensures
            id == self@[p as int],
    {
        self.ids[p]
    }

    /// The place of `id` in the table, if it is there.
    pub fn position(&self, id: &CommitId) -> (place: Option<usize>)
        requires
            self.wf(),
        ensures
            match place {
                Some(p) => p < self@.len() && self@[p as int] == *id,
                None => !self@.contains(*id),
            },
    {
        let key = id.filing_key();
        match self.index.get(&key) {
            None => {
                proof {
                    if self.ids@.contains(*id) {
                        let p = choose|p: int| 0 <= p < self.ids@.len() && self.ids@[p] == *id;
                        assert(is_listed(self.index@, self.ids@, p));
                    }
                }
                None
            },
            Some(bucket) => {
                let mut j: usize = 0;
                while j < bucket.len()
                    invariant
                        j <= bucket.len(),
                        bucket_fits(self.ids@, key, bucket@),
                        forall|i: int| 0 <= i < j ==> self.ids@[(#[trigger] bucket@[i]) as int] != *id,
                    decreases bucket.len() - j,
                {
                    let p = bucket[j];
                    if self.ids[p].same(id) {
                        return Some(p);
                    }
                    j = j + 1;
                }
                proof {
                    if self.ids@.contains(*id) {
                        let p = choose|p: int| 0 <= p < self.ids@.len() && self.ids@[p] == *id;
                        assert(is_listed(self.index@, self.ids@, p));
                        assert(self.ids.len() == self.ids@.len());
                        let i = choose|i: int| 0 <= i < bucket@.len() && bucket@[i] == p as usize;
                        assert(self.ids@[bucket@[i] as int] != *id);
                    }
                }
                None
            },
        }
    }

    /// Whether `id` is in the table.
    pub fn contains(&self, id: &CommitId) -> (found: bool)
        requires
            self.wf(),
        ensures
            found == self.members().contains(*id),
    {
        self.position(id).is_some()
    }

    /// Adds an identifier. One that the table does not hold yet goes to the
    /// end; one that it holds stays where it is, and the table as it was.
    /// The result is the place of the identifier.
    pub fn insert(&mut self, id: CommitId) -> (place: usize)
        requires
            old(self).wf(),
        ensures
            final(self).wf(),
            final(self)@ == if old(self)@.contains(id) {
                old(self)@
            } else {
                old(self)@.push(id)
            },
            final(self).members() == old(self).members().insert(id),
            place < final(self)@.len(),
            final(self)@[place as int] == id,
            !old(self)@.contains(id) ==> place == old(self)@.len(),
    {
        match self.position(&id) {
            Some(place) => {
                proof {
                    assert(self@.contains(id));
                    assert(self.members().insert(id) =~= self.members());
                }
                place
            },
            None => self.append(id),
        }
    }

    /// Adds an identifier that the table does not hold yet, at the end.
    pub(crate) fn append(&mut self, id: CommitId) -> (place: usize)
        requires
            old(self).wf(),
            !old(self)@.contains(id),
        ensures
            final(self).wf(),
            final(self)@ == old(self)@.push(id),
            final(self).members() == old(self).members().insert(id),
            place == old(self)@.len(),
    {
        let key = id.filing_key();
        let place = self.ids.len();
        let ghost old_ids = self.ids@;
        let ghost old_index = self.index@;
        self.ids.push(id);
        let mut bucket = match self.index.remove(&key) {
            Some(bucket) => bucket,
            None => Vec::new(),
        };
        let ghost old_bucket = bucket@;
        bucket.push(place);
        self.index.insert(key, bucket);
        proof {
            let ids = self.ids@;
            assert(old_index.contains_key(key) ==> old_bucket == old_index[key]@);
            assert(!old_index.contains_key(key) ==> old_bucket.len() == 0);
            assert forall|k: u64| #[trigger] self.index@.contains_key(k) implies bucket_fits(
                ids,
                k,
                self.index@[k]@,
            ) by {
                if k == key {
                    assert(old_index.contains_key(key) ==> bucket_fits(old_ids, key, old_bucket));
                    assert forall|j: int| 0 <= j < self.index@[k]@.len() implies (
                    #[trigger] self.index@[k]@[j]) < ids.len() && ids[self.index@[k]@[j] as int].key()
                        == k by {
                        if j < old_bucket.len() {
                            assert(self.index@[k]@[j] == old_bucket[j]);
                        }
                    }
                } else {
                    assert(old_index.contains_key(k));
                    assert(bucket_fits(old_ids, k, old_index[k]@));
                }
            }
            assert forall|p: int| 0 <= p < ids.len() implies #[trigger] is_listed(
                self.index@,
                ids,
                p,
            ) by {
                if p < old_ids.len() {
                    assert(is_listed(old_index, old_ids, p));
                    if ids[p].key() == key {
                        let i = choose|i: int|
                            0 <= i < old_bucket.len() && old_bucket[i] == p as usize;
                        assert(self.index@[key]@[i] == p as usize);
                    }
                } else {
                    assert(self.index@[key]@[old_bucket.len() as int] == p as usize);
                }
            }
            assert(ids.no_duplicates());
            assert forall|other: CommitId| ids.contains(other) implies old_ids.contains(other)
                || other == id by {
                let i = choose|i: int| 0 <= i < ids.len() && ids[i] == other;
                if i < old_ids.len() {
                    assert(old_ids[i] == other);
                }
            }
            assert forall|other: CommitId| old_ids.contains(other) implies ids.contains(other) by {
                let i = choose|i: int| 0 <= i < old_ids.len() && old_ids[i] == other;
                assert(ids[i] == other);
            }
            assert(ids[old_ids.len() as int] == id);
            assert(ids.to_set() =~= old_ids.to_set().insert(id));
        }
        place
    }
}

} // verus!
