use vstd::prelude::*;
use vstd::slice::slice_to_vec;

use crate::hash::Hash32;

verus! {

/// Compares two byte strings for exact, byte-by-byte equality.
pub fn same_bytes(a: &[u8], b: &[u8]) -> (r: bool)
    ensures
        r == (a@ == b@),
{
    if a.len() != b.len() {
        return false;
    }
    let mut i: usize = 0;
    while i < a.len()
        invariant
            a@.len() == b@.len(),
            0 <= i <= a@.len(),
            forall|j: int| 0 <= j < i ==> a@[j] == b@[j],
        decreases a@.len() - i,
    {
        if a[i] != b[i] {
            return false;
        }
        i = i + 1;
    }
    assert(a@ =~= b@);
    true
}

/// An in-memory key-value store mapping byte-string keys to hash sequences.
///
/// Entries are kept in insertion order of their keys; no key occurs twice.
pub struct KvStore {
    entries: Vec<(Vec<u8>, Vec<Hash32>)>,
}

impl KvStore {
    /// Keys are pairwise distinct.
    pub closed spec fn wf(&self) -> bool {
        forall|i: int, j: int|
            0 <= i < self.entries@.len() && 0 <= j < self.entries@.len() && i != j
                ==> #[trigger] self.entries@[i].0@ != #[trigger] self.entries@[j].0@
    }

    spec fn holds_key(&self, k: Seq<u8>) -> bool {
        exists|i: int| 0 <= i < self.entries@.len() && #[trigger] self.entries@[i].0@ == k
    }

    spec fn slot_of(&self, k: Seq<u8>) -> int {
        choose|i: int| 0 <= i < self.entries@.len() && #[trigger] self.entries@[i].0@ == k
    }

    /// The stored value of every key that has one.
    pub closed spec fn view(&self) -> Map<Seq<u8>, Seq<Hash32>> {
        Map::new(|k: Seq<u8>| self.holds_key(k), |k: Seq<u8>| self.entries@[self.slot_of(k)].1@)
    }

    proof fn lemma_slot(&self, i: int)
        requires
            self.wf(),
            0 <= i < self.entries@.len(),
        ensures
            self.holds_key(self.entries@[i].0@),
            self.slot_of(self.entries@[i].0@) == i,
            self.view().contains_key(self.entries@[i].0@),
            self.view()[self.entries@[i].0@] == self.entries@[i].1@,
    {
        let k = self.entries@[i].0@;
        assert(self.holds_key(k));
        let s = self.slot_of(k);
        assert(self.entries@[s].0@ == k);
    }

    /// An empty store.
    pub fn new() -> (r: KvStore)
        ensures
            r.wf(),
            r.view() == Map::<Seq<u8>, Seq<Hash32>>::empty(),
    {
        let r = KvStore { entries: Vec::new() };
        assert(r.view() =~= Map::<Seq<u8>, Seq<Hash32>>::empty());
        r
    }

    /// Position of `key` among the entries, if it is stored.
    fn find(&self, key: &[u8]) -> (r: Option<usize>)
        requires
            self.wf(),
        ensures
            r.is_some() <==> self.view().contains_key(key@),
            r.is_some() ==> r.unwrap() < self.entries@.len() && self.entries@[r.unwrap() as int].0@
                == key@,
    {
        let mut i: usize = 0;
        while i < self.entries.len()
            invariant
                self.wf(),
                0 <= i <= self.entries@.len(),
                forall|j: int| 0 <= j < i ==> self.entries@[j].0@ != key@,
            decreases self.entries@.len() - i,
        {
            if same_bytes(self.entries[i].0.as_slice(), key) {
                proof {
                    self.lemma_slot(i as int);
                }
                return Some(i);
            }
            i = i + 1;
        }
        None
    }

    /// The value stored under `key`, or `None` when nothing was stored.
    pub fn get(&self, key: &[u8]) -> (r: Option<Vec<Hash32>>)
        requires
            self.wf(),
        ensures
            r.is_some() <==> self.view().contains_key(key@),
            r.is_some() ==> r.unwrap()@ == self.view()[key@],
    {
        match self.find(key) {
            Some(i) => {
                proof {
                    self.lemma_slot(i as int);
                }
                Some(slice_to_vec(self.entries[i].1.as_slice()))
            },
            None => None,
        }
    }

    /// Stores `value` as the complete value of `key`, replacing any prior one.
    pub fn set(&mut self, key: &[u8], value: Vec<Hash32>)
        requires
            old(self).wf(),
        ensures
            final(self).wf(),
            final(self).view() == old(self).view().insert(key@, value@),
    {
        let ghost before = *self;
        match self.find(key) {
            Some(i) => {
                self.entries.set(i, (slice_to_vec(key), value));
                proof {
                    assert forall|k: Seq<u8>| self.view().contains_key(k) <==> before.view().insert(
                        key@,
                        value@,
                    ).contains_key(k) by {
                        if before.holds_key(k) {
                            let s = before.slot_of(k);
                            assert(self.entries@[s].0@ == k);
                        }
                        if self.holds_key(k) {
                            let s = self.slot_of(k);
                            assert(before.entries@[s].0@ == k || s == i);
                        }
                    }
                    assert forall|k: Seq<u8>| #[trigger]
                        self.view().contains_key(k) implies self.view()[k] == before.view().insert(
                        key@,
                        value@,
                    )[k] by {
                        let s = self.slot_of(k);
                        if k != key@ {
                            before.lemma_slot(s);
                        }
                    }
                    assert(self.view() =~= before.view().insert(key@, value@));
                }
            },
            None => {
                self.entries.push((slice_to_vec(key), value));
                proof {
                    let n = before.entries@.len() as int;
                    self.lemma_slot(n);
                    assert forall|k: Seq<u8>| self.view().contains_key(k) <==> before.view().insert(
                        key@,
                        value@,
                    ).contains_key(k) by {
                        if before.holds_key(k) {
                            let s = before.slot_of(k);
                            assert(self.entries@[s].0@ == k);
                        }
                    }
                    assert forall|k: Seq<u8>| #[trigger]
                        self.view().contains_key(k) implies self.view()[k] == before.view().insert(
                        key@,
                        value@,
                    )[k] by {
                        let s = self.slot_of(k);
                        if k != key@ {
                            before.lemma_slot(s);
                        }
                    }
                    assert(self.view() =~= before.view().insert(key@, value@));
                }
            },
        }
    }
}

} // verus!
