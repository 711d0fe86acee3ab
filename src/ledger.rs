use vstd::prelude::*;

use crate::hash::Hash32;
use crate::store::KvStore;

verus! {

/// The hash sequence of `id` in ledger state `m`: the stored one, or the
/// empty sequence when nothing is stored under `id`.
pub open spec fn hashes_of(m: Map<Seq<u8>, Seq<Hash32>>, id: Seq<u8>) -> Seq<Hash32> {
    if m.contains_key(id) {
        m[id]
    } else {
        Seq::empty()
    }
}

/// Ledger state `m` after `h` is appended to the sequence of `id`.
pub open spec fn append_to(m: Map<Seq<u8>, Seq<Hash32>>, id: Seq<u8>, h: Hash32) -> Map<
    Seq<u8>,
    Seq<Hash32>,
> {
    m.insert(id, hashes_of(m, id).push(h))
}

/// A stored value as the sequence it stands for: absence is the empty sequence.
pub open spec fn or_empty(stored: Option<Vec<Hash32>>) -> Seq<Hash32> {
    match stored {
        Some(v) => v@,
        None => Seq::empty(),
    }
}

/// The sequence of hashes to store for an event whose stored value is
/// `stored`, once `hash` is appended to it.
pub fn appended(stored: Option<Vec<Hash32>>, hash: Hash32) -> (r: Vec<Hash32>)
    ensures
        r@ == or_empty(stored).push(hash),
{
    let mut hashes = match stored {
        Some(v) => v,
        None => Vec::new(),
    };
    hashes.push(hash);
    hashes
}

/// The hashes of an event whose stored value is `stored`.
pub fn listed(stored: Option<Vec<Hash32>>) -> (r: Vec<Hash32>)
    ensures
        r@ == or_empty(stored),
{
    match stored {
        Some(v) => v,
        None => Vec::new(),
    }
}

/// A ledger of hashes per event identifier, over a key-value backing store.
pub struct HashStore {
    store: KvStore,
}

impl HashStore {
    /// The backing store is well formed.
    pub closed spec fn wf(&self) -> bool {
        self.store.wf()
    }

    /// The hash sequence stored under each event identifier that has one.
    pub closed spec fn view(&self) -> Map<Seq<u8>, Seq<Hash32>> {
        self.store.view()
    }

    /// A ledger in which no event has a hash.
    pub fn new() -> (r: HashStore)
        ensures
            r.wf(),
            r.view() == Map::<Seq<u8>, Seq<Hash32>>::empty(),
    {
        HashStore { store: KvStore::new() }
    }

    /// Appends `hash` at the end of the hash sequence of `event_id`.
    /// Duplicates are kept; no other event is touched.
    pub fn add_hash(&mut self, event_id: &[u8], hash: Hash32)
        requires
            old(self).wf(),
        ensures
            final(self).wf(),
            final(self).view() == append_to(old(self).view(), event_id@, hash),
    {
        let stored = self.store.get(event_id);
        let hashes = appended(stored, hash);
        self.store.set(event_id, hashes);
    }

    /// The hashes of `event_id` in the order they were appended; empty for
    /// an event that never had one.
    pub fn get_hashes(&self, event_id: &[u8]) -> (r: Vec<Hash32>)
        requires
            self.wf(),
        ensures
            r@ == hashes_of(self.view(), event_id@),
    {
        listed(self.store.get(event_id))
    }
}

} // verus!
