use vstd::prelude::*;

verus! {

/// Number of bytes in a hash.
pub const HASH_LEN: usize = 32;

/// A fixed-size 32-byte hash value, opaque to the ledger.
#[derive(Clone, Copy, Debug, PartialEq, Eq)]
pub struct Hash32 {
    bytes: [u8; 32],
}

impl View for Hash32 {
    type V = Seq<u8>;

    closed spec fn view(&self) -> Seq<u8> {
        self.bytes@
    }
}

impl Hash32 {
    /// Wraps 32 bytes as a hash.
    pub fn from_array(bytes: [u8; 32]) -> (r: Hash32)
        ensures
            r@ == bytes@,
    {
        Hash32 { bytes }
    }

    /// Builds a hash from a byte slice; `None` unless the slice holds
    /// exactly 32 bytes.
    pub fn from_slice(bytes: &[u8]) -> (r: Option<Hash32>)
        ensures
            r.is_some() <==> bytes@.len() == HASH_LEN,
            r.is_some() ==> r.unwrap()@ == bytes@,
    {
        if bytes.len() != HASH_LEN {
            return None;
        }
        let mut out: [u8; 32] = [0u8; 32];
        let mut i: usize = 0;
        while i < HASH_LEN
            invariant
                bytes@.len() == HASH_LEN,
                out@.len() == HASH_LEN,
                0 <= i <= HASH_LEN,
                forall|j: int| 0 <= j < i ==> out@[j] == bytes@[j],
            decreases HASH_LEN - i,
        {
            out[i] = bytes[i];
            i = i + 1;
        }
        assert(out@ =~= bytes@);
        Some(Hash32 { bytes: out })
    }

    /// The 32 bytes of the hash.
    pub fn to_array(&self) -> (r: [u8; 32])
        ensures
            r@ == self@,
    {
        self.bytes
    }
}

} // verus!
