//! An append-only ledger of 32-byte hashes, grouped by event identifier.
//!
//! Each event identifier (an arbitrary byte string) owns an ordered sequence
//! of hashes. Hashes can only be appended; reading the sequence of an event
//! that was never appended to yields the empty sequence. The laws that tie
//! sequences of appends to what is read back are in `history`.

pub mod hash;
pub mod history;
pub mod ledger;
pub mod store;

pub use hash::{Hash32, HASH_LEN};
pub use ledger::{appended, listed, HashStore};
pub use store::{same_bytes, KvStore};
