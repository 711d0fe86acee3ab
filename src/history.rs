use vstd::prelude::*;

use crate::hash::Hash32;
use crate::ledger::{append_to, hashes_of};

verus! {

/// Ledger state reached from `m` by appending, in order, each hash of `ops`
/// to the event identifier paired with it.
pub open spec fn replay_from(m: Map<Seq<u8>, Seq<Hash32>>, ops: Seq<(Seq<u8>, Hash32)>) -> Map<
    Seq<u8>,
    Seq<Hash32>,
>
    decreases ops.len(),
{
    if ops.len() == 0 {
        m
    } else {
        append_to(replay_from(m, ops.drop_last()), ops.last().0, ops.last().1)
    }
}

/// The hashes of `ops` addressed to `id`, in the order of `ops`.
pub open spec fn recorded(ops: Seq<(Seq<u8>, Hash32)>, id: Seq<u8>) -> Seq<Hash32>
    decreases ops.len(),
{
    if ops.len() == 0 {
        Seq::empty()
    } else if ops.last().0 == id {
        recorded(ops.drop_last(), id).push(ops.last().1)
    } else {
        recorded(ops.drop_last(), id)
    }
}

/// Appending to an event puts the hash at the end of that event's sequence.
pub proof fn lemma_append_extends(m: Map<Seq<u8>, Seq<Hash32>>, id: Seq<u8>, h: Hash32)
    ensures
        hashes_of(append_to(m, id, h), id) == hashes_of(m, id).push(h),
{
}

/// Appending to one event leaves the sequence of every other event as it was.
pub proof fn lemma_append_isolated(m: Map<Seq<u8>, Seq<Hash32>>, a: Seq<u8>, b: Seq<u8>, h: Hash32)
    requires
        a != b,
    ensures
        hashes_of(append_to(m, a, h), b) == hashes_of(m, b),
{
}

/// After any history of appends from the empty ledger, the sequence of an
/// event is exactly the hashes appended to it, in call order.
pub proof fn lemma_replay_records(ops: Seq<(Seq<u8>, Hash32)>, id: Seq<u8>)
    ensures
        hashes_of(replay_from(Map::empty(), ops), id) == recorded(ops, id),
    decreases ops.len(),
{
    if ops.len() > 0 {
        lemma_replay_records(ops.drop_last(), id);
    }
}

/// Appends addressed only to other events never change the sequence of `id`.
pub proof fn lemma_others_leave_unchanged(
    m: Map<Seq<u8>, Seq<Hash32>>,
    ops: Seq<(Seq<u8>, Hash32)>,
    id: Seq<u8>,
)
    requires
        forall|i: int| 0 <= i < ops.len() ==> (#[trigger] ops[i]).0 != id,
    ensures
        hashes_of(replay_from(m, ops), id) == hashes_of(m, id),
    decreases ops.len(),
{
    if ops.len() > 0 {
        let rest = ops.drop_last();
        assert forall|i: int| 0 <= i < rest.len() implies (#[trigger] rest[i]).0 != id by {
            assert(rest[i] == ops[i]);
        }
        lemma_others_leave_unchanged(m, rest, id);
        assert(ops.last() == ops[ops.len() - 1]);
    }
}

/// An event that no append addressed has the empty sequence.
pub proof fn lemma_untouched_is_empty(ops: Seq<(Seq<u8>, Hash32)>, id: Seq<u8>)
    requires
        forall|i: int| 0 <= i < ops.len() ==> (#[trigger] ops[i]).0 != id,
    ensures
        hashes_of(replay_from(Map::empty(), ops), id) == Seq::<Hash32>::empty(),
{
    lemma_others_leave_unchanged(Map::empty(), ops, id);
}

/// When every append of a history goes to `id`, starting from the empty
/// ledger, the sequence of `id` is the appended hashes in call order, one
/// entry per call.
pub proof fn lemma_single_event_in_order(ops: Seq<(Seq<u8>, Hash32)>, id: Seq<u8>)
    requires
        forall|i: int| 0 <= i < ops.len() ==> (#[trigger] ops[i]).0 == id,
    ensures
        hashes_of(replay_from(Map::empty(), ops), id) == ops.map_values(
            |op: (Seq<u8>, Hash32)| op.1,
        ),
        hashes_of(replay_from(Map::empty(), ops), id).len() == ops.len(),
    decreases ops.len(),
{
    if ops.len() > 0 {
        let rest = ops.drop_last();
        assert forall|i: int| 0 <= i < rest.len() implies (#[trigger] rest[i]).0 == id by {
            assert(rest[i] == ops[i]);
        }
        lemma_single_event_in_order(rest, id);
        assert(ops.last() == ops[ops.len() - 1]);
        assert(ops.map_values(|op: (Seq<u8>, Hash32)| op.1) =~= rest.map_values(
            |op: (Seq<u8>, Hash32)| op.1,
        ).push(ops.last().1));
    }
}

/// Appending the same hash twice keeps both copies.
pub proof fn lemma_duplicates_kept(m: Map<Seq<u8>, Seq<Hash32>>, id: Seq<u8>, h: Hash32)
    ensures
        hashes_of(append_to(append_to(m, id, h), id, h), id) == hashes_of(m, id).push(h).push(h),
        !m.contains_key(id) ==> hashes_of(append_to(append_to(m, id, h), id, h), id) == seq![h, h],
{
    if !m.contains_key(id) {
        assert(hashes_of(m, id).push(h).push(h) =~= seq![h, h]);
    }
}

/// The empty identifier is a key like any other: appends to it and to a
/// non-empty identifier do not affect each other.
pub proof fn lemma_empty_id_distinct(m: Map<Seq<u8>, Seq<Hash32>>, id: Seq<u8>, h: Hash32)
    requires
        id.len() > 0,
    ensures
        hashes_of(append_to(m, Seq::empty(), h), Seq::empty()) == hashes_of(m, Seq::empty()).push(
            h,
        ),
        hashes_of(append_to(m, Seq::empty(), h), id) == hashes_of(m, id),
        hashes_of(append_to(m, id, h), Seq::empty()) == hashes_of(m, Seq::empty()),
{
    assert(id != Seq::<u8>::empty());
}

} // verus!
