//! The channel's laws, proved over the spec-level transitions that the
//! operations of [`crate::ring::RingBuffer`] are specified with.

use crate::ring::RingBuffer;
use crate::ring::read_count;
use crate::ring::read_rest;
use crate::ring::read_taken;
use crate::ring::store_step;
use crate::ring::write_count;
use crate::ring::write_step;
use vstd::prelude::*;

verus! {

/// Total number of bytes in a sequence of writes.
pub open spec fn total_len(writes: Seq<Seq<u8>>) -> int
    decreases writes.len(),
{
    if writes.len() == 0 {
        0
    } else {
        writes.first().len() + total_len(writes.drop_first())
    }
}

/// The ring contents after performing each of `writes` in order on a ring
/// of capacity `cap` that starts out holding `q`.
pub open spec fn write_all(q: Seq<u8>, cap: int, writes: Seq<Seq<u8>>) -> Seq<u8>
    decreases writes.len(),
{
    if writes.len() == 0 {
        q
    } else {
        write_all(write_step(q, cap, writes.first()), cap, writes.drop_first())
    }
}

proof fn lemma_total_len_nonneg(writes: Seq<Seq<u8>>)
    ensures
        0 <= total_len(writes),
    decreases writes.len(),
{
    if writes.len() > 0 {
        lemma_total_len_nonneg(writes.drop_first());
    }
}

proof fn lemma_flatten_len(writes: Seq<Seq<u8>>)
    ensures
        writes.flatten().len() == total_len(writes),
    decreases writes.len(),
{
    if writes.len() > 0 {
        lemma_flatten_len(writes.drop_first());
    }
}

/// A sequence of writes whose cumulative size fits in the free space is
/// accepted whole: each write appends its full source, so the ring ends up
/// holding the old contents followed by the concatenation of the writes.
pub proof fn lemma_write_all_appends(q: Seq<u8>, cap: int, writes: Seq<Seq<u8>>)
    requires
        2 <= cap,
        q.len() + total_len(writes) <= cap - 1,
    ensures
        write_all(q, cap, writes) == q + writes.flatten(),
    decreases writes.len(),
{
    if writes.len() == 0 {
        assert(q + writes.flatten() =~= q);
    } else {
        let w0 = writes.first();
        let rest = writes.drop_first();
        lemma_total_len_nonneg(rest);
        assert(write_count(q, cap, w0) == w0.len());
        assert(w0.take(w0.len() as int) =~= w0);
        assert(write_step(q, cap, w0) == q + w0);
        lemma_write_all_appends(q + w0, cap, rest);
        assert((q + w0) + rest.flatten() =~= q + (w0 + rest.flatten()));
        assert(writes.flatten() == w0 + rest.flatten());
    }
}

/// Round trip: for any sequence of writes whose cumulative size is at most
/// `cap - 1`, starting from an empty ring, reading back the full occupied
/// region yields exactly the concatenation of the bytes written, in order.
pub proof fn lemma_round_trip(cap: int, writes: Seq<Seq<u8>>, want: int)
    requires
        2 <= cap,
        total_len(writes) <= cap - 1,
        total_len(writes) <= want,
    ensures
        read_taken(write_all(Seq::empty(), cap, writes), want) == writes.flatten(),
        read_rest(write_all(Seq::empty(), cap, writes), want) == Seq::<u8>::empty(),
{
    lemma_total_len_nonneg(writes);
    lemma_write_all_appends(Seq::empty(), cap, writes);
    lemma_flatten_len(writes);
    let q = write_all(Seq::empty(), cap, writes);
    assert(q =~= writes.flatten());
    assert(read_taken(q, want) =~= q);
    assert(read_rest(q, want) =~= Seq::<u8>::empty());
}

/// Capacity bound: a write never brings the contents past `cap - 1` bytes,
/// and on a full ring it accepts nothing and corrupts nothing.
pub proof fn lemma_capacity_bound(q: Seq<u8>, cap: int, src: Seq<u8>)
    requires
        2 <= cap,
        q.len() <= cap - 1,
    ensures
        write_step(q, cap, src).len() <= cap - 1,
        q.len() == cap - 1 ==> write_count(q, cap, src) == 0 && write_step(q, cap, src) == q,
{
    if q.len() == cap - 1 {
        assert(q + src.take(0) =~= q);
    }
}

/// The raw-state half of the capacity bound: a write that accepts no bytes
/// — in particular any write into a full ring — leaves every slot of the
/// backing storage exactly as it was.
pub proof fn lemma_store_step_zero(store: Seq<u8>, w: int, src: Seq<u8>)
    requires
        0 <= w < store.len(),
    ensures
        store_step(store, w, src, 0) == store,
{
    assert(store_step(store, w, src, 0) =~= store);
}

/// Ordering: a write never changes a byte that is still waiting to be read,
/// and the byte a read hands out at offset `k` is exactly the byte the ring
/// held at logical offset `k`.
pub proof fn lemma_fifo_order(q: Seq<u8>, cap: int, src: Seq<u8>, want: int)
    requires
        2 <= cap,
        0 <= want,
    ensures
        forall|k: int| 0 <= k < q.len() ==> write_step(q, cap, src)[k] == q[k],
        forall|k: int| 0 <= k < read_count(q, want) ==> read_taken(q, want)[k] == q[k],
{
}

/// Close finality: a drained, closed channel is terminal. Its read
/// transition hands out nothing and leaves the contents untouched, and no
/// operation resets the closed flag, so the end-of-stream condition — under
/// which [`RingBuffer::reader_read`] reports [`crate::ring::RingError::EndOfStream`]
/// and changes nothing — holds for every subsequent read as well.
pub proof fn lemma_close_finality(r: RingBuffer, want: int)
    requires
        r.well_formed(),
        r.end_of_stream(),
        0 <= want,
    ensures
        read_count(r.contents(), want) == 0,
        read_rest(r.contents(), want) == r.contents(),
        read_taken(r.contents(), want) == Seq::<u8>::empty(),
{
    assert(read_rest(r.contents(), want) =~= r.contents());
    assert(read_taken(r.contents(), want) =~= Seq::<u8>::empty());
}

} // verus!
