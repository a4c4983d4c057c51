//! The shared ring state: fixed backing storage, two cursors, a closed flag.
//!
//! The mathematical model of the ring is the sequence of resident bytes,
//! [`RingBuffer::contents`], read off the storage starting at the read
//! cursor and wrapping once at the capacity. Every operation is specified
//! as a transition on that sequence: [`write_step`] appends the accepted
//! prefix of the source, [`read_rest`] drops the bytes handed out. Beside
//! the resident bytes, the contracts pin the raw state too: [`store_step`]
//! gives the backing storage after a write slot by slot — nothing outside
//! the written region changes — and every operation states where it leaves
//! each cursor.

use vstd::pervasive::VecAdditionalExecFns;
use vstd::prelude::*;

verus! {

/// Errors surfaced by the channel.
#[derive(Clone, Copy, PartialEq, Eq, Structural, Debug)]
pub enum RingError {
    /// A write was attempted after the writer side closed the channel.
    Closed,
    /// A read found the buffer empty with the writer closed: no more data, ever.
    EndOfStream,
}

/// Index of the storage slot holding the byte `offset` places after `start`,
/// wrapping once at `cap`. Meaningful for `0 <= start < cap` and
/// `0 <= offset < cap`, where `start + offset < 2 * cap` holds.
pub open spec fn slot(start: int, offset: int, cap: int) -> int {
    if start + offset < cap {
        start + offset
    } else {
        start + offset - cap
    }
}

/// The offset at which cursor `start` reaches storage slot `p`, wrapping
/// once at `cap`: the inverse of [`slot`]. Meaningful for `0 <= start < cap`
/// and `0 <= p < cap`.
pub open spec fn offset_of(start: int, p: int, cap: int) -> int {
    if p >= start {
        p - start
    } else {
        cap - start + p
    }
}

/// The backing storage after a write that copies the first `n` bytes of
/// `src` in at cursor `w`, wrapping once at the capacity: the `n` slots
/// starting at `w` take the source bytes, every other slot keeps its old
/// value.
pub open spec fn store_step(store: Seq<u8>, w: int, src: Seq<u8>, n: int) -> Seq<u8> {
    Seq::new(
        store.len(),
        |p: int|
            if offset_of(w, p, store.len() as int) < n {
                src[offset_of(w, p, store.len() as int)]
            } else {
                store[p]
            },
    )
}

/// How many bytes of `src` a write accepts: all of them if they fit in the
/// free space of a ring of capacity `cap` holding `q`, else just the prefix
/// that fills the ring to its `cap - 1` bound.
pub open spec fn write_count(q: Seq<u8>, cap: int, src: Seq<u8>) -> int {
    if src.len() <= cap - 1 - q.len() {
        src.len() as int
    } else {
        cap - 1 - q.len()
    }
}

/// The ring contents after writing `src` into a ring of capacity `cap`
/// holding `q`: the accepted prefix of `src` is appended, the rest dropped.
pub open spec fn write_step(q: Seq<u8>, cap: int, src: Seq<u8>) -> Seq<u8> {
    q + src.take(write_count(q, cap, src))
}

/// How many bytes a read into a destination of length `want` hands out of a
/// ring holding `q`: `want` bytes if that many are resident, else all of `q`.
pub open spec fn read_count(q: Seq<u8>, want: int) -> int {
    if want <= q.len() {
        want
    } else {
        q.len() as int
    }
}

/// The bytes a read hands out: the longest prefix of `q` that fits.
pub open spec fn read_taken(q: Seq<u8>, want: int) -> Seq<u8> {
    q.take(read_count(q, want))
}

/// The ring contents left behind by a read.
pub open spec fn read_rest(q: Seq<u8>, want: int) -> Seq<u8> {
    q.skip(read_count(q, want))
}

/// The shared circular-buffer state: fixed-length storage, a write cursor,
/// a read cursor, and the one-way closed flag.
pub struct RingBuffer {
    storage: Vec<u8>,
    write_cursor: usize,
    read_cursor: usize,
    closed: bool,
}

impl RingBuffer {
    /// The fixed capacity: the length of the backing storage.
    pub closed spec fn capacity_spec(&self) -> int {
        self.storage@.len() as int
    }

    /// The backing storage as a sequence of bytes.
    pub closed spec fn storage_view(&self) -> Seq<u8> {
        self.storage@
    }

    /// The slot the next write starts at.
    pub closed spec fn write_cursor_spec(&self) -> int {
        self.write_cursor as int
    }

    /// The slot the next read starts at.
    pub closed spec fn read_cursor_spec(&self) -> int {
        self.read_cursor as int
    }

    /// Whether the writer side has closed the channel.
    pub closed spec fn closed_spec(&self) -> bool {
        self.closed
    }

    /// Well-formedness: the capacity reserves one slot, so a ring needs at
    /// least two, and both cursors point into the storage.
    pub closed spec fn well_formed(&self) -> bool {
        &&& 2 <= self.storage@.len()
        &&& self.write_cursor < self.storage@.len()
        &&& self.read_cursor < self.storage@.len()
    }

    /// Number of resident bytes, from the cursors with wraparound. Equal
    /// cursors always mean empty, never full.
    pub closed spec fn occupied_spec(&self) -> int {
        if self.write_cursor >= self.read_cursor {
            self.write_cursor - self.read_cursor
        } else {
            self.capacity_spec() - self.read_cursor + self.write_cursor
        }
    }

    /// The resident bytes in the order they were written: the storage read
    /// from the read cursor, wrapping once at the capacity.
    pub closed spec fn contents(&self) -> Seq<u8> {
        Seq::new(
            self.occupied_spec() as nat,
            |k: int| self.storage@[slot(self.read_cursor as int, k, self.capacity_spec())],
        )
    }

    /// Whether the ring holds no bytes.
    pub open spec fn is_empty_spec(&self) -> bool {
        self.contents().len() == 0
    }

    /// The canonical "no more data, ever" condition: drained and closed.
    pub open spec fn end_of_stream(&self) -> bool {
        self.closed_spec() && self.is_empty_spec()
    }

    /// Bytes a write may still accept before the `capacity - 1` bound.
    pub open spec fn free_space_spec(&self) -> int {
        self.capacity_spec() - 1 - self.contents().len()
    }

    /// A fresh ring: zero-initialized storage, both cursors at slot zero,
    /// not closed.
    pub fn with_capacity(capacity: usize) -> (r: RingBuffer)
        requires
            2 <= capacity,
        ensures
            r.well_formed(),
            r.capacity_spec() == capacity,
            r.contents() == Seq::<u8>::empty(),
            r.storage_view() == Seq::new(capacity as nat, |k: int| 0u8),
            r.write_cursor_spec() == 0,
            r.read_cursor_spec() == 0,
            !r.closed_spec(),
    {
        let mut storage: Vec<u8> = Vec::new();
        while storage.len() < capacity
            invariant
                storage@.len() <= capacity,
                forall|k: int| 0 <= k < storage@.len() ==> storage@[k] == 0u8,
            decreases capacity - storage@.len(),
        {
            storage.push(0u8);
        }
        let r = RingBuffer { storage, write_cursor: 0, read_cursor: 0, closed: false };
        proof {
            assert(r.contents() =~= Seq::<u8>::empty());
            assert(r.storage_view() =~= Seq::new(capacity as nat, |k: int| 0u8));
        }
        r
    }

    /// Number of resident bytes.
    pub fn occupied(&self) -> (n: usize)
        requires
            self.well_formed(),
        ensures
            n == self.contents().len(),
            n <= self.capacity_spec() - 1,
    {
        if self.write_cursor >= self.read_cursor {
            self.write_cursor - self.read_cursor
        } else {
            self.storage.len() - self.read_cursor + self.write_cursor
        }
    }

    /// Bytes a write may still accept.
    pub fn free_space(&self) -> (n: usize)
        requires
            self.well_formed(),
        ensures
            n == self.free_space_spec(),
    {
        self.storage.len() - 1 - self.occupied()
    }

    /// Whether the cursors are equal, which always means empty.
    pub fn is_empty(&self) -> (b: bool)
        requires
            self.well_formed(),
        ensures
            b == self.is_empty_spec(),
    {
        self.write_cursor == self.read_cursor
    }

    /// Whether the writer side has closed the channel.
    pub fn is_closed(&self) -> (b: bool)
        ensures
            b == self.closed_spec(),
    {
        self.closed
    }

    /// The slot the next read starts at.
    pub fn read_position(&self) -> (i: usize)
        ensures
            i == self.read_cursor_spec(),
            self.well_formed() ==> i < self.capacity_spec(),
    {
        self.read_cursor
    }

    /// Sets the closed flag. Idempotent: closing an already-closed ring
    /// leaves the whole state exactly as it was, so closing twice is
    /// observably the same as closing once.
    pub fn mark_closed(&mut self)
        ensures
            final(self).closed_spec(),
            final(self).storage_view() == old(self).storage_view(),
            final(self).write_cursor_spec() == old(self).write_cursor_spec(),
            final(self).read_cursor_spec() == old(self).read_cursor_spec(),
            final(self).contents() == old(self).contents(),
            final(self).capacity_spec() == old(self).capacity_spec(),
            old(self).well_formed() ==> final(self).well_formed(),
            old(self).closed_spec() ==> *final(self) == *old(self),
    {
        self.closed = true;
    }

    /// Copies up to `min(src.len(), free_space())` bytes of `src` into the
    /// storage at the write cursor, wrapping once at the capacity, and
    /// advances the write cursor by the count copied. Never accepts a byte
    /// beyond the `capacity - 1` bound: on a full ring it copies nothing and
    /// returns zero. The resident bytes afterwards are exactly the old ones
    /// followed by the accepted prefix of `src`, and no storage slot outside
    /// the `n` written ones changes.
    pub fn write_bytes(&mut self, src: &[u8]) -> (n: usize)
        requires
            old(self).well_formed(),
        ensures
            final(self).well_formed(),
            final(self).capacity_spec() == old(self).capacity_spec(),
            final(self).closed_spec() == old(self).closed_spec(),
            final(self).read_cursor_spec() == old(self).read_cursor_spec(),
            final(self).write_cursor_spec() == slot(
                old(self).write_cursor_spec(),
                n as int,
                old(self).capacity_spec(),
            ),
            n == write_count(old(self).contents(), old(self).capacity_spec(), src@),
            final(self).contents() == write_step(
                old(self).contents(),
                old(self).capacity_spec(),
                src@,
            ),
            final(self).storage_view() == store_step(
                old(self).storage_view(),
                old(self).write_cursor_spec(),
                src@,
                n as int,
            ),
    {
        let cap = self.storage.len();
        let occ = self.occupied();
        let free = cap - 1 - occ;
        let n = if src.len() < free {
            src.len()
        } else {
            free
        };
        let w = self.write_cursor;
        let ghost capi = cap as int;
        let ghost wi = w as int;
        let ghost ri = self.read_cursor as int;
        let ghost occi = occ as int;
        proof {
            assert(wi == slot(ri, occi, capi));
        }
        let mut i: usize = 0;
        while i < n
            invariant
                i <= n,
                n <= src@.len(),
                cap == capi,
                w == wi,
                old(self).well_formed(),
                occi == old(self).occupied_spec(),
                occi + n <= capi - 1,
                capi == old(self).capacity_spec(),
                wi == old(self).write_cursor_spec(),
                ri == old(self).read_cursor_spec(),
                wi == slot(ri, occi, capi),
                self.storage@.len() == capi,
                self.write_cursor == old(self).write_cursor,
                self.read_cursor == old(self).read_cursor,
                self.closed == old(self).closed,
                forall|p: int|
                    0 <= p < capi && offset_of(wi, p, capi) < i ==> self.storage@[p] == src@[
                        offset_of(wi, p, capi)
                    ],
                forall|p: int|
                    0 <= p < capi && offset_of(wi, p, capi) >= i ==> self.storage@[p] == old(
                        self,
                    ).storage@[p],
            decreases n - i,
        {
            let idx = if self.write_cursor >= cap - i {
                self.write_cursor - (cap - i)
            } else {
                self.write_cursor + i
            };
            proof {
                assert(idx == slot(wi, i as int, capi));
                lemma_offset_of_slot(wi, i as int, capi);
                assert forall|p: int|
                    0 <= p < capi && p != idx as int implies offset_of(wi, p, capi)
                    != i as int by {
                    if offset_of(wi, p, capi) == i as int {
                        lemma_slot_of_offset(wi, p, capi);
                    }
                }
            }
            self.storage.set(idx, src[i]);
            i += 1;
        }
        self.write_cursor = if w >= cap - n {
            w - (cap - n)
        } else {
            w + n
        };
        proof {
            let q0 = old(self).contents();
            let ni = n as int;
            assert(self.write_cursor == slot(wi, ni, capi));
            assert(self.write_cursor == slot(ri, occi + ni, capi)) by {
                lemma_slot_compose(ri, occi, ni, capi);
            }
            assert(self.occupied_spec() == occi + ni);
            assert forall|k: int| 0 <= k < occi + ni implies self.contents()[k] == write_step(
                q0,
                capi,
                src@,
            )[k] by {
                if k < occi {
                    assert(offset_of(wi, slot(ri, k, capi), capi) == capi - occi + k);
                    assert(self.storage@[slot(ri, k, capi)] == old(self).storage@[slot(
                        ri,
                        k,
                        capi,
                    )]);
                } else {
                    lemma_slot_compose(ri, occi, k - occi, capi);
                    assert(slot(ri, k, capi) == slot(wi, k - occi, capi));
                    lemma_offset_of_slot(wi, k - occi, capi);
                    assert(self.storage@[slot(wi, k - occi, capi)] == src@[k - occi]);
                }
            }
            assert(self.contents() =~= write_step(q0, capi, src@));
            assert(self.storage_view() =~= store_step(old(self).storage_view(), wi, src@, ni));
        }
        n
    }

    /// Copies up to `min(dst.len(), occupied())` resident bytes into the
    /// front of `dst`, wrapping once at the capacity, and advances the read
    /// cursor by the count copied. The bytes handed out are exactly the
    /// oldest resident bytes, in the order they were written; the rest of
    /// `dst` is left as it was. On an empty ring it copies nothing and
    /// returns zero.
    pub fn read_bytes(&mut self, dst: &mut Vec<u8>) -> (n: usize)
        requires
            old(self).well_formed(),
        ensures
            final(self).well_formed(),
            final(self).capacity_spec() == old(self).capacity_spec(),
            final(self).closed_spec() == old(self).closed_spec(),
            final(self).storage_view() == old(self).storage_view(),
            final(self).write_cursor_spec() == old(self).write_cursor_spec(),
            final(self).read_cursor_spec() == slot(
                old(self).read_cursor_spec(),
                n as int,
                old(self).capacity_spec(),
            ),
            n == read_count(old(self).contents(), old(dst)@.len() as int),
            final(self).contents() == read_rest(old(self).contents(), old(dst)@.len() as int),
            final(dst)@.len() == old(dst)@.len(),
            final(dst)@ == read_taken(old(self).contents(), old(dst)@.len() as int) + old(
                dst,
            )@.skip(n as int),
    {
        let cap = self.storage.len();
        let occ = self.occupied();
        let n = if dst.len() < occ {
            dst.len()
        } else {
            occ
        };
        let r0 = self.read_cursor;
        let ghost capi = cap as int;
        let ghost ri = r0 as int;
        let ghost occi = occ as int;
        let mut i: usize = 0;
        while i < n
            invariant
                i <= n,
                n <= occi,
                n <= old(dst)@.len(),
                cap == capi,
                r0 == ri,
                old(self).well_formed(),
                *self == *old(self),
                occi == old(self).occupied_spec(),
                capi == old(self).capacity_spec(),
                ri == old(self).read_cursor_spec(),
                dst@.len() == old(dst)@.len(),
                forall|j: int| 0 <= j < i ==> dst@[j] == old(self).contents()[j],
                forall|j: int| i <= j < dst@.len() ==> dst@[j] == old(dst)@[j],
            decreases n - i,
        {
            let idx = if self.read_cursor >= cap - i {
                self.read_cursor - (cap - i)
            } else {
                self.read_cursor + i
            };
            proof {
                assert(idx == slot(ri, i as int, capi));
                assert(old(self).contents()[i as int] == self.storage@[idx as int]);
            }
            let b = self.storage[idx];
            dst.set(i, b);
            i += 1;
        }
        self.read_cursor = if r0 >= cap - n {
            r0 - (cap - n)
        } else {
            r0 + n
        };
        proof {
            let q0 = old(self).contents();
            let ni = n as int;
            let want = old(dst)@.len() as int;
            assert(self.read_cursor == slot(ri, ni, capi));
            assert(self.occupied_spec() == occi - ni);
            assert forall|k: int| 0 <= k < occi - ni implies self.contents()[k] == q0[ni + k] by {
                lemma_slot_compose(ri, ni, k, capi);
                assert(slot(slot(ri, ni, capi), k, capi) == slot(ri, ni + k, capi));
            }
            assert(self.contents() =~= read_rest(q0, want));
            assert(dst@ =~= read_taken(q0, want) + old(dst)@.skip(ni));
        }
        n
    }

    /// The writer side of the channel: fails with [`RingError::Closed`]
    /// exactly when the channel has been closed, and otherwise accepts
    /// bytes as [`Self::write_bytes`] does. A full ring is not an error:
    /// the write succeeds with a count of zero.
    pub fn writer_write(&mut self, src: &[u8]) -> (r: Result<usize, RingError>)
        requires
            old(self).well_formed(),
        ensures
            final(self).well_formed(),
            final(self).capacity_spec() == old(self).capacity_spec(),
            final(self).closed_spec() == old(self).closed_spec(),
            r matches Ok(n) ==> n <= src@.len(),
            old(self).closed_spec() ==> r == Err::<usize, RingError>(RingError::Closed)
                && *final(self) == *old(self),
            !old(self).closed_spec() ==> (r matches Ok(n) && n == write_count(
                old(self).contents(),
                old(self).capacity_spec(),
                src@,
            ) && final(self).contents() == write_step(
                old(self).contents(),
                old(self).capacity_spec(),
                src@,
            ) && final(self).storage_view() == store_step(
                old(self).storage_view(),
                old(self).write_cursor_spec(),
                src@,
                n as int,
            ) && final(self).write_cursor_spec() == slot(
                old(self).write_cursor_spec(),
                n as int,
                old(self).capacity_spec(),
            ) && final(self).read_cursor_spec() == old(self).read_cursor_spec()),
    {
        if self.closed {
            return Err(RingError::Closed);
        }
        let n = self.write_bytes(src);
        Ok(n)
    }

    /// The reader side of the channel: fails with [`RingError::EndOfStream`]
    /// exactly when the ring is drained and the writer has closed, leaving
    /// everything untouched — so once that state is reached, every later
    /// read fails the same way. Otherwise bytes are handed out as
    /// [`Self::read_bytes`] does; an empty ring with the writer still open
    /// is a success with a count of zero, never an end-of-stream signal.
    pub fn reader_read(&mut self, dst: &mut Vec<u8>) -> (r: Result<usize, RingError>)
        requires
            old(self).well_formed(),
        ensures
            final(self).well_formed(),
            final(self).capacity_spec() == old(self).capacity_spec(),
            final(self).closed_spec() == old(self).closed_spec(),
            final(self).storage_view() == old(self).storage_view(),
            r matches Ok(n) ==> n <= old(dst)@.len(),
            final(dst)@.len() == old(dst)@.len(),
            old(self).end_of_stream() ==> r == Err::<usize, RingError>(RingError::EndOfStream)
                && *final(self) == *old(self) && final(dst)@ == old(dst)@,
            !old(self).end_of_stream() ==> (r matches Ok(n) && n == read_count(
                old(self).contents(),
                old(dst)@.len() as int,
            ) && final(self).contents() == read_rest(old(self).contents(), old(dst)@.len() as int)
                && final(self).write_cursor_spec() == old(self).write_cursor_spec()
                && final(self).read_cursor_spec() == slot(
                old(self).read_cursor_spec(),
                n as int,
                old(self).capacity_spec(),
            ) && final(dst)@ == read_taken(old(self).contents(), old(dst)@.len() as int) + old(
                dst,
            )@.skip(read_count(old(self).contents(), old(dst)@.len() as int))),
    {
        if self.is_empty() && self.is_closed() {
            return Err(RingError::EndOfStream);
        }
        let n = self.read_bytes(dst);
        Ok(n)
    }

    /// A copy of the backing storage, slot by slot.
    pub fn storage_snapshot(&self) -> (v: Vec<u8>)
        ensures
            v@ == self.storage_view(),
            v@.len() == self.capacity_spec(),
    {
        let mut v: Vec<u8> = Vec::new();
        let mut i: usize = 0;
        while i < self.storage.len()
            invariant
                i <= self.storage@.len(),
                v@ == self.storage@.take(i as int),
            decreases self.storage@.len() - i,
        {
            v.push(self.storage[i]);
            i += 1;
        }
        proof {
            assert(v@ =~= self.storage_view());
        }
        v
    }
}

/// The capacity reservation: a well-formed ring never holds more than
/// `capacity - 1` resident bytes, so equal cursors are unambiguous — they
/// always mean empty, never full.
pub proof fn lemma_occupied_bound(r: RingBuffer)
    requires
        r.well_formed(),
    ensures
        0 <= r.contents().len() <= r.capacity_spec() - 1,
{
}

/// Stepping `b` slots from the slot `a` places after `start` lands on the
/// slot `a + b` places after `start`, as long as `a + b` stays under the
/// capacity, so a single wrap suffices.
proof fn lemma_slot_compose(start: int, a: int, b: int, cap: int)
    requires
        0 <= start < cap,
        0 <= a,
        0 <= b,
        a + b < cap,
    ensures
        slot(slot(start, a, cap), b, cap) == slot(start, a + b, cap),
{
}

/// `offset_of` is a left inverse of `slot`: stepping to a slot and asking
/// for its offset gives the step back.
proof fn lemma_offset_of_slot(start: int, j: int, cap: int)
    requires
        0 <= start < cap,
        0 <= j < cap,
    ensures
        offset_of(start, slot(start, j, cap), cap) == j,
{
}

/// `slot` is a left inverse of `offset_of`: every slot lies at its own
/// offset, and that offset is under the capacity.
proof fn lemma_slot_of_offset(start: int, p: int, cap: int)
    requires
        0 <= start < cap,
        0 <= p < cap,
    ensures
        0 <= offset_of(start, p, cap) < cap,
        slot(start, offset_of(start, p, cap), cap) == p,
{
}

} // verus!
