//! The reader handle: a capability-restricted view over the shared ring
//! exposing only read and end-of-stream queries.

use crate::ring::RingError;
use crate::ring::read_count;
use crate::ring::read_taken;
use crate::shared::SharedRing;
use vstd::prelude::*;

verus! {

/// The consumer's end of the channel. Exactly one exists per channel; only
/// it can take bytes out of the ring.
pub struct RingReader {
    pub(crate) shared: SharedRing,
}

impl RingReader {
    /// The fixed capacity of the channel this handle reads from.
    pub closed spec fn capacity(&self) -> int {
        (*self.shared).pred().capacity as int
    }

    /// Wraps a reference to the shared ring as the channel's one reader
    /// handle.
    pub(crate) fn new_handle(shared: SharedRing) -> (r: RingReader)
        ensures
            r.capacity() == (*shared).pred().capacity as int,
            r.shared == shared,
    {
        RingReader { shared }
    }

    /// Copies up to `buf.len()` resident bytes into the front of `buf`,
    /// under one exclusive critical section, and returns the count actually
    /// copied; the rest of `buf` is left as it was. Never blocks: an empty
    /// ring with the writer still open is a transient condition, reported
    /// as success with a count of zero. Fails with
    /// [`RingError::EndOfStream`] exactly when the ring is empty and the
    /// writer has closed.
    pub fn read(&mut self, buf: &mut Vec<u8>) -> (r: Result<usize, RingError>)
        ensures
            final(self).capacity() == old(self).capacity(),
            final(buf)@.len() == old(buf)@.len(),
            r matches Ok(n) ==> n <= old(buf)@.len() && final(buf)@.skip(n as int) == old(
                buf,
            )@.skip(n as int),
            r is Err ==> r == Err::<usize, RingError>(RingError::EndOfStream) && final(buf)@ == old(
                buf,
            )@,
    {
        let (mut ring, handle) = self.shared.acquire_write();
        let ghost ring0 = ring;
        let ghost buf0 = buf@;
        let r = ring.reader_read(buf);
        handle.release_write(ring);
        proof {
            if r is Ok {
                let n = r->Ok_0 as int;
                let q0 = ring0.contents();
                let want = buf0.len() as int;
                let rc = read_count(q0, want);
                assert(!ring0.end_of_stream());
                assert(n == rc);
                assert(buf@ == read_taken(q0, want) + buf0.skip(rc));
                assert(read_taken(q0, want).len() == rc);
                assert forall|i: int| 0 <= i < buf@.len() - rc implies buf@.skip(rc)[i]
                    == buf0.skip(rc)[i] by {
                    assert(buf@[rc + i] == (read_taken(q0, want) + buf0.skip(rc))[rc + i]);
                }
                assert(buf@.skip(n) =~= buf0.skip(n));
            }
        }
        r
    }

    /// True exactly when the stream is over for good: the ring is empty and
    /// the writer has closed. A merely-empty ring with the writer still
    /// open does not count — more bytes may yet arrive.
    pub fn no_more_to_read(&self) -> (b: bool) {
        let handle = self.shared.acquire_read();
        let ring = handle.borrow();
        let b = ring.is_empty() && ring.is_closed();
        handle.release_read();
        b
    }

    /// True unless the ring is empty and the writer has closed.
    pub fn more_to_read(&self) -> (b: bool) {
        !self.no_more_to_read()
    }

    /// Whether the writer side has closed the channel.
    pub fn writer_closed(&self) -> (b: bool) {
        let handle = self.shared.acquire_read();
        let ring = handle.borrow();
        let b = ring.is_closed();
        handle.release_read();
        b
    }

    /// The storage slot the next read will start at.
    pub fn read_position(&self) -> (i: usize)
        ensures
            i < self.capacity(),
    {
        let handle = self.shared.acquire_read();
        let ring = handle.borrow();
        let i = ring.read_position();
        handle.release_read();
        i
    }

    /// A copy of the ring's backing storage at this moment.
    pub fn storage_snapshot(&self) -> (v: Vec<u8>)
        ensures
            v@.len() == self.capacity(),
    {
        let handle = self.shared.acquire_read();
        let ring = handle.borrow();
        let v = ring.storage_snapshot();
        handle.release_read();
        v
    }
}

} // verus!
