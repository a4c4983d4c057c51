//! The writer handle: a capability-restricted view over the shared ring
//! exposing only write and close.

use crate::reader::RingReader;
use crate::ring::RingError;
use crate::ring::lemma_occupied_bound;
use crate::shared::SharedRing;
use vstd::prelude::*;

verus! {

/// The producer's end of the channel. Exactly one exists per channel; only
/// it can put bytes into the ring or close the channel. Closing happens
/// only through [`RingWriter::close`]: a handle dropped without that call
/// leaves the channel open, so an adapter that must signal end of stream on
/// release should call `close` from its own release hook.
pub struct RingWriter {
    pub(crate) shared: SharedRing,
    pub(crate) closed: bool,
}

impl RingWriter {
    /// The fixed capacity of the channel this handle writes to.
    pub closed spec fn capacity(&self) -> int {
        (*self.shared).pred().capacity as int
    }

    /// Whether this handle has closed the channel.
    pub closed spec fn handle_closed(&self) -> bool {
        self.closed
    }

    /// Whether this handle and the reader handle `other` reference one
    /// shared ring.
    pub closed spec fn shares_ring_with(&self, other: &RingReader) -> bool {
        self.shared == other.shared
    }

    /// Wraps a reference to the shared ring as the channel's one writer
    /// handle.
    pub(crate) fn new_handle(shared: SharedRing) -> (w: RingWriter)
        ensures
            w.capacity() == (*shared).pred().capacity as int,
            !w.handle_closed(),
            w.shared == shared,
    {
        RingWriter { shared, closed: false }
    }

    /// Copies as many of the given bytes into the ring as its free space
    /// allows, under one exclusive critical section, and returns the count
    /// actually copied. Never blocks: a full ring is not an error, the call
    /// succeeds with a count of zero and the caller may retry or drop the
    /// rest. Fails with [`RingError::Closed`] exactly when this handle has
    /// closed the channel — closing is this handle's own act, so success is
    /// owed on every write before it.
    pub fn write(&mut self, buf: &[u8]) -> (r: Result<usize, RingError>)
        ensures
            final(self).capacity() == old(self).capacity(),
            final(self).handle_closed() == old(self).handle_closed(),
            old(self).handle_closed() ==> r == Err::<usize, RingError>(RingError::Closed),
            !old(self).handle_closed() ==> r is Ok,
            r matches Ok(n) ==> n <= buf@.len(),
            r is Err ==> r == Err::<usize, RingError>(RingError::Closed),
    {
        if self.closed {
            return Err(RingError::Closed);
        }
        let (mut ring, handle) = self.shared.acquire_write();
        proof {
            lemma_occupied_bound(ring);
        }
        let n = ring.write_bytes(buf);
        handle.release_write(ring);
        Ok(n)
    }

    /// Closes the channel: a one-way signal to the reader side that no more
    /// bytes will come. Idempotent: closing again changes neither this
    /// handle nor, per [`crate::ring::RingBuffer::mark_closed`], the shared
    /// ring.
    pub fn close(&mut self)
        ensures
            final(self).capacity() == old(self).capacity(),
            final(self).handle_closed(),
            old(self).handle_closed() ==> *final(self) == *old(self),
    {
        let (mut ring, handle) = self.shared.acquire_write();
        ring.mark_closed();
        handle.release_write(ring);
        self.closed = true;
    }

    /// Nothing is buffered beyond the ring itself, so there is nothing to
    /// flush: always succeeds and changes nothing.
    pub fn flush(&mut self) -> (r: Result<(), RingError>)
        ensures
            r == Ok::<(), RingError>(()),
            *final(self) == *old(self),
    {
        Ok(())
    }

    /// A copy of the ring's backing storage at this moment.
    pub fn storage_snapshot(&self) -> (v: Vec<u8>)
        ensures
            v@.len() == self.capacity(),
    {
        let handle = self.shared.acquire_read();
        let ring = handle.borrow();
        let v = ring.storage_snapshot();
        handle.release_read();
        v
    }
}

/// A writer and a reader built over one lock share the ring.
pub(crate) proof fn lemma_same_lock_shares(w: &RingWriter, rd: &RingReader)
    requires
        w.shared == rd.shared,
    ensures
        w.shares_ring_with(rd),
{
}

} // verus!
