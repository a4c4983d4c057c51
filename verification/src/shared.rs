//! The shared ownership of one ring by the two handles: a verified
//! reader-writer lock holds the [`RingBuffer`] under the invariant that it
//! stays well formed at its fixed capacity, and a reference-counted pointer
//! lets the writer and the reader each keep a handle on that one lock.

use crate::reader::RingReader;
use crate::ring::RingBuffer;
use crate::writer::RingWriter;
use crate::writer::lemma_same_lock_shares;
use std::sync::Arc;
use vstd::prelude::*;
use vstd::rwlock::RwLock;
use vstd::rwlock::RwLockPredicate;

verus! {

/// The lock invariant of the shared ring: well formed, at the capacity the
/// channel was created with.
pub struct RingPred {
    pub capacity: usize,
}

impl RwLockPredicate<RingBuffer> for RingPred {
    open spec fn inv(self, v: RingBuffer) -> bool {
        &&& v.well_formed()
        &&& v.capacity_spec() == self.capacity
    }
}

/// The shared state, as each handle holds it.
pub(crate) type SharedRing = Arc<RwLock<RingBuffer, RingPred>>;

/// Relies on `Arc::clone`: the returned pointer refers to the same shared
/// allocation, so the lock it hands out is the very lock `s` holds.
#[verifier::external_body]
pub(crate) fn clone_shared(s: &SharedRing) -> (r: SharedRing)
    ensures
        r == *s,
{
    Arc::clone(s)
}

impl RingBuffer {
    /// The channel factory: allocates one shared ring of the given capacity
    /// with zero-initialized storage, and returns the one writer handle and
    /// the one reader handle that both reference it. A capacity under two
    /// is disallowed, since usable space is `capacity - 1`.
    pub fn new(ring_buffer_size: usize) -> (r: (RingWriter, RingReader))
        requires
            2 <= ring_buffer_size,
        ensures
            r.0.capacity() == ring_buffer_size,
            r.1.capacity() == ring_buffer_size,
            !r.0.handle_closed(),
            r.0.shares_ring_with(&r.1),
    {
        let ring = RingBuffer::with_capacity(ring_buffer_size);
        let lock = RwLock::<RingBuffer, RingPred>::new(
            ring,
            Ghost(RingPred { capacity: ring_buffer_size }),
        );
        let shared = Arc::new(lock);
        let reader_shared = clone_shared(&shared);
        let writer = RingWriter::new_handle(shared);
        let reader = RingReader::new_handle(reader_shared);
        proof {
            lemma_same_lock_shares(&writer, &reader);
        }
        (writer, reader)
    }
}

} // verus!
