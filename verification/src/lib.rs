//! An in-process byte-stream channel over a fixed-capacity circular buffer.
//!
//! One producer and one consumer share a ring of bytes: the writer copies
//! bytes in at the write cursor, the reader copies them out at the read
//! cursor, both wrapping modulo the capacity. At most `capacity - 1` bytes
//! are ever resident, so equal cursors always mean an empty ring. Closing is
//! a one-way signal from the writer side; a read on a closed, drained ring
//! reports end of stream.

mod laws;
mod reader;
mod ring;
mod shared;
mod writer;

pub use reader::RingReader;
pub use ring::RingBuffer;
pub use ring::RingError;
pub use writer::RingWriter;
