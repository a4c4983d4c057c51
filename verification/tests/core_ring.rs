use ringpipe::RingBuffer;
use ringpipe::RingError;

#[test]
fn occupied_and_free_space_track_the_cursors() {
    let mut ring = RingBuffer::with_capacity(10);
    assert_eq!(0, ring.occupied());
    assert_eq!(9, ring.free_space());
    assert!(ring.is_empty());
    assert_eq!(4, ring.write_bytes(&[1, 2, 3, 4]));
    assert_eq!(4, ring.occupied());
    assert_eq!(5, ring.free_space());
    assert!(!ring.is_empty());
    let mut out = vec![0u8; 2];
    assert_eq!(2, ring.read_bytes(&mut out));
    assert_eq!(&[1, 2], out.as_slice());
    assert_eq!(2, ring.occupied());
    assert_eq!(7, ring.free_space());
}

#[test]
fn write_bytes_truncates_at_the_capacity_bound() {
    let mut ring = RingBuffer::with_capacity(5);
    assert_eq!(4, ring.write_bytes(&[9, 8, 7, 6, 5, 4, 3]));
    assert_eq!(0, ring.write_bytes(&[1]));
    assert_eq!(&[9, 8, 7, 6, 0], ring.storage_snapshot().as_slice());
}

#[test]
fn fresh_ring_is_zero_initialized_and_open() {
    let ring = RingBuffer::with_capacity(6);
    assert_eq!(vec![0u8; 6], ring.storage_snapshot());
    assert!(!ring.is_closed());
    assert!(ring.is_empty());
    assert_eq!(0, ring.read_position());
}

#[test]
fn mark_closed_is_one_way_and_idempotent() {
    let mut ring = RingBuffer::with_capacity(4);
    assert!(!ring.is_closed());
    ring.mark_closed();
    assert!(ring.is_closed());
    ring.mark_closed();
    assert!(ring.is_closed());
}

#[test]
fn writer_write_fails_only_when_closed() {
    let mut ring = RingBuffer::with_capacity(8);
    assert_eq!(Ok(3), ring.writer_write(&[1, 2, 3]));
    ring.mark_closed();
    assert_eq!(Err(RingError::Closed), ring.writer_write(&[4]));
}

#[test]
fn reader_read_signals_end_of_stream_only_when_drained_and_closed() {
    let mut ring = RingBuffer::with_capacity(8);
    let mut out = vec![0u8; 4];
    assert_eq!(Ok(0), ring.reader_read(&mut out));
    assert_eq!(Ok(2), ring.writer_write(&[7, 7]));
    ring.mark_closed();
    assert_eq!(Ok(2), ring.reader_read(&mut out));
    assert_eq!(&[7, 7, 0, 0], out.as_slice());
    assert_eq!(Err(RingError::EndOfStream), ring.reader_read(&mut out));
}

#[test]
fn read_bytes_leaves_the_tail_of_the_destination() {
    let mut ring = RingBuffer::with_capacity(8);
    assert_eq!(2, ring.write_bytes(&[40, 41]));
    let mut out = vec![9u8; 5];
    assert_eq!(2, ring.read_bytes(&mut out));
    assert_eq!(&[40, 41, 9, 9, 9], out.as_slice());
}
