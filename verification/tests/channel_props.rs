use ringpipe::RingBuffer;
use ringpipe::RingError;

#[test]
fn round_trip_of_several_writes() {
    let (mut writer, mut reader) = RingBuffer::new(16);
    assert_eq!(5, writer.write(&[1, 2, 3, 4, 5]).unwrap());
    assert_eq!(4, writer.write(&[6, 7, 8, 9]).unwrap());
    assert_eq!(6, writer.write(&[10, 11, 12, 13, 14, 15]).unwrap());
    let mut buf = vec![0u8; 15];
    assert_eq!(15, reader.read(&mut buf).unwrap());
    assert_eq!(
        &[1, 2, 3, 4, 5, 6, 7, 8, 9, 10, 11, 12, 13, 14, 15],
        buf.as_slice()
    );
}

#[test]
fn full_ring_write_returns_zero_and_keeps_content() {
    let (mut writer, mut reader) = RingBuffer::new(4);
    assert_eq!(3, writer.write(&[7, 8, 9, 10]).unwrap());
    assert_eq!(0, writer.write(&[42]).unwrap());
    let mut buf = vec![0u8; 3];
    assert_eq!(3, reader.read(&mut buf).unwrap());
    assert_eq!(&[7, 8, 9], buf.as_slice());
}

#[test]
fn end_of_stream_is_final() {
    let (mut writer, mut reader) = RingBuffer::new(8);
    assert_eq!(3, writer.write(&[1, 2, 3]).unwrap());
    writer.close();
    let mut buf = vec![0u8; 8];
    assert_eq!(3, reader.read(&mut buf).unwrap());
    assert_eq!(&[1, 2, 3, 0, 0, 0, 0, 0], buf.as_slice());
    assert!(reader.no_more_to_read());
    assert!(!reader.more_to_read());
    assert_eq!(Err(RingError::EndOfStream), reader.read(&mut buf));
    assert_eq!(Err(RingError::EndOfStream), reader.read(&mut buf));
}

#[test]
fn transient_empty_is_not_end_of_stream() {
    let (writer, mut reader) = RingBuffer::new(8);
    let mut buf = vec![0u8; 4];
    assert_eq!(0, reader.read(&mut buf).unwrap());
    assert_eq!(&[0, 0, 0, 0], buf.as_slice());
    assert!(reader.more_to_read());
    assert!(!reader.no_more_to_read());
    drop(writer);
}

#[test]
fn close_is_idempotent() {
    let (mut writer, mut reader) = RingBuffer::new(8);
    assert_eq!(2, writer.write(&[5, 6]).unwrap());
    writer.close();
    let snapshot_once = reader.storage_snapshot();
    let position_once = reader.read_position();
    writer.close();
    assert_eq!(snapshot_once, reader.storage_snapshot());
    assert_eq!(position_once, reader.read_position());
    assert!(reader.writer_closed());
    let mut buf = vec![0u8; 4];
    assert_eq!(2, reader.read(&mut buf).unwrap());
    assert_eq!(&[5, 6, 0, 0], buf.as_slice());
    assert_eq!(Err(RingError::EndOfStream), reader.read(&mut buf));
}

#[test]
fn write_after_close_fails_with_closed() {
    let (mut writer, _reader) = RingBuffer::new(8);
    writer.close();
    assert_eq!(Err(RingError::Closed), writer.write(&[1]));
    assert_eq!(Ok(()), writer.flush());
}

#[test]
fn wraparound_scenario() {
    let (mut writer, mut reader) = RingBuffer::new(10);
    assert_eq!(6, writer.write(&[0, 1, 2, 3, 4, 5]).unwrap());
    assert_eq!(
        &[0u8, 1, 2, 3, 4, 5, 0, 0, 0, 0],
        reader.storage_snapshot().as_slice()
    );
    let mut buf = vec![0u8; 3];
    assert_eq!(3, reader.read(&mut buf).unwrap());
    assert_eq!(&[0, 1, 2], buf.as_slice());
    assert_eq!(3, reader.read_position());
    assert_eq!(6, writer.write(&[6, 7, 8, 9, 10, 11]).unwrap());
    assert_eq!(
        &[10, 11, 2, 3, 4, 5, 6, 7, 8, 9],
        reader.storage_snapshot().as_slice()
    );
    let mut buf = vec![0u8; 8];
    assert_eq!(8, reader.read(&mut buf).unwrap());
    assert_eq!(&[3, 4, 5, 6, 7, 8, 9, 10], buf.as_slice());
    assert_eq!(1, reader.read_position());
}
