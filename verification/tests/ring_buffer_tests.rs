use ringpipe::RingBuffer;

#[test]
fn create_ring_buffer_only_write() {
    let (mut writer, reader) = RingBuffer::new(10);

    assert_eq!(6, writer.write(&[0, 1, 2, 3, 4, 5]).unwrap());
    assert_eq!(
        &[0u8, 1, 2, 3, 4, 5, 0, 0, 0, 0],
        writer.storage_snapshot().as_slice()
    );

    // One slot stays reserved: with six bytes resident, free space is three.
    assert_eq!(3, writer.write(&[6, 7, 8, 9, 0, 1]).unwrap());
    assert_eq!(
        &[0u8, 1, 2, 3, 4, 5, 6, 7, 8, 0],
        writer.storage_snapshot().as_slice()
    );

    assert_eq!(0, writer.write(&[0, 1, 2, 3, 4, 5]).unwrap());
    assert_eq!(
        &[0u8, 1, 2, 3, 4, 5, 6, 7, 8, 0],
        writer.storage_snapshot().as_slice()
    );

    writer.close();
    drop(writer);
    assert_eq!(true, reader.writer_closed());
}

#[test]
fn create_ring_buffer_write_and_read() {
    let (mut writer, mut reader) = RingBuffer::new(10);

    let mut buf = vec![0u8; 5];
    assert_eq!(0, reader.read(&mut buf).unwrap());
    assert_eq!(&[0, 0, 0, 0, 0], buf.as_slice());
    assert_eq!(0, reader.read_position());

    assert_eq!(6, writer.write(&[0, 1, 2, 3, 4, 5]).unwrap());
    assert_eq!(
        &[0, 1, 2, 3, 4, 5, 0, 0, 0, 0],
        reader.storage_snapshot().as_slice()
    );

    let mut buf = vec![0u8; 3];
    assert_eq!(3, reader.read(&mut buf).unwrap());
    assert_eq!(&[0, 1, 2], buf.as_slice());
    assert_eq!(3, reader.read_position());

    assert_eq!(6, writer.write(&[6, 7, 8, 9, 10, 11]).unwrap());
    assert_eq!(
        &[10, 11, 2, 3, 4, 5, 6, 7, 8, 9],
        reader.storage_snapshot().as_slice()
    );

    assert_eq!(0, writer.write(&[12, 13, 14, 15, 16, 17]).unwrap());
    assert_eq!(
        &[10, 11, 2, 3, 4, 5, 6, 7, 8, 9],
        reader.storage_snapshot().as_slice()
    );

    let mut buf = vec![0u8; 8];
    assert_eq!(8, reader.read(&mut buf).unwrap());
    assert_eq!(&[3, 4, 5, 6, 7, 8, 9, 10], buf.as_slice());
    assert_eq!(1, reader.read_position());

    let mut buf = vec![0u8; 3];
    assert_eq!(1, reader.read(&mut buf).unwrap());
    assert_eq!(&[11, 0, 0], buf.as_slice());
    assert_eq!(2, reader.read_position());

    let mut buf = vec![0u8; 20];
    assert_eq!(0, reader.read(&mut buf).unwrap());
    assert_eq!(
        &[0, 0, 0, 0, 0, 0, 0, 0, 0, 0, 0, 0, 0, 0, 0, 0, 0, 0, 0, 0],
        buf.as_slice()
    );
    assert_eq!(2, reader.read_position());

    assert_eq!(
        9,
        writer
            .write(&[12, 13, 14, 15, 16, 17, 18, 19, 20, 21, 22, 23, 24, 25, 26, 27, 28, 29, 30, 31])
            .unwrap()
    );
    assert_eq!(
        &[20, 11, 12, 13, 14, 15, 16, 17, 18, 19],
        reader.storage_snapshot().as_slice()
    );

    assert_eq!(
        0,
        writer
            .write(&[22, 23, 24, 25, 26, 27, 28, 29, 30, 31, 32, 33, 34, 35, 36, 37, 38, 39, 40, 41])
            .unwrap()
    );
    assert_eq!(
        &[20, 11, 12, 13, 14, 15, 16, 17, 18, 19],
        reader.storage_snapshot().as_slice()
    );

    let mut buf = vec![0u8; 20];
    assert_eq!(9, reader.read(&mut buf).unwrap());
    assert_eq!(
        &[12, 13, 14, 15, 16, 17, 18, 19, 20, 0, 0, 0, 0, 0, 0, 0, 0, 0, 0, 0],
        buf.as_slice()
    );
    assert_eq!(1, reader.read_position());

    let mut buf = vec![0u8; 20];
    assert_eq!(0, reader.read(&mut buf).unwrap());
    assert_eq!(
        &[0, 0, 0, 0, 0, 0, 0, 0, 0, 0, 0, 0, 0, 0, 0, 0, 0, 0, 0, 0],
        buf.as_slice()
    );
    assert_eq!(1, reader.read_position());
}
