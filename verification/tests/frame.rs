use discordshim::frame::{append_bytes, payload_length, read_frame, write_frame, FrameError};

#[test]
fn frame_has_little_endian_length_then_payload() {
    assert_eq!(vec![3u8, 0, 0, 0, 1, 2, 3], write_frame(&[1, 2, 3]));
    assert_eq!(vec![0u8, 0, 0, 0], write_frame(&[]));
    let long = vec![7u8; 0x0102];
    let frame = write_frame(&long);
    assert_eq!(&frame[..4], &[0x02u8, 0x01, 0, 0]);
    assert_eq!(&frame[4..], &long[..]);
}

#[test]
fn frame_round_trip() {
    for len in [0usize, 1, 2, 255, 256, 257, 70000] {
        let payload: Vec<u8> = (0..len).map(|i| (i % 251) as u8).collect();
        let frame = write_frame(&payload);
        assert_eq!(Ok((payload.clone(), len + 4)), read_frame(&frame));
    }
}

#[test]
fn frame_truncated_by_one_byte_is_a_short_read() {
    let frame = write_frame(&[9, 8, 7, 6, 5]);
    for kept in 0..frame.len() {
        assert_eq!(Err(FrameError::ShortRead), read_frame(&frame[..kept]));
    }
}

#[test]
fn frame_leaves_what_follows_it() {
    let mut stream = write_frame(&[1, 2]);
    stream.extend_from_slice(&write_frame(&[3]));
    let (first, used) = read_frame(&stream).unwrap();
    assert_eq!(vec![1u8, 2], first);
    assert_eq!(6, used);
    let (second, used) = read_frame(&stream[used..]).unwrap();
    assert_eq!(vec![3u8], second);
    assert_eq!(5, used);
}

#[test]
fn payload_length_reads_the_header() {
    assert_eq!(0, payload_length(&[0, 0, 0, 0]));
    assert_eq!(1, payload_length(&[1, 0, 0, 0]));
    assert_eq!(0x04030201, payload_length(&[1, 2, 3, 4]));
    assert_eq!(u32::MAX, payload_length(&[255, 255, 255, 255]));
}

#[test]
fn append_bytes_extends() {
    let mut out = vec![1u8];
    append_bytes(&mut out, &[2, 3]);
    append_bytes(&mut out, &[]);
    assert_eq!(vec![1u8, 2, 3], out);
}
