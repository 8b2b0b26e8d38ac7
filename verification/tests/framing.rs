use adder_codec::framing::{read_frame, write_frame};
use adder_codec::types::CodecError;

#[test]
fn frame_is_length_then_payload() {
    let mut out = vec![9u8];
    write_frame(&vec![1, 2, 3], &mut out).unwrap();
    assert_eq!(out, vec![9, 0, 0, 0, 3, 1, 2, 3]);
    write_frame(&vec![], &mut out).unwrap();
    assert_eq!(out, vec![9, 0, 0, 0, 3, 1, 2, 3, 0, 0, 0, 0]);
}

#[test]
fn length_is_big_endian() {
    let payload = vec![7u8; 0x0102_03];
    let mut out = Vec::new();
    write_frame(&payload, &mut out).unwrap();
    assert_eq!(&out[..4], &[0x00, 0x01, 0x02, 0x03]);
    assert_eq!(out.len(), 4 + 0x0102_03);
    let (read, next) = read_frame(&out, 0).unwrap();
    assert_eq!(read, payload);
    assert_eq!(next, out.len());
}

#[test]
fn frames_written_one_behind_the_other_are_read_one_by_one() {
    let first = vec![10u8, 11, 12];
    let second: Vec<u8> = vec![];
    let third = vec![99u8; 300];

    // written in one session
    let mut session = Vec::new();
    write_frame(&first, &mut session).unwrap();
    write_frame(&second, &mut session).unwrap();
    write_frame(&third, &mut session).unwrap();

    // written apart and put together
    let mut joined = Vec::new();
    for payload in [&first, &second, &third] {
        let mut one = Vec::new();
        write_frame(payload, &mut one).unwrap();
        joined.extend(one);
    }
    assert_eq!(session, joined);

    let (a, end_a) = read_frame(&session, 0).unwrap();
    let (b, end_b) = read_frame(&session, end_a).unwrap();
    let (c, end_c) = read_frame(&session, end_b).unwrap();
    assert_eq!((a, b, c), (first, second, third));
    assert_eq!((end_a, end_b, end_c), (7, 11, 315));
    assert_eq!(read_frame(&session, end_c), Err(CodecError::Eof));
}

#[test]
fn stream_that_ends_between_frames_is_at_its_end() {
    assert_eq!(read_frame(&vec![], 0), Err(CodecError::Eof));
    assert_eq!(read_frame(&vec![0, 0, 0, 0], 4), Err(CodecError::Eof));
    assert_eq!(read_frame(&vec![0, 0, 0, 0], 9), Err(CodecError::Eof));
}

#[test]
fn stream_that_ends_inside_a_frame_is_broken() {
    // inside the length
    assert_eq!(read_frame(&vec![0, 0, 0], 0), Err(CodecError::Deserialize));
    // inside the payload
    assert_eq!(
        read_frame(&vec![0, 0, 0, 2, 5], 0),
        Err(CodecError::Deserialize)
    );
    assert_eq!(
        read_frame(&vec![0xff, 0xff, 0xff, 0xff, 5], 0),
        Err(CodecError::Deserialize)
    );
    assert_eq!(read_frame(&vec![0, 0, 0, 1, 5], 0), Ok((vec![5], 5)));
}
