use log_analyzer::frame::{encode_frame, FrameError, FrameReader, MAX_FRAME_LEN};

#[test]
fn frame_has_big_endian_length_prefix() {
    assert_eq!(encode_frame(&vec![1, 2, 3]), Ok(vec![0, 0, 0, 3, 1, 2, 3]));
    assert_eq!(encode_frame(&vec![]), Ok(vec![0, 0, 0, 0]));
    let big = vec![7u8; 300];
    let f = encode_frame(&big).unwrap();
    assert_eq!(&f[..4], &[0, 0, 1, 44]);
    assert_eq!(f.len(), 304);
}

#[test]
fn oversized_payload_is_refused() {
    let p = vec![0u8; MAX_FRAME_LEN + 1];
    assert_eq!(encode_frame(&p), Err(FrameError::TooLong));
    let p = vec![0u8; MAX_FRAME_LEN];
    assert_eq!(encode_frame(&p).map(|f| f.len()), Ok(MAX_FRAME_LEN + 4));
}

#[test]
fn frames_come_out_in_the_order_sent() {
    let first = encode_frame(&b"first record".to_vec()).unwrap();
    let second = encode_frame(&b"second".to_vec()).unwrap();
    let mut stream = first.clone();
    stream.extend_from_slice(&second);
    let mut reader = FrameReader::new();
    let mut got = Vec::new();
    for chunk in stream.chunks(5) {
        reader.push_bytes(chunk);
        while let Some(p) = reader.next_frame().unwrap() {
            got.push(p);
        }
    }
    assert_eq!(got, vec![b"first record".to_vec(), b"second".to_vec()]);
    assert_eq!(reader.next_frame(), Ok(None));
}

#[test]
fn incomplete_frame_waits_for_more() {
    let mut reader = FrameReader::new();
    reader.push_bytes(&[0, 0]);
    assert_eq!(reader.next_frame(), Ok(None));
    reader.push_bytes(&[0, 2, 9]);
    assert_eq!(reader.next_frame(), Ok(None));
    reader.push_bytes(&[8]);
    assert_eq!(reader.next_frame(), Ok(Some(vec![9, 8])));
}

#[test]
fn oversized_header_is_refused() {
    let mut reader = FrameReader::new();
    reader.push_bytes(&[0, 0x80, 0, 1, 5]);
    assert_eq!(reader.next_frame(), Err(FrameError::TooLong));
}

#[test]
fn drained_frames_keep_their_order_and_stop_at_a_refused_header() {
    let mut stream = encode_frame(&b"R1".to_vec()).unwrap();
    stream.extend(encode_frame(&b"R2".to_vec()).unwrap());
    stream.extend([0, 0, 0, 5, 1]);
    let mut reader = FrameReader::new();
    reader.push_bytes(&stream);
    let (payloads, refused) = reader.drain_frames();
    assert_eq!(payloads, vec![b"R1".to_vec(), b"R2".to_vec()]);
    assert_eq!(refused, None);
    reader.push_bytes(&[2, 3, 4, 5]);
    reader.push_bytes(&[0xff, 0, 0, 0]);
    let (payloads, refused) = reader.drain_frames();
    assert_eq!(payloads, vec![vec![1, 2, 3, 4, 5]]);
    assert_eq!(refused, Some(FrameError::TooLong));
    let (payloads, refused) = reader.drain_frames();
    assert!(payloads.is_empty());
    assert_eq!(refused, Some(FrameError::TooLong));
}
