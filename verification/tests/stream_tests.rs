use edge_tunnel::stream::{ByteStream, StreamExt};

#[test]
fn early_data_is_read_before_frame_bytes() {
    let mut s = ByteStream::new(Some(vec![1, 2, 3]));
    s.push_frame(&[4, 5]);
    s.push_frame(&[6]);
    assert_eq!(s.read(2), vec![1, 2]);
    assert_eq!(s.read(10), vec![3, 4, 5, 6]);
    assert_eq!(s.read(1), Vec::<u8>::new());
}

#[test]
fn early_data_first_for_any_chunk_size() {
    let mut s = ByteStream::new(Some(vec![9, 8, 7]));
    s.push_frame(&[1, 1]);
    let mut seen = Vec::new();
    for _ in 0..5 {
        seen.extend_from_slice(&s.read(1));
    }
    assert_eq!(seen, vec![9, 8, 7, 1, 1]);
}

#[test]
fn reads_without_early_data_follow_frame_order() {
    let mut s = ByteStream::new(None);
    assert_eq!(s.buffered_len(), 0);
    s.push_frame(&[10, 20]);
    s.push_frame(&[30]);
    assert_eq!(s.read(5), vec![10, 20, 30]);
}

#[test]
fn read_exact_is_all_or_nothing() {
    let mut s = ByteStream::new(None);
    s.push_frame(&[1, 2, 3]);
    assert_eq!(s.read_exact(4), None);
    assert_eq!(s.buffered_len(), 3);
    assert_eq!(s.read_exact(2), Some(vec![1, 2]));
    assert_eq!(s.buffered_len(), 1);
}

#[test]
fn stream_ext_reads_bytes_and_text() {
    let mut s = ByteStream::new(None);
    s.push_frame(b"hello!");
    assert_eq!(s.read_bytes(7), None);
    let text = s.read_string(5);
    assert_eq!(text, Some(Ok(String::from("hello"))));
    assert_eq!(s.read_bytes(1), Some(vec![b'!']));
}

#[test]
fn stream_ext_reports_invalid_utf8() {
    let mut s = ByteStream::new(None);
    s.push_frame(&[0xFF, 0xFE, 0x41]);
    match s.read_string(3) {
        Some(Err(raw)) => assert_eq!(raw, vec![0xFF, 0xFE, 0x41]),
        _ => panic!("expected invalid text"),
    }
}

#[test]
fn peek_does_not_consume() {
    let mut s = ByteStream::new(None);
    s.push_frame(&[5, 6]);
    assert_eq!(s.peek(0), 5);
    assert_eq!(s.peek(1), 6);
    assert_eq!(s.buffered_len(), 2);
}
