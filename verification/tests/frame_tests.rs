use lean_goalview::frame::{header_step, read_frame, write_frame, HeaderStep};

#[test]
fn writes_length_and_body() {
    assert_eq!(write_frame("é".as_bytes()), b"Content-Length: 2\r\n\r\n\xc3\xa9".to_vec());
    assert_eq!(write_frame(b""), b"Content-Length: 0\r\n\r\n".to_vec());
}

#[test]
fn reads_back_what_was_written() {
    let mut stream = write_frame(b"{\"a\":1}");
    let used = stream.len();
    stream.extend_from_slice(b"Content-Length: 9\r\n");
    let (body, n) = read_frame(&stream).unwrap();
    assert_eq!(body, b"{\"a\":1}".to_vec());
    assert_eq!(n, used);
}

#[test]
fn other_headers_are_skipped_and_the_last_length_counts() {
    let s = b"Content-Length: 9\r\nContent-Type: x\nContent-Length:+2 \r\n  \r\nokrest";
    let (body, n) = read_frame(s).unwrap();
    assert_eq!(body, b"ok".to_vec());
    assert_eq!(n, s.len() - 4);
}

#[test]
fn a_frame_without_length_is_empty() {
    assert_eq!(read_frame(b"\r\nrest").unwrap(), (Vec::new(), 2));
}

#[test]
fn broken_or_short_frames_are_none() {
    assert!(read_frame(b"").is_none());
    assert!(read_frame(b"Content-Length: 3\r\n\r\nab").is_none());
    assert!(read_frame(b"Content-Length: 3\r\n").is_none());
    assert!(read_frame(b"Content-Length: x\r\n\r\nab").is_none());
    assert!(read_frame(b"Content-Length: -1\r\n\r\nab").is_none());
    assert!(read_frame(b"\xff\r\n\r\n").is_none());
    assert!(read_frame(b"Content-Length: 99999999999999999999999\r\n\r\n").is_none());
}

#[test]
fn header_lines_step_by_step() {
    assert!(matches!(header_step(b"Content-Length: 12\r\n", 0), HeaderStep::More(12)));
    assert!(matches!(header_step(b"X: y\r\n", 12), HeaderStep::More(12)));
    assert!(matches!(header_step(b"\r\n", 12), HeaderStep::Body(12)));
    assert!(matches!(header_step(b"Content-Length: \r\n", 12), HeaderStep::Broken));
    assert!(matches!(header_step(b"\xc3\r\n", 12), HeaderStep::Broken));
    assert!(matches!(header_step(b"content-length: 3\r\n", 12), HeaderStep::More(12)));
}
