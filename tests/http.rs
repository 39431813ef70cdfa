use storm_server::http_stream::{closed_early, frame_head, BodyRead, Framing, HeadError, HttpStream};

fn header(s: &HttpStream, name: &str) -> Option<Vec<u8>> {
    s.headers().iter().find(|(k, _)| k.as_slice() == name.as_bytes()).map(|(_, v)| v.clone())
}

#[test]
fn framing_complete_within_limit() {
    let head = b"GET / HTTP/1.1\r\nHost: a\r\n\r\n".to_vec();
    assert_eq!(frame_head(&head), Framing::Complete);
    for k in 0..head.len() - 1 {
        assert_ne!(frame_head(&head[..k]), Framing::TooLarge);
    }
}

#[test]
fn framing_head_ending_at_the_limit() {
    let mut head = b"GET / HTTP/1.1\r\nX: ".to_vec();
    while head.len() < 8192 - 4 {
        head.push(b'a');
    }
    head.extend_from_slice(b"\r\n\r\n");
    assert_eq!(head.len(), 8192);
    assert_eq!(frame_head(&head), Framing::Complete);
    assert_eq!(frame_head(&head[..8191]), Framing::NeedMore);
}

#[test]
fn framing_oversized_without_terminator() {
    let big = vec![b'a'; 8193];
    assert_eq!(frame_head(&big), Framing::TooLarge);
    assert_eq!(frame_head(&big[..8192]), Framing::NeedMore);
}

#[test]
fn closed_connection_errors() {
    assert_eq!(closed_early(0), HeadError::NoData);
    assert_eq!(closed_early(5), HeadError::NoValidHeader);
}

#[test]
fn parse_get_head() {
    let bytes = b"get /a/b.txt?x=1&y=2 HTTP/1.1\r\nHost: example\r\nAccept: */*\r\nHost: other\r\n\r\n".to_vec();
    let s = HttpStream::new(bytes).unwrap();
    assert_eq!(s.method(), b"GET");
    assert_eq!(s.query_path(), b"/a/b.txt?x=1&y=2");
    assert_eq!(s.path(), b"/a/b.txt");
    assert_eq!(s.query(), b"x=1&y=2");
    assert_eq!(s.headers().len(), 2);
    assert_eq!(header(&s, "Host"), Some(b"other".to_vec()));
    assert_eq!(s.content_length(), None);
}

#[test]
fn post_without_length_fails() {
    let bytes = b"POST /form HTTP/1.1\r\nHost: a\r\n\r\n".to_vec();
    assert_eq!(HttpStream::new(bytes).err(), Some(HeadError::ContentLengthRequired));
    let bytes = b"PUT /form HTTP/1.1\r\n\r\n".to_vec();
    assert_eq!(HttpStream::new(bytes).err(), Some(HeadError::ContentLengthRequired));
}

#[test]
fn bad_heads_fail() {
    assert_eq!(HttpStream::new(b"GET /\r\n\r\n".to_vec()).err(), Some(HeadError::MalformedRequestLine));
    assert_eq!(HttpStream::new(b"FETCH / HTTP/1.1\r\n\r\n".to_vec()).err(), Some(HeadError::InvalidMethod));
    assert_eq!(HttpStream::new(b"GET / HTTP/1.1\r\n".to_vec()).err(), Some(HeadError::NoValidHeader));
}

#[test]
fn body_is_bounded_by_content_length() {
    let bytes = b"POST /f HTTP/1.1\r\ncontent-LENGTH: 5\r\n\r\nhelloEXTRA".to_vec();
    let mut s = HttpStream::new(bytes).unwrap();
    assert_eq!(s.content_length(), Some(5));
    match s.read_body(3) {
        BodyRead::Buffered(v) => assert_eq!(v, b"hel".to_vec()),
        other => panic!("{:?}", other),
    }
    match s.read_body(100) {
        BodyRead::Buffered(v) => assert_eq!(v, b"lo".to_vec()),
        other => panic!("{:?}", other),
    }
    assert!(matches!(s.read_body(100), BodyRead::Done));
}

#[test]
fn body_from_transport_after_buffer() {
    let bytes = b"PUT /f HTTP/1.1\r\nContent-Length: 10\r\n\r\nab".to_vec();
    let mut s = HttpStream::new(bytes).unwrap();
    assert!(matches!(s.read_body(4096), BodyRead::Buffered(_)));
    match s.read_body(4096) {
        BodyRead::Transport(n) => assert_eq!(n, 8),
        other => panic!("{:?}", other),
    }
    s.note_read(8);
    assert!(matches!(s.read_body(4096), BodyRead::Done));
}

#[test]
fn header_block_rebuilds_head() {
    let bytes = b"GET /x?q HTTP/1.1\r\nHost: h\r\nAccept: a\r\n\r\n".to_vec();
    let s = HttpStream::new(bytes).unwrap();
    assert_eq!(s.header_block(), b"GET /x?q HTTP/1.1\r\nHost: h\r\nAccept: a\r\n\r\n".to_vec());
}

#[test]
fn bad_content_length_counts_as_zero() {
    let bytes = b"POST / HTTP/1.1\r\nContent-Length: abc\r\n\r\n".to_vec();
    let mut s = HttpStream::new(bytes).unwrap();
    assert_eq!(s.content_length(), Some(0));
    assert!(matches!(s.read_body(10), BodyRead::Done));
}

#[test]
fn forwarded_head_loses_cache_headers() {
    let mut conf = storm_server::conf::ConfBuilder::defaults(b"/srv".to_vec());
    conf.cache_enabled = true;
    let bytes = b"POST /api/invalidate HTTP/1.1\r\nContent-Length: 0\r\nX-Cache-Delete-Like: /api/users\r\n\r\n".to_vec();
    let mut s = HttpStream::new(bytes).unwrap();
    let control = s.strip_cache_headers(&conf);
    assert_eq!(control.delete_like, Some(b"/api/users".to_vec()));
    assert_eq!(s.header_block(), b"POST /api/invalidate HTTP/1.1\r\nContent-Length: 0\r\n\r\n".to_vec());
}

#[test]
fn head_reader_decides_within_limit() {
    let mut r = storm_server::http_stream::HeadReader::new();
    assert_eq!(r.closed(), HeadError::NoData);
    let chunk = vec![b'a'; 4096];
    assert_eq!(r.feed(&chunk), Framing::NeedMore);
    assert_eq!(r.feed(&chunk), Framing::NeedMore);
    assert_eq!(r.closed(), HeadError::NoValidHeader);
    assert_eq!(r.feed(&chunk[..1]), Framing::TooLarge);
    let mut r = storm_server::http_stream::HeadReader::new();
    assert_eq!(r.feed(b"GET / HTTP/1.1\r\n"), Framing::NeedMore);
    assert_eq!(r.feed(b"\r\nbody"), Framing::Complete);
    let s = HttpStream::new(r.take()).unwrap();
    assert_eq!(s.path(), b"/");
}
