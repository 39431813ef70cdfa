use storm_server::conf::ConfBuilder;
use storm_server::fcgi::{FcgiClient, FcgiError, FCGI_END_REQUEST, FCGI_PARAMS, FCGI_STDERR, FCGI_STDOUT};
use storm_server::fcgi_response::{decode_record_header, parse_cgi_head, FcgiResponse};
use storm_server::http_stream::HttpStream;
use storm_server::request::{PeerAddr, Request};
use storm_server::response::Response;

fn client() -> FcgiClient {
    FcgiClient::new(Some(9000), None, 8080, b"example.org".to_vec())
}

fn read_len(b: &[u8]) -> (usize, usize) {
    if b[0] < 128 {
        (b[0] as usize, 1)
    } else {
        (((b[0] as usize - 128) << 24) | ((b[1] as usize) << 16) | ((b[2] as usize) << 8) | b[3] as usize, 4)
    }
}

fn decode_pair(b: &[u8]) -> (Vec<u8>, Vec<u8>) {
    let (nl, k1) = read_len(b);
    let (vl, k2) = read_len(&b[k1..]);
    let rest = &b[k1 + k2..];
    (rest[..nl].to_vec(), rest[nl..nl + vl].to_vec())
}

/// Splits a byte stream into (type, content) records.
fn records(mut b: &[u8]) -> Vec<(u8, Vec<u8>)> {
    let mut out = Vec::new();
    while !b.is_empty() {
        let h = decode_record_header(&b[..8]);
        let len = h.content_length as usize;
        let pad = h.padding_length as usize;
        assert_eq!((8 + len + pad) % 8, 0);
        out.push((h.record_type, b[8..8 + len].to_vec()));
        b = &b[8 + len + pad..];
    }
    out
}

#[test]
fn record_lengths_are_padded_to_eight() {
    let c = client();
    for len in [0usize, 1, 7, 8, 9, 15, 16, 100, 4096] {
        let content = vec![7u8; len];
        let mut out = Vec::new();
        c.write_record(&mut out, FCGI_PARAMS, 1, &content);
        let pad = (8 - len % 8) % 8;
        assert_eq!(out.len(), 8 + len + pad);
        assert_eq!(out.len() % 8, 0);
        assert_eq!(&out[..8], &[1, FCGI_PARAMS, 0, 1, (len >> 8) as u8, len as u8, pad as u8, 0]);
        assert!(out[8 + len..].iter().all(|&x| x == 0));
    }
}

#[test]
fn name_value_round_trip_short_and_long() {
    let c = client();
    let enc = c.encode_name_value(b"QUERY_STRING", b"x=1");
    assert_eq!(enc[0], 12);
    assert_eq!(enc[1], 3);
    assert_eq!(decode_pair(&enc), (b"QUERY_STRING".to_vec(), b"x=1".to_vec()));
    let long = vec![b'v'; 300];
    let enc = c.encode_name_value(b"N", &long);
    assert_eq!(&enc[1..5], &[0x80, 0, 1, 44]);
    assert_eq!(decode_pair(&enc), (b"N".to_vec(), long));
}

fn app_request() -> Request {
    let stream = HttpStream::new(b"GET /app.php?x=1 HTTP/1.1\r\nHost: example.org\r\nCookie: a=b\r\n\r\n".to_vec()).unwrap();
    let conf = ConfBuilder::defaults(b"/srv/www".to_vec());
    Request::new(stream, PeerAddr { ip: b"127.0.0.1".to_vec(), port: 5000 }, &conf)
}

#[test]
fn request_records_carry_the_cgi_params() {
    let c = client();
    let req = app_request();
    let bytes = c.handle(&req).unwrap();
    let recs = records(&bytes);
    assert_eq!(recs[0], (1, vec![0, 1, 0, 0, 0, 0, 0, 0]));
    assert_eq!(recs.last().unwrap(), &(FCGI_PARAMS, vec![]));
    let params: Vec<(Vec<u8>, Vec<u8>)> = recs[1..recs.len() - 1].iter().map(|(t, c)| {
        assert_eq!(*t, FCGI_PARAMS);
        decode_pair(c)
    }).collect();
    let get = |n: &str| params.iter().find(|(k, _)| k.as_slice() == n.as_bytes()).map(|(_, v)| v.clone());
    assert_eq!(get("QUERY_STRING"), Some(b"x=1".to_vec()));
    assert_eq!(get("SCRIPT_FILENAME"), Some(b"/srv/www/app.php".to_vec()));
    assert_eq!(get("SCRIPT_NAME"), Some(b"/app.php".to_vec()));
    assert_eq!(get("REQUEST_URI"), Some(b"/app.php?x=1".to_vec()));
    assert_eq!(get("REMOTE_PORT"), Some(b"5000".to_vec()));
    assert_eq!(get("SERVER_PORT"), Some(b"8080".to_vec()));
    assert_eq!(get("SERVER_NAME"), Some(b"example.org".to_vec()));
    assert_eq!(get("HTTP_Host"), Some(b"example.org".to_vec()));
    assert_eq!(get("HTTP_COOKIE"), Some(b"a=b".to_vec()));
    assert_eq!(params[0], (b"GATEWAY_INTERFACE".to_vec(), b"CGI/1.1".to_vec()));
    assert_eq!(params[13], (b"PATH_INFO".to_vec(), vec![]));
}

#[test]
fn oversized_param_is_refused() {
    let mut head = b"GET / HTTP/1.1\r\nX: ".to_vec();
    head.extend(vec![b'a'; 70000]);
    head.extend_from_slice(b"\r\n\r\n");
    let stream = HttpStream::new(head).unwrap();
    let conf = ConfBuilder::defaults(b"/srv".to_vec());
    let req = Request::new(stream, PeerAddr { ip: b"::1".to_vec(), port: 1 }, &conf);
    assert_eq!(client().handle(&req).err(), Some(FcgiError::ParamTooLong));
}

#[test]
fn responder_output_becomes_a_response() {
    let mut r = FcgiResponse::new();
    r.accept_record(FCGI_STDERR, b"warning");
    r.accept_record(FCGI_STDOUT, b"Status: 201 Created\r\nContent-Type: application/json\r\n\r\n{\"ok\"");
    assert!(r.head_ready());
    r.accept_record(FCGI_STDOUT, b":true}");
    r.accept_record(FCGI_END_REQUEST, &[0; 8]);
    assert_eq!(r.status(), 201);
    let resp = Response::php(&r);
    let head = resp.head_bytes(resp.headers());
    assert_eq!(head, b"HTTP/1.1 201 OK\r\nConnection:close\nContent-Type: application/json\r\n\r\n".to_vec());
    let mut body = Vec::new();
    loop {
        let chunk = r.read(4);
        if chunk.is_empty() {
            break;
        }
        body.extend(chunk);
    }
    assert_eq!(body, b"{\"ok\":true}".to_vec());
    assert!(r.at_end());
}

#[test]
fn cgi_head_without_status_is_200() {
    let (status, headers) = parse_cgi_head(b"Content-Type: text/html\r\nX-A:b");
    assert_eq!(status, 200);
    assert_eq!(headers, vec![
        (b"Connection".to_vec(), b"close".to_vec()),
        (b"Content-Type".to_vec(), b" text/html".to_vec()),
        (b"X-A".to_vec(), b"b".to_vec()),
    ]);
    let (status, _) = parse_cgi_head(b"status:   404   Not Found");
    assert_eq!(status, 404);
}

#[test]
fn responder_ending_without_head_keeps_defaults() {
    let mut r = FcgiResponse::new();
    r.accept_record(FCGI_STDOUT, b"plain");
    assert!(r.wants_record());
    r.close();
    assert!(r.head_ready());
    assert_eq!(r.status(), 200);
    assert_eq!(r.read(100), b"plain".to_vec());
}
