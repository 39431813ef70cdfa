use storm_server::dir_response::DirItem;
use storm_server::response::{get_mime, Response};

fn body(mut r: Response) -> Vec<u8> {
    let mut out = Vec::new();
    loop {
        let c = r.read(7);
        if c.is_empty() {
            return out;
        }
        out.extend(c);
    }
}

#[test]
fn static_file_head() {
    let r = Response::file(3, b"txt");
    let head = r.head_bytes(r.headers());
    assert_eq!(
        head,
        b"HTTP/1.1 200 OK\r\nContent-Length:3\nContent-Type:text/plain\nConnection:close\r\n\r\n".to_vec()
    );
    assert!(r.is_streamed());
}

#[test]
fn missing_path_is_404_naming_it() {
    let r = Response::not_found(b"/missing");
    assert_eq!(r.status(), 404);
    assert_eq!(r.status_line(), b"HTTP/1.1 404 OK\r\n".to_vec());
    let b = body(r);
    assert!(b.windows(8).any(|w| w == b"/missing"));
}

#[test]
fn not_found_length_header_matches_body() {
    let r = Response::not_found(b"/x");
    let len = r.headers().iter().find(|(k, _)| k.as_slice() == b"Content-Length").unwrap().1.clone();
    let b = body(r);
    assert_eq!(String::from_utf8(len).unwrap(), b.len().to_string());
}

#[test]
fn mime_types() {
    assert_eq!(get_mime(b"html"), b"text/html".to_vec());
    assert_eq!(get_mime(b"json"), b"application/json".to_vec());
    assert_eq!(get_mime(b"unknown"), b"application/octet-stream".to_vec());
}

#[test]
fn raw_script_is_plain_text() {
    let r = Response::get_php_raw_file_response();
    assert_eq!(r.head_bytes(r.headers()), b"HTTP/1.1 200 OK\r\nContent-Type:text/plain\nConnection:close\r\n\r\n".to_vec());
}

#[test]
fn directories_come_first() {
    let items = vec![
        DirItem { name: b"b.txt".to_vec(), kind: 1, size: 10 },
        DirItem { name: b"sub".to_vec(), kind: 0, size: 0 },
        DirItem { name: b"a.txt".to_vec(), kind: 1, size: 5 },
        DirItem { name: b"dir2".to_vec(), kind: 0, size: 0 },
    ];
    let sorted = Response::get_dir_items(&items);
    let names: Vec<Vec<u8>> = sorted.iter().map(|d| d.name.clone()).collect();
    assert_eq!(names, vec![b"sub".to_vec(), b"dir2".to_vec(), b"b.txt".to_vec(), b"a.txt".to_vec()]);
}

#[test]
fn directory_listing_rows() {
    let items = vec![
        DirItem { name: b"my dir".to_vec(), kind: 0, size: 0 },
        DirItem { name: b"big.bin".to_vec(), kind: 1, size: 3 * 1024 * 1024 },
        DirItem { name: b"small.txt".to_vec(), kind: 1, size: 2048 },
    ];
    let r = Response::dir(&items, b"/files", b"example.org", b"1.0");
    assert_eq!(r.status(), 200);
    let text = String::from_utf8(body(r)).unwrap();
    assert!(text.contains("<tr><td><a href=\"/files/my%20dir\">my dir...</a></td><td>DIR</td><td></td></tr>"));
    assert!(text.contains("<td>3 MB</td>"));
    assert!(text.contains("<td>2 KB</td>"));
    assert!(text.contains("<a class=\"up\" href=\"/\">Back</a>"));
    assert!(text.contains("example.org"));
}

#[test]
fn root_listing_has_no_back_link() {
    let r = Response::dir(&vec![], b"/", b"h", b"1");
    let text = String::from_utf8(body(r)).unwrap();
    assert!(!text.contains("Back"));
    let r = Response::dir(&vec![], b"/a/b/", b"h", b"1");
    let text = String::from_utf8(body(r)).unwrap();
    assert!(text.contains("href=\"/a/b\">Back"));
}

#[test]
fn listing_puts_directories_first() {
    let items = vec![
        DirItem { name: b"zfile.txt".to_vec(), kind: 1, size: 1 },
        DirItem { name: b"adir".to_vec(), kind: 0, size: 0 },
    ];
    let text = String::from_utf8(body(Response::dir(&items, b"/x", b"h", b"1"))).unwrap();
    let d = text.find("adir...").unwrap();
    let f = text.find("zfile.txt").unwrap();
    assert!(d < f);
}
