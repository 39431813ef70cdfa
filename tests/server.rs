use storm_server::conf::{Conf, ConfBuilder, Endpoint};
use storm_server::dispatcher::Dispatcher;
use storm_server::http_stream::HttpStream;
use storm_server::logger::Logger;
use storm_server::php::Php;
use storm_server::request::{resolve_local_path, PeerAddr, Request};
use storm_server::server::{check_listener, extension, route, select_host, PathFacts, Route, ServerError};

fn host(domain: &str) -> Conf {
    let mut c = ConfBuilder::defaults(b"/srv".to_vec());
    c.domain = domain.as_bytes().to_vec();
    c
}

#[test]
fn traversal_keeps_document_root() {
    assert_eq!(resolve_local_path(b"/srv/www", b"/../etc/passwd"), b"/srv/www".to_vec());
    assert_eq!(resolve_local_path(b"/srv/www", b"/a/b/.."), b"/srv/www".to_vec());
    assert_eq!(resolve_local_path(b"/srv/www", b"/a%20b.txt"), b"/srv/www/a b.txt".to_vec());
    assert_eq!(resolve_local_path(b"/srv/www", b"/%2e%2e/x"), b"/srv/www/../x".to_vec());
}

#[test]
fn request_resolves_file_path() {
    let stream = HttpStream::new(b"GET /hello.txt HTTP/1.1\r\n\r\n".to_vec()).unwrap();
    let conf = ConfBuilder::defaults(b"/srv".to_vec());
    let mut r = Request::new(stream, PeerAddr { ip: b"1.2.3.4".to_vec(), port: 9 }, &conf);
    assert_eq!(r.file_path(), b"/srv/hello.txt");
    assert!(!r.has_body());
    r.rewrite(b"/srv/index.php".to_vec());
    assert_eq!(r.file_path(), b"/srv/index.php");
}

#[test]
fn dispatcher_rotates_fairly() {
    let mut conf = ConfBuilder::defaults(b"/".to_vec());
    conf.load_balancing_servers = vec![
        Endpoint { ip: 1, port: 1 },
        Endpoint { ip: 2, port: 2 },
        Endpoint { ip: 3, port: 3 },
    ];
    let mut d = Dispatcher::new(&conf);
    let mut counts = [0usize; 3];
    for t in 0..12 {
        let e = d.get().unwrap();
        assert_eq!(e, conf.load_balancing_servers[t % 3]);
        counts[(e.ip - 1) as usize] += 1;
    }
    assert_eq!(counts, [4, 4, 4]);
}

#[test]
fn dispatcher_without_upstreams() {
    let conf = ConfBuilder::defaults(b"/".to_vec());
    let mut d = Dispatcher::new(&conf);
    assert_eq!(d.get(), None);
}

#[test]
fn listener_configurations_must_agree() {
    assert_eq!(check_listener(&vec![]), Err(ServerError::NoHosts));
    let a = host("a");
    let mut b = host("b");
    assert_eq!(check_listener(&vec![host("a"), host("b")]), Ok((80, false)));
    b.port = 81;
    assert_eq!(check_listener(&vec![a, b]), Err(ServerError::PortMismatch));
    let mut c = host("c");
    c.https_enabled = true;
    assert_eq!(check_listener(&vec![host("a"), c]), Err(ServerError::TlsMismatch));
}

#[test]
fn virtual_host_selection() {
    let one = vec![host("a")];
    assert_eq!(select_host(&vec![], &one), Some(0));
    let two = vec![host("a"), host("b")];
    assert_eq!(select_host(&vec![], &two), None);
    assert_eq!(select_host(&vec![(b"HOST".to_vec(), b"b".to_vec())], &two), Some(1));
    assert_eq!(select_host(&vec![(b"host".to_vec(), b"c".to_vec())], &two), None);
}

#[test]
fn extensions() {
    assert_eq!(extension(b"/a/b.php"), Some(b"php".to_vec()));
    assert_eq!(extension(b"/a.d/b"), None);
    assert_eq!(extension(b"/a/.hidden"), None);
    assert_eq!(extension(b"/a/x.tar.gz"), Some(b"gz".to_vec()));
}

#[test]
fn routing() {
    let mut conf = ConfBuilder::defaults(b"/srv".to_vec());
    let file = PathFacts { is_file: true, is_dir: false, index_is_file: false };
    let dir = PathFacts { is_file: false, is_dir: true, index_is_file: true };
    let none = PathFacts { is_file: false, is_dir: false, index_is_file: false };
    assert_eq!(route(b"/srv/app.php", file, &conf), Route::Php);
    assert_eq!(route(b"/srv/hello.txt", file, &conf), Route::File);
    assert_eq!(route(b"/srv/d", dir, &conf), Route::Dir);
    assert_eq!(route(b"/srv/missing", none, &conf), Route::NotFound);
    conf.php_index = Some(b"index.php".to_vec());
    assert_eq!(route(b"/srv/d", dir, &conf), Route::IndexPhp);
    conf.browsing_enabled = false;
    assert_eq!(route(b"/srv/d", none, &conf), Route::NotFound);
}

#[test]
fn php_port_choice() {
    let conf = ConfBuilder::defaults(b"/srv".to_vec());
    let php = Php::with_probe(&conf, true);
    let client = php.get_client().unwrap();
    assert_eq!(client.port(), Some(7077));
    let php = Php::with_probe(&conf, false);
    assert_eq!(php.get_client().unwrap().port(), Some(9000));
    let mut off = ConfBuilder::defaults(b"/srv".to_vec());
    off.php_enabled = false;
    assert!(Php::with_probe(&off, true).get_client().is_none());
}

#[test]
fn log_lines() {
    assert_eq!(Logger::format_line(b"INFO", b"up", b"2024-01-01 00:00:00"), b"INFO| up| 2024-01-01 00:00:00".to_vec());
    let l = Logger::new(None);
    let line = l.log_d(b"hello").unwrap();
    assert!(line.starts_with(b"DEBUG| hello| "));
    assert!(l.log_file().is_none());
}
