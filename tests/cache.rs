use storm_server::cache::{Cache, CacheTee, WritePlan};
use storm_server::conf::{Conf, ConfBuilder};
use storm_server::relay::UpstreamRelay;
use storm_server::server::rewrite_upstream_head;

fn cache_conf() -> Conf {
    let mut c = ConfBuilder::defaults(b"/srv".to_vec());
    c.cache_enabled = true;
    c.cache_dir = Some(b"/var/cache/storm".to_vec());
    c.cache_patterns = vec![b"/api".to_vec()];
    c
}

#[test]
fn key_names_are_sanitized() {
    assert_eq!(Cache::key_to_filename(b"/api/users"), b"api_users".to_vec());
    assert_eq!(Cache::key_to_filename(b"//a?b&c|d<e>f*g\"h\\i:j"), b"_a_b_c_d_e_f_g_h_i_j".to_vec());
    assert_eq!(Cache::key_to_filename(b"plain"), b"plain".to_vec());
}

#[test]
fn qualification_needs_cache_and_pattern() {
    let mut c = cache_conf();
    assert!(Cache::qualifies(b"/api/users", &c));
    assert!(!Cache::qualifies(b"/web", &c));
    c.cache_enabled = false;
    assert!(!Cache::qualifies(b"/api/users", &c));
}

#[test]
fn upstream_head_loses_cache_request_header() {
    let c = cache_conf();
    let head = b"HTTP/1.1 200 OK\r\nX-Cache-Request: /api/users\r\nContent-Type: application/json\r\n\r\n";
    let (out, control) = rewrite_upstream_head(head, &c);
    assert_eq!(out, b"HTTP/1.1 200 OK\r\nContent-Type: application/json\r\n\r\n".to_vec());
    assert_eq!(control.store, Some(b"/var/cache/storm/api_users".to_vec()));
    assert_eq!(control.delete, None);
}

#[test]
fn cached_entry_is_served_on_second_request() {
    let c = cache_conf();
    assert_eq!(Cache::try_serve_cached(b"/api/users", b"/api/users", &c), Some(b"/var/cache/storm/api_users".to_vec()));
    assert_eq!(Cache::try_serve_cached(b"/web/x", b"/web/x", &c), None);
}

#[test]
fn lock_files_are_never_served_or_admitted() {
    let c = cache_conf();
    assert_eq!(Cache::try_serve_cached(b"/api/users.lock", b"/api/users.lock", &c), None);
    let mut h = vec![(b"X-Cache-Request".to_vec(), b"/api/x.lock".to_vec())];
    assert_eq!(Cache::process_headers(&mut h, &c).store, None);
    assert!(h.is_empty());
}

#[test]
fn first_writer_wins() {
    assert!(matches!(Cache::write(b"first", b"/c/api_users", true), WritePlan::Skip));
    assert!(matches!(Cache::write(b"second", b"/c/api_users", true), WritePlan::Skip));
    match Cache::write(b"bytes", b"/c/api_users", false) {
        WritePlan::Publish { lock, target } => {
            assert_eq!(lock, b"/c/api_users.lock".to_vec());
            assert_eq!(target, b"/c/api_users".to_vec());
        }
        WritePlan::Skip => panic!("expected a plan"),
    }
}

#[test]
fn delete_like_selects_prefixed_entries() {
    let c = cache_conf();
    let mut h = vec![
        (b"Content-Type".to_vec(), b"text/plain".to_vec()),
        (b"x-cache-delete-like".to_vec(), b"/api/users".to_vec()),
    ];
    let control = Cache::process_headers(&mut h, &c);
    assert_eq!(h, vec![(b"Content-Type".to_vec(), b"text/plain".to_vec())]);
    let like = control.delete_like.unwrap();
    let names = vec![b"api_users".to_vec(), b"api_users_1".to_vec(), b"api_orders".to_vec()];
    let paths = Cache::delete_like(&c, &like, &names);
    assert_eq!(paths, vec![b"/var/cache/storm/api_users".to_vec(), b"/var/cache/storm/api_users_1".to_vec()]);
}

#[test]
fn cache_off_leaves_headers() {
    let mut c = cache_conf();
    c.cache_enabled = false;
    let mut h = vec![(b"X-Cache-Delete".to_vec(), b"/a".to_vec())];
    let control = Cache::process_headers(&mut h, &c);
    assert_eq!(h.len(), 1);
    assert!(control.delete.is_none());
    assert_eq!(Cache::delete(&c, b"/a"), None);
}

#[test]
fn relay_keeps_what_it_sends() {
    let c = cache_conf();
    let mut relay = UpstreamRelay::new(&c);
    let mut sent = Vec::new();
    let parts: [&[u8]; 4] = [b"HTTP/1.1 200 OK\r\nX-Cache-Req", b"uest: /api/users\r\nContent-Type: application/json\r", b"\n\r\n[", b"]"];
    let mut asked = None;
    for p in parts {
        let (out, control) = relay.accept(p, &c);
        if control.is_some() {
            asked = control;
        }
        sent.extend(out);
    }
    assert_eq!(sent, b"HTTP/1.1 200 OK\r\nContent-Type: application/json\r\n\r\n[]".to_vec());
    assert_eq!(asked.unwrap().store, Some(b"/var/cache/storm/api_users".to_vec()));
    let (rest, store) = relay.finish();
    assert!(rest.is_empty());
    let (entry, bytes) = store.unwrap();
    assert_eq!(entry, b"/var/cache/storm/api_users".to_vec());
    assert_eq!(bytes, sent);
}

#[test]
fn relay_passes_incomplete_head_at_end() {
    let c = cache_conf();
    let mut relay = UpstreamRelay::new(&c);
    let (out, control) = relay.accept(b"HTTP/1.1 200", &c);
    assert!(out.is_empty() && control.is_none());
    let (rest, store) = relay.finish();
    assert_eq!(rest, b"HTTP/1.1 200".to_vec());
    assert!(store.is_none());
}

#[test]
fn tee_stores_what_was_written() {
    let mut tee = CacheTee::new(Some(b"/c/e".to_vec()));
    tee.record(b"HTTP/1.1 200 OK\r\n");
    tee.record(b"body");
    assert_eq!(tee.finish(), Some((b"/c/e".to_vec(), b"HTTP/1.1 200 OK\r\nbody".to_vec())));
    let mut off = CacheTee::new(None);
    off.record(b"x");
    assert_eq!(off.finish(), None);
}
