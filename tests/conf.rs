use storm_server::conf::{ConfBuilder, Endpoint};

#[test]
fn config_file_settings() {
    let mut conf = ConfBuilder::defaults(b"/srv".to_vec());
    let text = b"; a comment\nserver.port = 8080\nserver.domain=example.org\r\nserver.browsing_enabled = no\n\
load_balancer.enabled = YES\nload_balancer.servers = 127.0.0.1:9001\nload_balancer.servers = 10.0.0.2: 80\n\
cache.enabled = True\ncache.dir = /var/cache\ncache.pattern = /api\nphp.index = index.php\nunknown.key = 1\n";
    let checks = ConfBuilder::parse_file(&mut conf, text).unwrap();
    assert_eq!(conf.port, 8080);
    assert_eq!(conf.domain, b"example.org".to_vec());
    assert!(!conf.browsing_enabled);
    assert!(conf.load_balancing_enabled);
    assert_eq!(conf.load_balancing_servers, vec![
        Endpoint { ip: 0x7f00_0001, port: 9001 },
        Endpoint { ip: 0x0a00_0002, port: 80 },
    ]);
    assert!(conf.cache_enabled);
    assert_eq!(conf.cache_dir, Some(b"/var/cache".to_vec()));
    assert_eq!(conf.cache_patterns, vec![b"/api".to_vec()]);
    assert_eq!(conf.php_index, Some(b"index.php".to_vec()));
    assert_eq!(checks.len(), 1);
    assert_eq!(checks[0].path, b"/var/cache".to_vec());
    assert!(checks[0].want_dir);
    assert_eq!(checks[0].line_no, 8);
}

#[test]
fn config_errors_carry_line_numbers() {
    let mut conf = ConfBuilder::defaults(b"/srv".to_vec());
    let err = ConfBuilder::parse_file(&mut conf, b"server.port = 80\n;x\nserver.port = eighty\n").unwrap_err();
    assert_eq!(err.message(), "Port is not valid integer");
    assert_eq!(err.line(), Some(2));
    let err = ConfBuilder::parse_file(&mut conf, b"logs.min_level = trace\n").unwrap_err();
    assert_eq!(err.message(), "Invalid min log level value");
}

#[test]
fn server_addresses() {
    assert_eq!(ConfBuilder::parse_server_addr(b"192.168.1.20:8080", 1).unwrap(), Endpoint { ip: 0xc0a8_0114, port: 8080 });
    assert_eq!(ConfBuilder::parse_server_addr(b"1.2.3:80", 3).unwrap_err().message(), "Invalid load balancer server IP address");
    assert_eq!(ConfBuilder::parse_server_addr(b"1.2.3.04:80", 3).unwrap_err().message(), "Invalid load balancer server IP address");
    assert_eq!(ConfBuilder::parse_server_addr(b"1.2.3.256:80", 3).unwrap_err().message(), "Invalid load balancer server IP address");
    assert_eq!(ConfBuilder::parse_server_addr(b"1.2.3.4", 3).unwrap_err().message(), "Invalid load balancer server address");
    assert_eq!(ConfBuilder::parse_server_addr(b"1.2.3.4:x", 3).unwrap_err().message(), "Invalid load balancer port");
}

#[test]
fn numbers() {
    assert_eq!(ConfBuilder::parse_u16(b"+65535", "bad").unwrap(), 65535);
    assert!(ConfBuilder::parse_u16(b"65536", "bad").is_err());
    assert!(ConfBuilder::parse_u16(b"", "bad").is_err());
    assert_eq!(ConfBuilder::parse_usize(b"64", "bad").unwrap(), 64);
    assert_eq!(ConfBuilder::parse_i16(b"-32768", "bad").unwrap(), -32768);
    assert_eq!(ConfBuilder::parse_i16(b"32767", "bad").unwrap(), 32767);
    assert!(ConfBuilder::parse_i16(b"32768", "bad").is_err());
    assert!(ConfBuilder::parse_i16(b"-+1", "bad").is_err());
}

#[test]
fn command_line_options() {
    let args: Vec<String> = ["prog", "-f", "host.conf", "-p", "81"].iter().map(|s| s.to_string()).collect();
    let s = ConfBuilder::parse_args(&args).unwrap();
    assert_eq!(s.file, Some("host.conf".to_string()));
    assert_eq!(s.port, Some(81));
    assert_eq!(s.dir, None);
    let args: Vec<String> = ["prog", "-p", "x"].iter().map(|s| s.to_string()).collect();
    assert_eq!(ConfBuilder::parse_args(&args).unwrap_err().message(), "Port is not valid integer");
}
