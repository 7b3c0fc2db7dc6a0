use rapid_net::config::{RapidClientConfig, RapidServerConfig, SocketType};

#[test]
fn server_config_defaults_to_tcp() {
    let cfg = RapidServerConfig::new("127.0.0.1:9000".to_string(), true, None);
    assert_eq!(cfg.address(), "127.0.0.1:9000");
    assert!(cfg.no_delay());
    assert_eq!(cfg.socket_type(), &SocketType::Tcp);
    assert_eq!(cfg.unix_path(), None);
}

#[test]
fn server_config_with_unix_path() {
    let cfg = RapidServerConfig::new_with_unix_path(
        "/tmp/rapid.sock".to_string(),
        false,
        Some(SocketType::Unix),
        Some("/tmp/rapid.sock".to_string()),
    );
    assert_eq!(cfg.address(), "/tmp/rapid.sock");
    assert!(!cfg.no_delay());
    assert_eq!(cfg.socket_type(), &SocketType::Unix);
    assert_eq!(cfg.unix_path(), Some("/tmp/rapid.sock"));
}

#[test]
fn client_config_defaults_to_tcp() {
    let cfg = RapidClientConfig::new("127.0.0.1:9001".to_string(), false, None);
    assert_eq!(cfg.address(), "127.0.0.1:9001");
    assert!(!cfg.no_delay());
    assert_eq!(cfg.socket_type(), &SocketType::Tcp);
    assert_eq!(cfg.unix_path(), None);
}

#[test]
fn client_config_with_unix_path() {
    let cfg = RapidClientConfig::new_with_unix_path(
        "/tmp/c.sock".to_string(),
        true,
        Some(SocketType::Unix),
        Some("/tmp/other.sock".to_string()),
    );
    assert_eq!(cfg.address(), "/tmp/c.sock");
    assert!(cfg.no_delay());
    assert_eq!(cfg.socket_type(), &SocketType::Unix);
    assert_eq!(cfg.unix_path(), Some("/tmp/other.sock"));
}

#[test]
fn socket_type_default_is_tcp() {
    assert_eq!(SocketType::default(), SocketType::Tcp);
    assert_eq!(RapidServerConfig::default().socket_type(), &SocketType::Tcp);
}

#[test]
fn new_equals_new_with_unix_path_none() {
    let a = RapidClientConfig::new("x".to_string(), true, Some(SocketType::Unix));
    let b = RapidClientConfig::new_with_unix_path("x".to_string(), true, Some(SocketType::Unix), None);
    assert_eq!(a.address(), b.address());
    assert_eq!(a.no_delay(), b.no_delay());
    assert_eq!(a.socket_type(), b.socket_type());
    assert_eq!(a.unix_path(), b.unix_path());
}

#[test]
fn default_configs_enable_no_delay() {
    let s = RapidServerConfig::default();
    assert!(s.no_delay());
    assert_eq!(s.address(), "");
    assert_eq!(s.socket_type(), &SocketType::Tcp);
    assert_eq!(s.unix_path(), None);
    let c = RapidClientConfig::default();
    assert!(c.no_delay());
    assert_eq!(c.address(), "");
    assert_eq!(c.socket_type(), &SocketType::Tcp);
    assert_eq!(c.unix_path(), None);
}
