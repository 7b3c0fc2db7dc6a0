use rapid_net::config::{RapidServerConfig, SocketType};

#[test]
fn dummy_test() {
    // This test is just a placeholder for non-Unix platforms
    println!("Unix socket tests are skipped on non-Unix platforms");
}

#[test]
fn unix_server_config() {
    let cfg = RapidServerConfig::new("/tmp/rapid_net_test.sock".to_string(), true, Some(SocketType::Unix));
    assert_eq!(cfg.socket_type(), &SocketType::Unix);
    assert_eq!(cfg.address(), "/tmp/rapid_net_test.sock");
}
