use betcode_daemon::server_config::{ServerConfig, TcpAddress, DEFAULT_PORT};

#[test]
fn default_config() {
    let config = ServerConfig::default();
    assert!(config.tcp_addr.is_some());
    assert_eq!(config.max_sessions, 10);
    assert_eq!(config.max_clients_per_session, 5);
    assert_eq!(config.heartbeat_timeout_secs, 30);
    assert_eq!(config.tcp_addr, Some(TcpAddress { a: 127, b: 0, c: 0, d: 1, port: DEFAULT_PORT }));
    assert_eq!(DEFAULT_PORT, 50051);
}

#[test]
fn tcp_config() {
    let addr = TcpAddress { a: 127, b: 0, c: 0, d: 1, port: 8080 };
    let config = ServerConfig::tcp(addr);
    assert_eq!(config.tcp_addr, Some(addr));
    assert!(config.unix_socket.is_none());
}

#[test]
fn unix_config_and_limits() {
    let config = ServerConfig::unix("/run/betcode.sock".to_string())
        .with_max_sessions(3)
        .with_max_clients_per_session(2);
    assert!(config.tcp_addr.is_none());
    assert_eq!(config.unix_socket.as_deref(), Some("/run/betcode.sock"));
    assert_eq!(config.max_sessions, 3);
    assert_eq!(config.max_clients_per_session, 2);
    assert_eq!(config.heartbeat_timeout_secs, 30);
}
