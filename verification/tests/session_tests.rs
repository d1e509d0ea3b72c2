use betcode_daemon::session::{MultiplexerConfig, MultiplexerError, SessionMultiplexer, SessionState};

#[test]
fn multiplexer_default_config() {
    let c = MultiplexerConfig::default();
    assert_eq!((c.max_clients, c.broadcast_capacity, c.heartbeat_timeout), (5, 256, 30_000));
}

#[test]
fn session_state_counts_clients_and_sequence() {
    let mut s = SessionState::new("s1".to_string());
    assert!(s.is_empty());
    assert_eq!(s.sequence(), 0);
    assert_eq!(s.next_sequence(), 1);
    assert_eq!(s.next_sequence(), 2);
    s.add_client("c1".to_string(), "cli".to_string(), 0);
    assert!(s.contains_client("c1"));
    assert_eq!(s.client_count(), 1);
    assert!(s.remove_client("c1"));
    assert!(!s.remove_client("c1"));
}

#[test]
fn only_one_client_holds_the_input_lock() {
    let mut m = SessionMultiplexer::with_defaults();
    m.subscribe("s1", "a", "cli", 0).unwrap();
    m.subscribe("s1", "b", "web", 0).unwrap();
    let first = m.request_input_lock("s1", "a").unwrap();
    assert!(first.granted);
    let second = m.request_input_lock("s1", "b").unwrap();
    assert!(!second.granted);
    assert_eq!(second.previous_holder.as_deref(), Some("a"));
    assert!(m.has_input_lock("s1", "a"));
    assert!(!m.has_input_lock("s1", "b"));
    m.release_input_lock("s1", "a");
    assert!(m.request_input_lock("s1", "b").unwrap().granted);
}

#[test]
fn subscribe_limits_and_duplicates() {
    let mut m = SessionMultiplexer::new(MultiplexerConfig { max_clients: 1, broadcast_capacity: 8, heartbeat_timeout: 10 });
    m.subscribe("s1", "a", "cli", 0).unwrap();
    assert!(matches!(m.subscribe("s1", "b", "cli", 0), Err(MultiplexerError::TooManyClients { max: 1, .. })));
    let mut m2 = SessionMultiplexer::with_defaults();
    m2.subscribe("s1", "a", "cli", 0).unwrap();
    assert!(matches!(m2.subscribe("s1", "a", "cli", 0), Err(MultiplexerError::ClientAlreadyConnected { .. })));
    assert!(matches!(m2.request_input_lock("nope", "a"), Err(MultiplexerError::SessionNotFound { .. })));
}

#[test]
fn stale_clients_are_dropped() {
    let mut m = SessionMultiplexer::new(MultiplexerConfig { max_clients: 5, broadcast_capacity: 8, heartbeat_timeout: 100 });
    m.subscribe("s1", "old", "cli", 0).unwrap();
    m.subscribe("s1", "fresh", "cli", 150).unwrap();
    let removed = m.cleanup_stale_clients(200);
    assert_eq!(removed, vec![("s1".to_string(), "old".to_string())]);
    assert_eq!(m.stats().total_clients, 1);
    m.heartbeat("s1", "fresh", 1_000);
    assert!(m.cleanup_stale_clients(1_050).is_empty());
}

#[test]
fn sequences_are_per_session() {
    let mut m = SessionMultiplexer::with_defaults();
    assert!(m.get_or_create_session("s1"));
    assert!(!m.get_or_create_session("s1"));
    assert_eq!(m.next_sequence("s1"), Some(1));
    assert_eq!(m.next_sequence("s1"), Some(2));
    assert_eq!(m.next_sequence("s2"), None);
}

#[test]
fn adding_a_connected_client_replaces_its_entry() {
    let mut s = SessionState::new("s1".to_string());
    s.add_client("c1".to_string(), "cli".to_string(), 0);
    s.add_client("c1".to_string(), "web".to_string(), 5);
    assert_eq!(s.client_count(), 1);
    assert!(s.contains_client("c1"));
    assert!(s.remove_client("c1"));
    assert!(s.is_empty());
}
