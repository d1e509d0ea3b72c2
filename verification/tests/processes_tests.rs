use betcode_daemon::processes::ProcessRegistry;
use betcode_daemon::subprocess::SubprocessError;

#[test]
fn manager_respects_pool_limit() {
    let registry = ProcessRegistry::new(2);
    assert_eq!(registry.active_count(), 0);
    assert_eq!(registry.capacity(), 2);
}

#[test]
fn full_registry_refuses_with_count_and_limit() {
    let mut registry = ProcessRegistry::new(1);
    assert!(registry.check_spawn().is_ok());
    let h = registry.record_spawn("p1".to_string(), "/work".to_string());
    assert_eq!(h.id, "p1");
    assert_eq!(h.session_id, None);
    assert_eq!(h.working_directory, "/work");
    assert_eq!(registry.active_count(), 1);
    match registry.check_spawn() {
        Err(SubprocessError::PoolExhausted { current, max }) => {
            assert_eq!(current, 1);
            assert_eq!(max, 1);
        }
        other => panic!("unexpected {other:?}"),
    }
}

#[test]
fn session_ids_and_removal() {
    let mut registry = ProcessRegistry::new(3);
    registry.record_spawn("p1".to_string(), "/a".to_string());
    registry.record_spawn("p2".to_string(), "/b".to_string());
    assert!(registry.set_session_id("p2", "s-9".to_string()).is_ok());
    assert!(matches!(
        registry.set_session_id("zz", "s".to_string()),
        Err(SubprocessError::ProcessNotFound { id }) if id == "zz"
    ));
    let p = registry.remove("p2").unwrap();
    assert_eq!(p.session_id.as_deref(), Some("s-9"));
    assert_eq!(p.working_directory, "/b");
    assert_eq!(registry.active_count(), 1);
    assert!(registry.find("p1").is_ok());
    assert!(matches!(registry.find("p2"), Err(SubprocessError::ProcessNotFound { .. })));
    assert!(matches!(registry.remove("p2"), Err(SubprocessError::ProcessNotFound { .. })));
}

#[test]
fn recording_an_existing_id_replaces_it() {
    let mut registry = ProcessRegistry::new(3);
    registry.record_spawn("p1".to_string(), "/a".to_string());
    registry.record_spawn("p1".to_string(), "/b".to_string());
    assert_eq!(registry.active_count(), 1);
    assert_eq!(registry.remove("p1").unwrap().working_directory, "/b");
}
