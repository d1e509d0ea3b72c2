use betcode_daemon::health::{
    check_status, database_health, health_details, probes_database, subprocess_health, ServingStatus,
};
use betcode_daemon::timestamp::Timestamp;

fn now() -> Timestamp {
    Timestamp { seconds: 1_700_000_000, nanos: 0 }
}

#[test]
fn health_check_returns_serving() {
    assert_eq!(check_status("", true), ServingStatus::Serving);
    assert_eq!(check_status("", false), ServingStatus::NotServing);
}

#[test]
fn health_check_named_service() {
    assert_eq!(check_status("betcode.v1.AgentService", true), ServingStatus::Serving);
    assert!(probes_database("betcode.v1.AgentService"));
}

#[test]
fn health_check_unknown_service() {
    assert_eq!(check_status("nonexistent.Service", true), ServingStatus::ServiceUnknown);
    assert!(!probes_database("nonexistent.Service"));
}

#[test]
fn health_details_all_components_healthy() {
    let details = health_details(
        vec![database_health(true, now()), subprocess_health(0, 5, now())],
        "0.1.0".to_string(),
    );
    assert_eq!(details.overall_status, ServingStatus::Serving);
    assert!(!details.degraded);
    assert!(details.degraded_reason.is_empty());
    assert_eq!(details.components.len(), 2);
    let names: Vec<&str> = details.components.iter().map(|c| c.name.as_str()).collect();
    assert!(names.contains(&"database"));
    assert!(names.contains(&"subprocess_pool"));
    for comp in &details.components {
        assert_eq!(comp.status, ServingStatus::Serving);
    }
}

#[test]
fn health_details_includes_version() {
    let details = health_details(vec![database_health(true, now())], "1.2.3".to_string());
    assert_eq!(details.metadata, vec![("version".to_string(), "1.2.3".to_string())]);
}

#[test]
fn health_details_subprocess_pool_message() {
    let pool = subprocess_health(0, 5, now());
    assert!(pool.message.contains("0/5"));
    assert_eq!(pool.message, "0/5 subprocess slots in use");
    assert_eq!(subprocess_health(12, 40, now()).message, "12/40 subprocess slots in use");
}

#[test]
fn degraded_report_names_failing_components() {
    let mut broken = subprocess_health(1, 2, now());
    broken.status = ServingStatus::NotServing;
    broken.message = "stuck".to_string();
    let details = health_details(
        vec![database_health(false, now()), database_health(true, now()), broken],
        "v".to_string(),
    );
    assert_eq!(details.overall_status, ServingStatus::NotServing);
    assert!(details.degraded);
    assert_eq!(
        details.degraded_reason,
        "database: Database query failed; subprocess_pool: stuck"
    );
    assert_eq!(database_health(true, now()).message, "SQLite database operational");
}
