use betcode_daemon::plugin::{PluginConfig, PluginHealth, PluginManager, PluginStatus};
use std::time::Duration;

#[test]
fn test_plugin_health_state_machine() {
    let mut health = PluginHealth::new(3, 10);
    assert_eq!(health.status(), PluginStatus::Healthy);
    health.record_failure();
    health.record_failure();
    health.record_failure();
    assert_eq!(health.status(), PluginStatus::Degraded);
    for _ in 0..7 {
        health.record_failure();
    }
    assert_eq!(health.status(), PluginStatus::Unavailable);
    health.reset();
    assert_eq!(health.status(), PluginStatus::Healthy);
}

#[test]
fn test_plugin_health_success_resets_failures() {
    let mut health = PluginHealth::new(3, 10);
    health.record_failure();
    health.record_failure();
    health.record_success();
    assert_eq!(health.status(), PluginStatus::Healthy);
}

#[test]
fn test_plugin_manager_add_remove() {
    let mut manager = PluginManager::new();
    manager.add_plugin("test", "/tmp/test.sock", Duration::from_secs(30));
    let plugins = manager.list_plugins();
    assert_eq!(plugins.len(), 1);
    assert_eq!(plugins[0].name, "test");
    manager.remove_plugin("test");
    assert!(manager.list_plugins().is_empty());
}

#[test]
fn test_plugin_manager_enable_disable() {
    let mut manager = PluginManager::new();
    manager.add_plugin("test", "/tmp/test.sock", Duration::from_secs(30));
    manager.disable_plugin("test").unwrap();
    let plugins = manager.list_plugins();
    assert!(!plugins[0].enabled);
    manager.enable_plugin("test").unwrap();
    let plugins = manager.list_plugins();
    assert!(plugins[0].enabled);
}

#[test]
fn test_plugin_manager_get_all_commands() {
    let manager = PluginManager::new();
    let commands = manager.get_all_plugin_commands();
    assert!(commands.is_empty());
}

// Own tests.

#[test]
fn health_thresholds_are_inclusive() {
    let mut health = PluginHealth::new(2, 4);
    health.record_failure();
    assert_eq!(health.status(), PluginStatus::Healthy);
    health.record_failure();
    assert_eq!(health.status(), PluginStatus::Degraded);
    health.record_failure();
    health.record_failure();
    assert_eq!(health.status(), PluginStatus::Unavailable);
    health.record_success();
    assert_eq!(health.status(), PluginStatus::Healthy);
}

#[test]
fn unknown_plugin_is_reported_not_found() {
    let mut manager = PluginManager::new();
    let err = manager.enable_plugin("ghost").unwrap_err();
    assert_eq!(err.to_string(), "plugin 'ghost' not found");
    assert!(manager.disable_plugin("ghost").is_err());
    assert!(manager.get_plugin_status("ghost").is_none());
}

#[test]
fn adding_a_plugin_twice_replaces_it() {
    let mut manager = PluginManager::new();
    manager.add_plugin("p", "/a.sock", Duration::from_secs(1));
    manager.add_plugin("p", "/b.sock", Duration::from_secs(2));
    assert_eq!(manager.list_plugins().len(), 1);
    assert_eq!(manager.get_plugin_status("p").unwrap().socket_path, "/b.sock");
}

#[test]
fn plugin_config_edits() {
    let mut config = PluginConfig::new();
    config.add_plugin("p", "/p.sock");
    config.add_plugin("q", "/q.sock");
    assert_eq!(config.plugins.len(), 2);
    config.disable_plugin("p");
    assert!(!config.plugins[0].enabled);
    config.enable_plugin("p");
    assert!(config.plugins[0].enabled);
    config.remove_plugin("p");
    assert_eq!(config.plugins.len(), 1);
    assert_eq!(config.plugins[0].name, "q");
}
