use betcode_daemon::commands::{
    merge_discovery, CommandCategory, CommandEntry, CommandRegistry, ExecutionMode,
};

fn make_entry(name: &str, source: &str) -> CommandEntry {
    CommandEntry::new(
        name,
        &format!("{name} description"),
        CommandCategory::Mcp,
        ExecutionMode::Passthrough,
        source,
    )
}

#[test]
fn test_registry_loads_builtins() {
    let registry = CommandRegistry::new();
    let entries = registry.get_all();
    assert!(entries.iter().any(|e| e.name == "cd"));
    assert!(entries.iter().any(|e| e.name == "pwd"));
}

#[test]
fn test_registry_add_commands() {
    let mut registry = CommandRegistry::new();
    let cmd = CommandEntry::new(
        "deploy",
        "Deploy the app",
        CommandCategory::ClaudeCode,
        ExecutionMode::Passthrough,
        "cli-code",
    );
    registry.add(cmd);
    assert!(registry.get_all().iter().any(|e| e.name == "deploy"));
}

#[test]
fn test_registry_fuzzy_search() {
    let registry = CommandRegistry::new();
    let results = registry.search("pw", 10);
    assert!(!results.is_empty());
    assert_eq!(results[0].name, "pwd");
}

#[test]
fn test_registry_clear_and_reload() {
    let mut registry = CommandRegistry::new();
    registry.clear_source("built-in");
    let after_clear = registry.get_all().len();
    assert_eq!(after_clear, 0);
}

#[test]
fn get_for_session_returns_base_plus_session() {
    let mut registry = CommandRegistry::new();
    let base_count = registry.get_all().len();

    registry.set_session_entries("s1", vec![make_entry("mcp-tool-a", "mcp-server-a")]);

    let for_session = registry.get_for_session("s1");
    assert_eq!(for_session.len(), base_count + 1);
    assert!(for_session.iter().any(|e| e.name == "mcp-tool-a"));
    assert!(for_session.iter().any(|e| e.name == "cd"));
}

#[test]
fn get_for_session_unknown_session_returns_base_only() {
    let registry = CommandRegistry::new();
    let base = registry.get_all();
    let for_unknown = registry.get_for_session("nonexistent");
    assert_eq!(for_unknown.len(), base.len());
}

#[test]
fn sessions_are_isolated() {
    let mut registry = CommandRegistry::new();

    registry.set_session_entries("s1", vec![make_entry("tool-for-s1", "mcp-a")]);
    registry.set_session_entries("s2", vec![make_entry("tool-for-s2", "mcp-b")]);

    let s1_entries = registry.get_for_session("s1");
    let s2_entries = registry.get_for_session("s2");

    assert!(s1_entries.iter().any(|e| e.name == "tool-for-s1"));
    assert!(!s1_entries.iter().any(|e| e.name == "tool-for-s2"));

    assert!(s2_entries.iter().any(|e| e.name == "tool-for-s2"));
    assert!(!s2_entries.iter().any(|e| e.name == "tool-for-s1"));
}

#[test]
fn remove_session_cleans_up() {
    let mut registry = CommandRegistry::new();
    let base_count = registry.get_all().len();

    registry.set_session_entries("s1", vec![make_entry("tool-a", "mcp-a")]);
    assert_eq!(registry.get_for_session("s1").len(), base_count + 1);

    registry.remove_session("s1");
    assert_eq!(registry.get_for_session("s1").len(), base_count);
}

#[test]
fn set_session_entries_replaces_previous() {
    let mut registry = CommandRegistry::new();

    registry.set_session_entries("s1", vec![make_entry("old-tool", "mcp-old")]);
    assert!(registry.get_for_session("s1").iter().any(|e| e.name == "old-tool"));

    registry.set_session_entries("s1", vec![make_entry("new-tool", "mcp-new")]);
    let entries = registry.get_for_session("s1");
    assert!(!entries.iter().any(|e| e.name == "old-tool"));
    assert!(entries.iter().any(|e| e.name == "new-tool"));
}

#[test]
fn update_session_plugin_entries_preserves_mcp() {
    let mut registry = CommandRegistry::new();

    let mcp_entry = CommandEntry::new(
        "mcp-tool",
        "An MCP tool",
        CommandCategory::Mcp,
        ExecutionMode::Passthrough,
        "mcp-server",
    );
    let plugin_entry = CommandEntry::new(
        "old-plugin",
        "Old plugin",
        CommandCategory::Plugin,
        ExecutionMode::Passthrough,
        "my-plugin",
    );
    registry.set_session_entries("s1", vec![mcp_entry, plugin_entry]);

    let new_plugin = CommandEntry::new(
        "new-plugin",
        "New plugin",
        CommandCategory::Plugin,
        ExecutionMode::Passthrough,
        "my-plugin",
    );
    registry.update_session_plugin_entries("s1", vec![new_plugin]);

    let entries = registry.get_for_session("s1");
    assert!(entries.iter().any(|e| e.name == "mcp-tool"), "MCP entry should be preserved");
    assert!(entries.iter().any(|e| e.name == "new-plugin"), "New plugin should be present");
    assert!(!entries.iter().any(|e| e.name == "old-plugin"), "Old plugin should be replaced");
}

#[test]
fn update_session_plugin_entries_works_with_no_existing_session() {
    let mut registry = CommandRegistry::new();
    let base_count = registry.get_all().len();

    let plugin = CommandEntry::new(
        "my-plugin",
        "A plugin",
        CommandCategory::Plugin,
        ExecutionMode::Passthrough,
        "plugin-src",
    );
    registry.update_session_plugin_entries("s1", vec![plugin]);

    let entries = registry.get_for_session("s1");
    assert_eq!(entries.len(), base_count + 1);
    assert!(entries.iter().any(|e| e.name == "my-plugin"));
}

#[test]
fn remove_session_is_idempotent() {
    let mut registry = CommandRegistry::new();
    let base_count = registry.get_all().len();

    registry.set_session_entries("s1", vec![make_entry("tool-a", "src-a")]);
    registry.remove_session("s1");
    registry.remove_session("s1");

    assert_eq!(registry.get_for_session("s1").len(), base_count);
}

#[test]
fn search_for_session_searches_both_layers() {
    let mut registry = CommandRegistry::new();

    registry.set_session_entries("s1", vec![make_entry("my-mcp-tool", "mcp-server")]);

    let results = registry.search_for_session("s1", "mcp", 10);
    assert!(results.iter().any(|e| e.name == "my-mcp-tool"));

    let results = registry.search_for_session("s1", "pwd", 10);
    assert!(results.iter().any(|e| e.name == "pwd"));

    let results = registry.search_for_session("s2", "mcp", 10);
    assert!(!results.iter().any(|e| e.name == "my-mcp-tool"));
}

#[test]
fn registry_starts_with_the_five_service_commands_in_order() {
    let registry = CommandRegistry::default();
    let names: Vec<String> = registry.get_all().into_iter().map(|e| e.name).collect();
    assert_eq!(names, vec!["pwd", "cd", "bash", "exit-daemon", "reload-remote"]);
}

#[test]
fn search_is_case_insensitive_and_capped() {
    let mut registry = CommandRegistry::new();
    registry.add(make_entry("Deploy-One", "x"));
    registry.add(make_entry("deploy-two", "x"));
    registry.add(make_entry("DEPLOY-three", "x"));
    let results = registry.search("DePlOy", 2);
    let names: Vec<String> = results.into_iter().map(|e| e.name).collect();
    assert_eq!(names, vec!["Deploy-One", "deploy-two"]);
    assert!(registry.search("deploy", 0).is_empty());
}

#[test]
fn clear_source_keeps_other_sources_in_order() {
    let mut registry = CommandRegistry::new();
    registry.add(make_entry("a", "one"));
    registry.add(make_entry("b", "two"));
    registry.add(make_entry("c", "one"));
    registry.clear_source("one");
    let names: Vec<String> = registry.get_all().into_iter().map(|e| e.name).collect();
    assert_eq!(names, vec!["pwd", "cd", "bash", "exit-daemon", "reload-remote", "b"]);
}

#[test]
fn session_layer_follows_the_base_layer() {
    let mut registry = CommandRegistry::new();
    registry.set_session_entries("s1", vec![make_entry("x", "m"), make_entry("y", "m")]);
    let names: Vec<String> = registry.get_for_session("s1").into_iter().map(|e| e.name).collect();
    assert_eq!(names, vec!["pwd", "cd", "bash", "exit-daemon", "reload-remote", "x", "y"]);
}

#[test]
fn merge_discovery_keeps_the_first_of_each_name() {
    let known = vec![make_entry("help", "known"), make_entry("clear", "known")];
    let unknown = vec![make_entry("extra", "help"), make_entry("help", "help")];
    let user = vec![make_entry("my-cmd", "user"), make_entry("clear", "user")];
    let result = merge_discovery(known, Some(unknown), user);
    let names: Vec<String> = result.commands.iter().map(|e| e.name.clone()).collect();
    assert_eq!(names, vec!["help", "clear", "extra", "my-cmd"]);
    assert_eq!(result.commands[0].source, "known");
    assert_eq!(result.commands[1].source, "known");
    assert_eq!(
        result.warnings,
        vec!["Unknown command from help: extra", "Unknown command from help: help"]
    );
}

#[test]
fn merge_discovery_without_help_output_has_no_warnings() {
    let known = vec![make_entry("help", "known")];
    let user = vec![make_entry("my-cmd", "user")];
    let result = merge_discovery(known, None, user);
    let names: Vec<String> = result.commands.iter().map(|e| e.name.clone()).collect();
    assert_eq!(names, vec!["help", "my-cmd"]);
    assert!(result.warnings.is_empty());
}
