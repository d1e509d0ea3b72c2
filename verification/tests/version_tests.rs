use betcode_daemon::version::{
    is_feature_supported, negotiate, parse_version, version_satisfies_min, VersionServiceImpl,
};

#[test]
fn test_parse_version_string() {
    assert_eq!(parse_version("agent-cli v1.0.22 (build-2024-12-01)"), Some("1.0.22".to_string()));
    assert_eq!(parse_version("agent-cli v2.1.0"), Some("2.1.0".to_string()));
    assert_eq!(parse_version("unexpected output"), None);
}

#[test]
fn version_comparison_basic() {
    assert!(version_satisfies_min("0.1.0", "0.1.0"));
    assert!(version_satisfies_min("0.2.0", "0.1.0"));
    assert!(version_satisfies_min("1.0.0", "0.1.0"));
    assert!(!version_satisfies_min("0.0.9", "0.1.0"));
    assert!(!version_satisfies_min("0.0.1", "0.1.0"));
}

#[test]
fn version_comparison_with_prerelease() {
    assert!(!version_satisfies_min("0.1.0-alpha.1", "0.1.0"));
    assert!(version_satisfies_min("0.1.1-alpha.1", "0.1.0"));
    assert!(!version_satisfies_min("0.0.9-beta.1", "0.1.0"));
}

#[test]
fn version_comparison_invalid() {
    assert!(!version_satisfies_min("invalid", "0.1.0"));
    assert!(!version_satisfies_min("", "0.1.0"));
    assert!(!version_satisfies_min("1.0", "0.1.0"));
}

#[test]
fn negotiation_checks_client_version() {
    assert!(negotiate(&vec![], "0.1.0").accepted);
    let n = negotiate(&vec![], "not-a-version");
    assert!(!n.accepted);
    assert_eq!(n.rejection_reason, "Client version not-a-version is below minimum required version 0.1.0");
    assert!(n.warnings.is_empty());
}

#[test]
fn negotiation_grants_supported_features() {
    let n = negotiate(&vec!["streaming".to_string(), "teleport".to_string(), "plugins".to_string()], "");
    assert!(n.accepted);
    assert_eq!(n.rejection_reason, "");
    assert_eq!(n.granted_features, vec!["streaming", "plugins"]);
    assert_eq!(
        n.warnings,
        vec!["Unsupported feature: teleport", "Client version not specified; cannot verify compatibility"]
    );
}

#[test]
fn feature_support() {
    for f in ["streaming", "worktrees", "plugins", "session_grants", "e2e_encryption"] {
        assert!(is_feature_supported(f));
    }
    assert!(!is_feature_supported("subagents"));
}

#[test]
fn feature_flags() {
    let svc = VersionServiceImpl::new(vec![("subagents".to_string(), true), ("beta".to_string(), false)]);
    assert!(svc.subagents_enabled());
    assert_eq!(svc.enabled_features(), vec!["subagents"]);
    let none = VersionServiceImpl::new(vec![]);
    assert!(!none.subagents_enabled());
}
