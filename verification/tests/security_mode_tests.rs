use remote_juggler_config::json::JsonValue;
use remote_juggler_config::SecurityMode;

#[test]
fn test_security_mode_display_names() {
    assert_eq!(
        SecurityMode::MaximumSecurity.display_name(),
        "Maximum Security"
    );
    assert_eq!(
        SecurityMode::DeveloperWorkflow.display_name(),
        "Developer Workflow"
    );
    assert_eq!(
        SecurityMode::TrustedWorkstation.display_name(),
        "Trusted Workstation"
    );
}

#[test]
fn test_security_mode_indexing() {
    assert_eq!(SecurityMode::MaximumSecurity.index(), 0);
    assert_eq!(SecurityMode::DeveloperWorkflow.index(), 1);
    assert_eq!(SecurityMode::TrustedWorkstation.index(), 2);

    assert_eq!(SecurityMode::from_index(0), SecurityMode::MaximumSecurity);
    assert_eq!(SecurityMode::from_index(1), SecurityMode::DeveloperWorkflow);
    assert_eq!(
        SecurityMode::from_index(2),
        SecurityMode::TrustedWorkstation
    );
    assert_eq!(
        SecurityMode::from_index(999),
        SecurityMode::DeveloperWorkflow
    ); // Default
}

#[test]
fn test_security_mode_all() {
    let modes = SecurityMode::all();
    assert_eq!(modes.len(), 3);
    assert_eq!(modes[0], SecurityMode::MaximumSecurity);
    assert_eq!(modes[1], SecurityMode::DeveloperWorkflow);
    assert_eq!(modes[2], SecurityMode::TrustedWorkstation);
}

#[test]
fn test_security_mode_serialization() {
    let mode = SecurityMode::TrustedWorkstation;
    let json = serde_json::to_string(mode.tag()).expect("Failed to serialize");
    assert_eq!(json, "\"trusted_workstation\"");

    let parsed = JsonValue::parse(&json).expect("Failed to parse");
    let tag = parsed.as_str().expect("Failed to parse");
    assert_eq!(
        SecurityMode::from_tag(tag),
        Some(SecurityMode::TrustedWorkstation)
    );
}

#[test]
fn security_mode_index_round_trip() {
    for index in 0u32..=2 {
        assert_eq!(SecurityMode::from_index(index).index(), index);
    }
}

#[test]
fn security_mode_tag_round_trip() {
    for mode in SecurityMode::all() {
        assert_eq!(SecurityMode::from_tag(mode.tag()), Some(mode));
    }
    assert_eq!(SecurityMode::MaximumSecurity.tag(), "maximum_security");
    assert_eq!(SecurityMode::DeveloperWorkflow.tag(), "developer_workflow");
    assert_eq!(SecurityMode::from_tag("paranoid"), None);
    assert_eq!(SecurityMode::from_tag(""), None);
    assert_eq!(SecurityMode::from_tag("Maximum_Security"), None);
}

#[test]
fn security_mode_default_is_developer_workflow() {
    assert_eq!(SecurityMode::default(), SecurityMode::DeveloperWorkflow);
}
