use remote_juggler_config::identity::{GpgConfig, Identity, SecurityMode, SshKeyType};

fn identity(provider: &str, host: &str, user: &str, key: &str) -> Identity {
    Identity {
        provider: provider.to_string(),
        host: host.to_string(),
        hostname: "gitlab.com".to_string(),
        user: user.to_string(),
        email: "test@example.com".to_string(),
        ssh_key_path: key.to_string(),
        credential_source: "none".to_string(),
        organizations: vec![],
        gpg: GpgConfig::default(),
    }
}

#[test]
fn test_identity_display_name() {
    let identity = Identity {
        provider: "github".to_string(),
        host: "github.com".to_string(),
        hostname: "github.com".to_string(),
        user: "testuser".to_string(),
        email: "test@example.com".to_string(),
        ssh_key_path: String::new(),
        credential_source: "none".to_string(),
        organizations: vec![],
        gpg: GpgConfig::default(),
    };

    assert_eq!(identity.display_name(), "testuser (github)");
}

#[test]
fn test_identity_is_security_key() {
    let regular = Identity {
        provider: "gitlab".to_string(),
        host: "gitlab-personal".to_string(),
        hostname: "gitlab.com".to_string(),
        user: "testuser".to_string(),
        email: "test@example.com".to_string(),
        ssh_key_path: "/home/user/.ssh/gitlab-personal".to_string(),
        credential_source: "none".to_string(),
        organizations: vec![],
        gpg: GpgConfig::default(),
    };

    let security_key = Identity {
        provider: "gitlab".to_string(),
        host: "gitlab-personal-sk".to_string(),
        hostname: "gitlab.com".to_string(),
        user: "testuser".to_string(),
        email: "test@example.com".to_string(),
        ssh_key_path: "/home/user/.ssh/gitlab-personal-sk".to_string(),
        credential_source: "none".to_string(),
        organizations: vec![],
        gpg: GpgConfig::default(),
    };

    assert!(!regular.is_security_key());
    assert!(security_key.is_security_key());
}

#[test]
fn test_ssh_key_type_display() {
    assert_eq!(SshKeyType::Regular.display_name(), "SSH Key");
    assert_eq!(SshKeyType::Fido2.display_name(), "Security Key (FIDO2)");
    assert_eq!(SshKeyType::Regular.short_name(), "SSH");
    assert_eq!(SshKeyType::Fido2.short_name(), "SK");
}

#[test]
fn display_name_falls_back_to_host_without_user() {
    let id = identity("gitlab", "gitlab-work", "", "~/.ssh/id_work");
    assert_eq!(id.display_name(), "gitlab-work");
}

#[test]
fn display_name_is_not_empty_with_user_or_host() {
    for (user, host) in [("alice", ""), ("", "h"), ("bob", "gitlab-bob")] {
        let id = identity("gitlab", host, user, "");
        assert!(!id.display_name().is_empty());
    }
}

#[test]
fn display_name_is_empty_without_user_and_host() {
    let id = identity("gitlab", "", "", "");
    assert_eq!(id.display_name(), "");
}

#[test]
fn security_key_is_told_by_host_or_key_path() {
    assert!(identity("github", "work-sk", "a", "~/.ssh/work").is_security_key());
    assert!(identity("github", "work", "a", "~/.ssh/work-sk").is_security_key());
    assert!(!identity("github", "work", "a", "~/.ssh/work").is_security_key());
    assert!(!identity("github", "sk", "a", "-s").is_security_key());
    assert!(identity("github", "-sk", "a", "").is_security_key());
    assert!(!identity("github", "work-sk-old", "a", "~/.ssh/work-sk.pub").is_security_key());
    assert_eq!(
        identity("github", "work-sk", "a", "").key_type(),
        SshKeyType::Fido2
    );
    assert_eq!(
        identity("github", "work", "a", "").key_type(),
        SshKeyType::Regular
    );
}

#[test]
fn security_key_suffix_after_wide_characters() {
    assert!(identity("github", "clé-sk", "a", "").is_security_key());
    assert!(!identity("github", "clé-s", "a", "").is_security_key());
}

#[test]
fn gpg_signing_needs_key_and_switch() {
    for key_id in ["", "ABCD1234ABCD1234"] {
        for sign_commits in [false, true] {
            let mut id = identity("github", "work", "alice", "");
            id.gpg.key_id = key_id.to_string();
            id.gpg.sign_commits = sign_commits;
            assert_eq!(id.has_gpg_signing(), !key_id.is_empty() && sign_commits);
        }
    }
}

#[test]
fn gpg_config_default_values() {
    let gpg = GpgConfig::default();
    assert_eq!(gpg.key_id, "");
    assert!(!gpg.sign_commits);
    assert!(!gpg.sign_tags);
    assert!(!gpg.auto_signoff);
    assert_eq!(gpg.security_mode, SecurityMode::DeveloperWorkflow);
    assert!(gpg.pin_storage_method.is_none());
}

#[test]
fn identity_clone_is_equal() {
    let mut id = identity("github", "work", "alice", "~/.ssh/work");
    id.organizations = vec!["acme".to_string(), "tools".to_string()];
    id.gpg.pin_storage_method = Some("tpm".to_string());
    assert_eq!(id.clone(), id);
}
