use remote_juggler_config::json::JsonValue;
use remote_juggler_config::{
    Config, GpgConfig, Identity, ParseError, SecurityMode, Settings, State,
};

fn to_raw(value: &JsonValue) -> serde_json::Value {
    match value {
        JsonValue::Null => serde_json::Value::Null,
        JsonValue::Bool(b) => serde_json::Value::Bool(*b),
        JsonValue::Number(n) => serde_json::from_str(n).expect("a number"),
        JsonValue::Str(s) => serde_json::Value::String(s.clone()),
        JsonValue::Array(items) => serde_json::Value::Array(items.iter().map(to_raw).collect()),
        JsonValue::Object(members) => serde_json::Value::Object(
            members.iter().map(|(k, v)| (k.clone(), to_raw(v))).collect(),
        ),
    }
}

fn to_text(value: &JsonValue) -> String {
    serde_json::to_string(&to_raw(value)).expect("Failed to serialize")
}
const FULL: &str = r#"{
    "$schema": "https://remote-juggler.dev/schema/config.json",
    "version": "2.0.0",
    "generated": "2024-01-01T00:00:00Z",
    "identities": {
        "work": {
            "provider": "github",
            "host": "github.com",
            "hostname": "github.com",
            "user": "workuser",
            "email": "work@company.com",
            "sshKeyPath": "~/.ssh/id_ed25519_work",
            "credentialSource": "keychain",
            "organizations": ["acme", "tools"],
            "gpg": {
                "keyId": "ABCD1234",
                "signCommits": true,
                "signTags": false,
                "autoSignoff": false,
                "securityMode": "trusted_workstation",
                "pinStorageMethod": "tpm"
            }
        },
        "personal": {
            "provider": "gitlab",
            "host": "gitlab-personal",
            "hostname": "gitlab.com",
            "user": "personaluser",
            "email": "personal@example.com",
            "sshKeyPath": "~/.ssh/id_ed25519_personal",
            "credentialSource": "none"
        }
    },
    "settings": {
        "defaultProvider": "github",
        "autoDetect": true,
        "useKeychain": false,
        "gpgSign": true,
        "gpgVerifyWithProvider": false,
        "fallbackToSSH": true,
        "verboseLogging": true
    },
    "state": {
        "currentIdentity": "work",
        "lastSwitch": "2024-02-03T04:05:06Z"
    },
    "managedBlocks": {"ssh": [1, 2.5, null, true]},
    "note": "kept"
}"#;

const MINIMAL: &str = r#"{"version": "2.0.0", "generated": "", "identities": {}}"#;

fn identity_json(extra: &str) -> String {
    format!(
        r#"{{
            "provider": "github",
            "host": "test.com",
            "hostname": "test.com",
            "user": "testuser",
            "email": "t@example.com",
            "sshKeyPath": "~/.ssh/id",
            "credentialSource": "env"{}
        }}"#,
        extra
    )
}

#[test]
fn test_gpg_config_full() {
    let json = r#"{
        "keyId": "ABC123",
        "signCommits": true,
        "signTags": true,
        "autoSignoff": true,
        "securityMode": "maximum_security",
        "pinStorageMethod": "secure_enclave"
    }"#;

    let doc = JsonValue::parse(json).expect("Failed to parse");
    let gpg = GpgConfig::from_json(&doc).expect("Failed to parse");

    assert_eq!(gpg.key_id, "ABC123");
    assert!(gpg.sign_commits);
    assert!(gpg.sign_tags);
    assert!(gpg.auto_signoff);
    assert_eq!(gpg.security_mode, SecurityMode::MaximumSecurity);
    assert_eq!(gpg.pin_storage_method, Some("secure_enclave".to_string()));
}

#[test]
fn load_minimal_config() {
    let config = Config::load(MINIMAL).expect("Failed to parse config");
    assert_eq!(config.version, "2.0.0");
    assert_eq!(config.generated, "");
    assert_eq!(config.schema, None);
    assert_eq!(config.identities.len(), 0);
    assert_eq!(config.settings, Settings::default());
    assert_eq!(config.state, State::default());
    assert_eq!(config.extra.len(), 0);
}

#[test]
fn load_full_config() {
    let config = Config::load(FULL).expect("Failed to parse config");

    assert_eq!(
        config.schema,
        Some("https://remote-juggler.dev/schema/config.json".to_string())
    );
    assert_eq!(config.version, "2.0.0");
    assert_eq!(config.generated, "2024-01-01T00:00:00Z");
    assert_eq!(config.identities.len(), 2);

    let personal = config
        .get_identity("personal")
        .expect("Missing personal identity");
    assert_eq!(personal.provider, "gitlab");
    assert_eq!(personal.host, "gitlab-personal");
    assert_eq!(personal.hostname, "gitlab.com");
    assert_eq!(personal.user, "personaluser");
    assert_eq!(personal.email, "personal@example.com");
    assert_eq!(personal.ssh_key_path, "~/.ssh/id_ed25519_personal");
    assert_eq!(personal.credential_source, "none");
    assert!(personal.organizations.is_empty());
    assert_eq!(personal.gpg, GpgConfig::default());

    let work = config.get_identity("work").expect("Missing work identity");
    assert_eq!(work.provider, "github");
    assert_eq!(
        work.organizations,
        vec!["acme".to_string(), "tools".to_string()]
    );
    assert_eq!(work.gpg.key_id, "ABCD1234");
    assert!(work.gpg.sign_commits);
    assert!(!work.gpg.sign_tags);
    assert!(!work.gpg.auto_signoff);
    assert_eq!(work.gpg.security_mode, SecurityMode::TrustedWorkstation);
    assert_eq!(work.gpg.pin_storage_method, Some("tpm".to_string()));

    assert_eq!(config.settings.default_provider, "github");
    assert!(config.settings.auto_detect);
    assert!(!config.settings.use_keychain);
    assert!(config.settings.gpg_sign);
    assert!(!config.settings.gpg_verify_with_provider);
    assert!(config.settings.fallback_to_ssh);
    assert!(config.settings.verbose_logging);

    assert_eq!(config.state.current_identity, "work");
    assert_eq!(config.state.last_switch, "2024-02-03T04:05:06Z");
}

#[test]
fn settings_and_state_defaults() {
    let settings = Settings::default();
    assert_eq!(settings.default_provider, "gitlab");
    assert!(settings.auto_detect);
    assert!(settings.use_keychain);
    assert!(settings.gpg_sign);
    assert!(settings.gpg_verify_with_provider);
    assert!(settings.fallback_to_ssh);
    assert!(!settings.verbose_logging);

    let state = State::default();
    assert_eq!(state.current_identity, "");
    assert_eq!(state.last_switch, "");
}

#[test]
fn malformed_text_is_told_from_wrong_shape() {
    for text in ["", "{", "{\"version\": }", "not json", "{\"a\": 1,}", "[1, 2"] {
        match Config::load(text) {
            Err(ParseError::Malformed(message)) => assert!(!message.is_empty()),
            other => panic!("expected a malformed text, got {:?}", other),
        }
    }
    for text in [
        "null",
        "[]",
        "\"text\"",
        "42",
        "{}",
        r#"{"version": "1", "generated": "g"}"#,
        r#"{"generated": "g", "identities": {}}"#,
        r#"{"version": "1", "identities": {}}"#,
        r#"{"version": 1, "generated": "g", "identities": {}}"#,
        r#"{"version": null, "generated": "g", "identities": {}}"#,
        r#"{"version": "1", "generated": "g", "identities": []}"#,
        r#"{"version": "1", "generated": "g", "identities": null}"#,
        r#"{"version": "1", "generated": "g", "identities": {"a": {}}}"#,
        r#"{"version": "1", "generated": "g", "identities": {}, "settings": {}}"#,
        r#"{"version": "1", "generated": "g", "identities": {}, "settings": null}"#,
        r#"{"version": "1", "generated": "g", "identities": {}, "state": {"currentIdentity": "a"}}"#,
        r#"{"version": "1", "generated": "g", "identities": {}, "state": []}"#,
        r#"{"$schema": 7, "version": "1", "generated": "g", "identities": {}}"#,
    ] {
        assert_eq!(Config::load(text), Err(ParseError::Shape), "{}", text);
    }
}

#[test]
fn schema_may_be_null() {
    let config = Config::load(
        r#"{"$schema": null, "version": "1", "generated": "g", "identities": {}}"#,
    )
    .expect("Failed to parse config");
    assert_eq!(config.schema, None);
}

#[test]
fn unknown_top_level_members_are_kept() {
    let config = Config::load(FULL).expect("Failed to parse config");
    assert_eq!(config.extra.len(), 2);
    assert_eq!(config.extra.key_at(0), "managedBlocks");
    assert_eq!(config.extra.key_at(1), "note");
    assert_eq!(
        config.extra.get("note"),
        Some(&JsonValue::Str("kept".to_string()))
    );
    let blocks = JsonValue::parse(r#"{"ssh": [1, 2.5, null, true]}"#).expect("Failed to parse");
    assert_eq!(config.extra.get("managedBlocks"), Some(&blocks));
    assert_eq!(config.extra.get("version"), None);
    assert_eq!(config.extra.get("identities"), None);
    assert!(!config.extra.contains_key("state"));
}

#[test]
fn adding_an_unknown_member_keeps_the_rest() {
    let plain = Config::load(MINIMAL).expect("Failed to parse config");
    let text = r#"{"version": "2.0.0", "generated": "", "identities": {}, "custom_key": "some value 1"}"#;
    let with_extra = Config::load(text).expect("Failed to parse config");
    assert_eq!(
        with_extra.extra.get("custom_key"),
        Some(&JsonValue::Str("some value 1".to_string()))
    );
    assert_eq!(with_extra.extra.len(), 1);
    assert_eq!(with_extra.version, plain.version);
    assert_eq!(with_extra.identities, plain.identities);
    assert_eq!(with_extra.settings, plain.settings);
    assert_eq!(with_extra.state, plain.state);
}

#[test]
fn unknown_members_of_parts_are_passed_over() {
    let text = format!(
        r#"{{"version": "1", "generated": "g", "identities": {{"a": {}}}}}"#,
        identity_json(r#", "keepassxcEntry": "x", "gpg": {"keyId": "", "signCommits": false, "signTags": false, "autoSignoff": false, "format": "ssh"}"#)
    );
    let config = Config::load(&text).expect("Failed to parse config");
    assert_eq!(config.extra.len(), 0);
    let a = config.get_identity("a").expect("Missing identity");
    assert_eq!(a.gpg, GpgConfig::default());
}

#[test]
fn identity_needs_every_member_but_organizations_and_gpg() {
    let whole = JsonValue::parse(&identity_json("")).expect("Failed to parse");
    let identity = Identity::from_json(&whole).expect("Failed to parse");
    assert_eq!(identity.provider, "github");
    assert_eq!(identity.credential_source, "env");
    assert!(identity.organizations.is_empty());
    assert_eq!(identity.gpg, GpgConfig::default());

    for key in [
        "provider",
        "host",
        "hostname",
        "user",
        "email",
        "sshKeyPath",
        "credentialSource",
    ] {
        let members: Vec<(String, JsonValue)> = whole
            .as_object()
            .expect("an object")
            .iter()
            .filter(|(k, _)| k != key)
            .map(|(k, v)| (k.clone(), v.clone()))
            .collect();
        assert_eq!(Identity::from_json(&JsonValue::Object(members)), None, "{}", key);
    }
}

#[test]
fn identity_members_of_another_kind_are_refused() {
    for extra in [
        r#", "organizations": "acme""#,
        r#", "organizations": ["acme", 1]"#,
        r#", "organizations": null"#,
        r#", "gpg": null"#,
        r#", "gpg": {}"#,
        r#", "gpg": {"keyId": "K", "signCommits": true, "signTags": true}"#,
        r#", "gpg": {"keyId": "K", "signCommits": "yes", "signTags": true, "autoSignoff": true}"#,
        r#", "gpg": {"keyId": "K", "signCommits": true, "signTags": true, "autoSignoff": true, "securityMode": "paranoid"}"#,
        r#", "gpg": {"keyId": "K", "signCommits": true, "signTags": true, "autoSignoff": true, "securityMode": null}"#,
        r#", "gpg": {"keyId": "K", "signCommits": true, "signTags": true, "autoSignoff": true, "pinStorageMethod": 3}"#,
    ] {
        let doc = JsonValue::parse(&identity_json(extra)).expect("Failed to parse");
        assert_eq!(Identity::from_json(&doc), None, "{}", extra);
    }
    let doc = JsonValue::parse(&identity_json(
        r#", "gpg": {"keyId": "K", "signCommits": true, "signTags": true, "autoSignoff": true, "pinStorageMethod": null}"#,
    ))
    .expect("Failed to parse");
    let identity = Identity::from_json(&doc).expect("Failed to parse");
    assert_eq!(identity.gpg.pin_storage_method, None);
    assert_eq!(identity.gpg.security_mode, SecurityMode::DeveloperWorkflow);
}

#[test]
fn gpg_config_needs_its_switches() {
    let doc = JsonValue::parse("{}").expect("Failed to parse");
    assert_eq!(GpgConfig::from_json(&doc), None);
}

#[test]
fn identity_provider_is_any_text() {
    for provider in ["gitlab", "github", "bitbucket", "codeberg", ""] {
        let json = identity_json("").replace("\"github\"", &format!("\"{}\"", provider));
        let doc = JsonValue::parse(&json).expect("Failed to parse");
        let identity = Identity::from_json(&doc).expect("Failed to parse");
        assert_eq!(identity.provider, provider);
    }
}

#[test]
fn written_config_reads_back() {
    for text in [FULL, MINIMAL] {
        let config = Config::load(text).expect("Failed to parse config");
        let written = to_text(&config.to_json());
        let again = Config::load(&written).expect("Failed to parse config");
        assert_eq!(again.version, config.version);
        assert_eq!(again.identities.len(), config.identities.len());
        assert_eq!(again.identity_names(), config.identity_names());
        assert_eq!(
            again.settings.default_provider,
            config.settings.default_provider
        );
        assert_eq!(again.state.current_identity, config.state.current_identity);
        assert_eq!(again, config);
    }
}

#[test]
fn written_document_reads_back_without_text() {
    let config = Config::load(FULL).expect("Failed to parse config");
    assert_eq!(Config::from_json(&config.to_json()), Ok(config));
}

#[test]
fn written_config_has_its_members_in_order() {
    let config = Config::load(
        r#"{"zeta": 1, "identities": {}, "generated": "g", "version": "1", "alpha": [true]}"#,
    )
    .expect("Failed to parse config");
    assert_eq!(
        to_text(&config.to_json()),
        concat_all(&[
            r#"{"alpha":[true],"generated":"g","identities":{},"#,
            r#""settings":{"autoDetect":true,"defaultProvider":"gitlab","fallbackToSSH":true,"#,
            r#""gpgSign":true,"gpgVerifyWithProvider":true,"useKeychain":true,"#,
            r#""verboseLogging":false},"state":{"currentIdentity":"","lastSwitch":""},"#,
            r#""version":"1","zeta":1}"#,
        ])
    );
}

fn concat_all(parts: &[&str]) -> String {
    parts.iter().map(|p| p.to_string()).collect()
}

#[test]
fn pin_storage_method_is_left_out_when_absent() {
    let mut gpg = GpgConfig::default();
    let members = gpg.to_json();
    assert_eq!(members.as_object().expect("an object").len(), 5);
    assert!(members
        .as_object()
        .expect("an object")
        .iter()
        .all(|(k, _)| k != "pinStorageMethod"));
    gpg.pin_storage_method = Some("keychain".to_string());
    let members = gpg.to_json();
    assert_eq!(
        members.as_object().expect("an object")[5],
        (
            "pinStorageMethod".to_string(),
            JsonValue::Str("keychain".to_string())
        )
    );
    assert_eq!(GpgConfig::from_json(&members), Some(gpg));
}

#[test]
fn a_later_member_wins_over_an_earlier_one() {
    let doc = JsonValue::Object(vec![
        ("currentIdentity".to_string(), JsonValue::Str("a".to_string())),
        ("lastSwitch".to_string(), JsonValue::Str("t".to_string())),
        ("currentIdentity".to_string(), JsonValue::Str("b".to_string())),
    ]);
    let state = State::from_json(&doc).expect("Failed to parse");
    assert_eq!(state.current_identity, "b");
}
