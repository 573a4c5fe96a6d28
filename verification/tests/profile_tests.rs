use remote_juggler_config::{
    Config, GpgConfig, Identity, Profile, Settings, SshKeyType, SshVariant, State, TextMap,
};

fn identity(provider: &str, user: &str, host: &str) -> Identity {
    Identity {
        provider: provider.to_string(),
        host: host.to_string(),
        hostname: format!("{}.com", provider),
        user: user.to_string(),
        email: format!("{}@{}.example", user, host),
        ssh_key_path: format!("~/.ssh/{}", host),
        credential_source: "none".to_string(),
        organizations: vec![],
        gpg: GpgConfig::default(),
    }
}

fn config(identities: Vec<(&str, Identity)>, current: &str) -> Config {
    let mut map: TextMap<Identity> = TextMap::new();
    for (name, identity) in identities {
        map.insert(name.to_string(), identity);
    }
    Config {
        schema: None,
        version: "1.0".to_string(),
        generated: "2024-01-01T00:00:00Z".to_string(),
        identities: map,
        settings: Settings::default(),
        state: State {
            current_identity: current.to_string(),
            last_switch: String::new(),
        },
        extra: TextMap::new(),
    }
}

fn sample() -> Config {
    config(
        vec![
            ("gitlab-personal-sk", identity("gitlab", "alice", "gitlab-personal-sk")),
            ("github-work", identity("github", "alice", "github-work")),
            ("gitlab-personal", identity("gitlab", "alice", "gitlab-personal")),
            ("bitbucket", identity("bitbucket", "bob", "bitbucket-sk")),
            ("github-oss", identity("github", "carol", "github-oss")),
            ("github-work-sk", identity("github", "alice", "github-work-sk")),
        ],
        "github-work-sk",
    )
}

fn names(profile: &Profile) -> Vec<(&str, SshKeyType)> {
    profile
        .variants
        .iter()
        .map(|v| (v.identity_name.as_str(), v.key_type))
        .collect()
}

#[test]
fn test_profiles_grouping() {
    let config = sample();
    let profiles = config.profiles();

    println!(
        "Identities: {}, Profiles: {}",
        config.identities.len(),
        profiles.len()
    );

    for profile in &profiles {
        println!(
            "Profile: {} ({}) - {} variants",
            profile.name,
            profile.provider,
            profile.variants.len()
        );
        for variant in &profile.variants {
            println!(
                "  - {} ({})",
                variant.identity_name,
                variant.key_type.short_name()
            );
        }
    }

    // Each profile should have at least one variant
    for profile in &profiles {
        assert!(
            !profile.variants.is_empty(),
            "Profile {} has no variants",
            profile.name
        );
    }
}

#[test]
fn test_profile_variant_methods() {
    let config = sample();
    let profiles = config.profiles();

    for profile in &profiles {
        // Test default_variant returns something
        assert!(
            profile.default_variant().is_some(),
            "Profile {} should have a default variant",
            profile.name
        );

        // If has multiple variants, should have both types
        if profile.has_multiple_variants() {
            assert!(
                profile.regular_variant().is_some(),
                "Profile {} with multiple variants should have regular",
                profile.name
            );
            assert!(
                profile.fido2_variant().is_some(),
                "Profile {} with multiple variants should have fido2",
                profile.name
            );
        }
    }
}

#[test]
fn sample_profiles_are_as_expected() {
    let profiles = sample().profiles();
    let summary: Vec<(&str, &str, &str, Vec<(&str, SshKeyType)>)> = profiles
        .iter()
        .map(|p| (p.name.as_str(), p.provider.as_str(), p.user.as_str(), names(p)))
        .collect();
    assert_eq!(
        summary,
        vec![
            (
                "bitbucket",
                "bitbucket",
                "bob",
                vec![("bitbucket", SshKeyType::Fido2)]
            ),
            (
                "github-oss",
                "github",
                "carol",
                vec![("github-oss", SshKeyType::Regular)]
            ),
            (
                "github-work",
                "github",
                "alice",
                vec![
                    ("github-work", SshKeyType::Regular),
                    ("github-work-sk", SshKeyType::Fido2)
                ]
            ),
            (
                "gitlab-personal",
                "gitlab",
                "alice",
                vec![
                    ("gitlab-personal", SshKeyType::Regular),
                    ("gitlab-personal-sk", SshKeyType::Fido2)
                ]
            ),
        ]
    );
    assert_eq!(
        sample().profile_names(),
        vec!["bitbucket", "github-oss", "github-work", "gitlab-personal"]
    );
}

#[test]
fn work_and_work_sk_make_one_profile() {
    let mut regular = identity("github", "alice", "work");
    regular.ssh_key_path = "~/.ssh/work".to_string();
    let mut token = identity("github", "alice", "work-sk");
    token.ssh_key_path = "~/.ssh/work-sk".to_string();
    assert!(!regular.is_security_key());
    assert!(token.is_security_key());

    let config = config(vec![("work-sk", token), ("work", regular)], "");
    let profiles = config.profiles();
    assert_eq!(profiles.len(), 1);
    assert_eq!(profiles[0].name, "work");
    assert_eq!(profiles[0].provider, "github");
    assert_eq!(profiles[0].user, "alice");
    assert_eq!(
        names(&profiles[0]),
        vec![("work", SshKeyType::Regular), ("work-sk", SshKeyType::Fido2)]
    );
    assert!(profiles[0].has_multiple_variants());
}

#[test]
fn two_users_make_two_profiles_in_name_order() {
    let config = config(
        vec![
            ("zeta", identity("gitlab", "alice", "zeta")),
            ("beta", identity("gitlab", "bob", "beta")),
        ],
        "",
    );
    let profiles = config.profiles();
    assert_eq!(profiles.len(), 2);
    assert_eq!(profiles[0].name, "beta");
    assert_eq!(profiles[0].user, "bob");
    assert_eq!(profiles[1].name, "zeta");
    assert_eq!(profiles[1].user, "alice");
    assert_eq!(config.profile_names(), vec!["beta", "zeta"]);
}

#[test]
fn nothing_selected_gives_nothing_current() {
    let mut config = sample();
    config.state.current_identity = String::new();
    assert_eq!(config.current_identity(), None);
    assert_eq!(config.current_profile(), None);
    assert_eq!(config.current_variant(), None);
}

#[test]
fn stale_selection_gives_nothing_current() {
    let mut config = sample();
    config.state.current_identity = "ghost".to_string();
    assert_eq!(config.current_identity(), None);
    assert_eq!(config.current_profile(), None);
    assert_eq!(config.current_variant(), None);
    assert_eq!(config.get_identity("ghost"), None);
}

#[test]
fn selection_gives_identity_profile_and_variant() {
    let config = sample();
    let current = config.current_identity().expect("a current identity");
    assert_eq!(current.host, "github-work-sk");

    let profile = config.current_profile().expect("a current profile");
    assert_eq!(profile.name, "github-work");
    assert_eq!(profile.provider, "github");
    assert_eq!(profile.user, "alice");
    assert_eq!(profile.variants.len(), 2);

    let variant = config.current_variant().expect("a current variant");
    assert_eq!(
        variant,
        SshVariant {
            identity_name: "github-work-sk".to_string(),
            key_type: SshKeyType::Fido2,
            identity: identity("github", "alice", "github-work-sk"),
        }
    );
    assert_eq!(variant.display_name(), "Security Key (FIDO2)");
}

#[test]
fn variants_and_identities_are_as_many() {
    for config in [
        sample(),
        config(vec![], ""),
        config(vec![("solo", identity("gitlab", "a", "solo"))], ""),
        config(
            vec![
                ("a", identity("gitlab", "u", "a")),
                ("b", identity("gitlab", "u", "b")),
                ("c", identity("gitlab", "u", "c-sk")),
                ("d", identity("github", "u", "d")),
                ("e", identity("gitlab", "v", "e")),
            ],
            "",
        ),
    ] {
        let profiles = config.profiles();
        assert!(profiles.len() <= config.identities.len());
        let total: usize = profiles.iter().map(|p| p.variants.len()).sum();
        assert_eq!(total, config.identities.len());
        assert!(profiles.iter().all(|p| !p.variants.is_empty()));
    }
}

#[test]
fn empty_config_has_no_profiles() {
    let config = config(vec![], "");
    assert!(config.profiles().is_empty());
    assert!(config.profile_names().is_empty());
    assert!(config.identity_names().is_empty());
    assert_eq!(config.get_profile("any"), None);
}

#[test]
fn profile_name_is_the_shortest_stripped_name() {
    let config = config(
        vec![
            ("personal-gitlab", identity("gitlab", "alice", "a")),
            ("pg-sk", identity("gitlab", "alice", "b-sk")),
            ("zz-long-name", identity("gitlab", "alice", "c")),
        ],
        "",
    );
    let profiles = config.profiles();
    assert_eq!(profiles.len(), 1);
    assert_eq!(profiles[0].name, "pg");
}

#[test]
fn equally_short_names_give_the_one_that_sorts_first() {
    let config = config(
        vec![
            ("bbb", identity("gitlab", "alice", "x")),
            ("aab-sk", identity("gitlab", "alice", "y")),
            ("abc", identity("gitlab", "alice", "z")),
        ],
        "",
    );
    assert_eq!(config.profiles()[0].name, "aab");
}

#[test]
fn name_length_counts_bytes() {
    let config = config(
        vec![
            ("éé", identity("gitlab", "alice", "x")),
            ("abc", identity("gitlab", "alice", "y")),
        ],
        "",
    );
    assert_eq!(config.profiles()[0].name, "abc");
}

#[test]
fn profiles_of_one_name_are_ordered_by_provider_and_user() {
    let config = config(
        vec![
            ("work", identity("gitlab", "bob", "w1")),
            ("work-sk", identity("github", "zed", "w2-sk")),
            ("other", identity("github", "amy", "w3")),
            ("work-sk-sk", identity("github", "amy", "w4")),
        ],
        "",
    );
    let profiles = config.profiles();
    let keys: Vec<(&str, &str, &str)> = profiles
        .iter()
        .map(|p| (p.name.as_str(), p.provider.as_str(), p.user.as_str()))
        .collect();
    assert_eq!(
        keys,
        vec![
            ("other", "github", "amy"),
            ("work", "github", "zed"),
            ("work", "gitlab", "bob"),
        ]
    );
    let first = config.get_profile("work").expect("a profile");
    assert_eq!(first.provider, "github");
    assert_eq!(first.user, "zed");
}

#[test]
fn variants_are_ordered_by_kind_then_name() {
    let config = config(
        vec![
            ("d", identity("gitlab", "alice", "d")),
            ("a", identity("gitlab", "alice", "a-sk")),
            ("c", identity("gitlab", "alice", "c-sk")),
            ("b", identity("gitlab", "alice", "b")),
        ],
        "",
    );
    let profiles = config.profiles();
    assert_eq!(
        names(&profiles[0]),
        vec![
            ("b", SshKeyType::Regular),
            ("d", SshKeyType::Regular),
            ("a", SshKeyType::Fido2),
            ("c", SshKeyType::Fido2),
        ]
    );
    assert_eq!(profiles[0].name, "a");
    assert_eq!(profiles[0].email, "alice@b.example");
}

#[test]
fn profile_takes_email_and_gpg_from_its_first_variant() {
    let mut first = identity("gitlab", "alice", "a");
    first.gpg.key_id = "FIRST".to_string();
    first.gpg.sign_commits = true;
    let mut second = identity("gitlab", "alice", "b");
    second.gpg.key_id = "SECOND".to_string();
    let config = config(vec![("b", second), ("a", first)], "");
    let profile = &config.profiles()[0];
    assert_eq!(profile.email, "alice@a.example");
    assert_eq!(profile.gpg.key_id, "FIRST");
    assert!(profile.has_gpg_signing());
}

#[test]
fn default_variant_prefers_the_token() {
    let config = sample();
    let profiles = config.profiles();
    let work = &profiles[2];
    assert_eq!(
        work.default_variant().map(|v| v.identity_name.as_str()),
        Some("github-work-sk")
    );
    assert_eq!(
        work.regular_variant().map(|v| v.identity_name.as_str()),
        Some("github-work")
    );
    assert_eq!(
        work.get_variant(&SshKeyType::Fido2)
            .map(|v| v.identity_name.as_str()),
        Some("github-work-sk")
    );
    let oss = &profiles[1];
    assert_eq!(
        oss.default_variant().map(|v| v.identity_name.as_str()),
        Some("github-oss")
    );
    assert_eq!(oss.fido2_variant(), None);
    assert!(!oss.has_multiple_variants());
}

#[test]
fn profile_without_variants_has_no_default() {
    let profile = Profile {
        name: "empty".to_string(),
        provider: "gitlab".to_string(),
        user: String::new(),
        email: String::new(),
        gpg: GpgConfig::default(),
        variants: vec![],
    };
    assert_eq!(profile.default_variant(), None);
    assert_eq!(profile.regular_variant(), None);
    assert!(!profile.has_multiple_variants());
    assert_eq!(profile.display_name(), "empty");
    assert!(!profile.has_gpg_signing());
}

#[test]
fn profile_display_name_shows_user_and_provider() {
    let profiles = sample().profiles();
    assert_eq!(profiles[0].display_name(), "bob (bitbucket)");
    assert_eq!(profiles[0].clone(), profiles[0]);
}

#[test]
fn profiles_do_not_depend_on_the_order_of_insertion() {
    let forward = config(
        vec![
            ("a", identity("gitlab", "u", "a")),
            ("b-sk", identity("gitlab", "u", "b-sk")),
            ("c", identity("github", "u", "c")),
        ],
        "",
    );
    let backward = config(
        vec![
            ("c", identity("github", "u", "c")),
            ("b-sk", identity("gitlab", "u", "b-sk")),
            ("a", identity("gitlab", "u", "a")),
        ],
        "",
    );
    assert_eq!(forward.profiles(), backward.profiles());
}

#[test]
fn identity_names_are_sorted_and_unique() {
    let config = sample();
    let names = config.identity_names();
    assert_eq!(
        names,
        vec![
            "bitbucket",
            "github-oss",
            "github-work",
            "github-work-sk",
            "gitlab-personal",
            "gitlab-personal-sk"
        ]
    );
    let mut sorted = names.clone();
    sorted.sort();
    sorted.dedup();
    assert_eq!(names, sorted);
}

#[test]
fn a_name_inserted_twice_is_one_identity() {
    let config = config(
        vec![
            ("same", identity("gitlab", "first", "x")),
            ("same", identity("gitlab", "second", "y")),
        ],
        "same",
    );
    assert_eq!(config.identity_names(), vec!["same"]);
    assert_eq!(
        config.current_identity().map(|i| i.user.as_str()),
        Some("second")
    );
    assert_eq!(config.profiles().len(), 1);
}
