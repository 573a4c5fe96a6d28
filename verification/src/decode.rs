//! From a JSON document to a configuration.
//!
//! Every part of a configuration is a JSON object. A member that the part
//! needs and the object lacks, or holds with a value of another kind, makes
//! the document no configuration. Members of a part that the part does not
//! know are passed over, but for those of the document itself, which are kept.

use vstd::prelude::*;
use crate::config::{Config, ConfigView, ParseError};
use crate::identity::{
    opt_text, texts, GpgConfig, GpgConfigView, Identity, IdentityView, SecurityMode,
};
use crate::json::{
    find_member, lemma_items_model, lemma_members_model, member, members_model, parsed_text, Json,
    JsonValue,
};
use crate::settings::{Settings, SettingsView, State, StateView};
use crate::text::same_text;
use crate::text_map::{sorted_from, TextMap};

verus! {

/// The text of the member `key`, which must be there and be a string.
pub open spec fn text_field(m: Seq<(Seq<char>, Json)>, key: Seq<char>) -> Option<Seq<char>> {
    match member(m, key) {
        Some(Json::Str(s)) => Some(s),
        _ => None,
    }
}

/// The value of the member `key`, which must be there and be a boolean.
pub open spec fn flag_field(m: Seq<(Seq<char>, Json)>, key: Seq<char>) -> Option<bool> {
    match member(m, key) {
        Some(Json::Bool(b)) => Some(b),
        _ => None,
    }
}

/// The text of the member `key`, which may be missing or null and must
/// else be a string. The outer `None` stands for a value of another kind.
pub open spec fn optional_text_field(m: Seq<(Seq<char>, Json)>, key: Seq<char>) -> Option<
    Option<Seq<char>>,
> {
    match member(m, key) {
        None => Some(None),
        Some(Json::Null) => Some(None),
        Some(Json::Str(s)) => Some(Some(s)),
        _ => None,
    }
}

/// The texts of an array of strings.
pub open spec fn text_items(items: Seq<Json>) -> Option<Seq<Seq<char>>>
    decreases items.len(),
{
    if items.len() == 0 {
        Some(Seq::empty())
    } else {
        match (text_items(items.drop_last()), items.last()) {
            (Some(rest), Json::Str(s)) => Some(rest.push(s)),
            _ => None,
        }
    }
}

/// The security mode that the member `securityMode` names: the default
/// mode where it is missing.
pub open spec fn mode_field(m: Seq<(Seq<char>, Json)>) -> Option<SecurityMode> {
    match member(m, "securityMode"@) {
        None => Some(SecurityMode::DeveloperWorkflow),
        Some(Json::Str(tag)) => SecurityMode::of_tag(tag),
        _ => None,
    }
}

/// The signing setup that a document holds.
pub open spec fn decode_gpg(doc: Json) -> Option<GpgConfigView> {
    match doc {
        Json::Object(m) => match (
            text_field(m, "keyId"@),
            flag_field(m, "signCommits"@),
            flag_field(m, "signTags"@),
            flag_field(m, "autoSignoff"@),
            mode_field(m),
            optional_text_field(m, "pinStorageMethod"@),
        ) {
            (
                Some(key_id),
                Some(sign_commits),
                Some(sign_tags),
                Some(auto_signoff),
                Some(security_mode),
                Some(pin_storage_method),
            ) => Some(
                GpgConfigView {
                    key_id,
                    sign_commits,
                    sign_tags,
                    auto_signoff,
                    security_mode,
                    pin_storage_method,
                },
            ),
            _ => None,
        },
        _ => None,
    }
}

/// The organizations that the member `organizations` lists: none where it
/// is missing.
pub open spec fn organizations_field(m: Seq<(Seq<char>, Json)>) -> Option<Seq<Seq<char>>> {
    match member(m, "organizations"@) {
        None => Some(Seq::empty()),
        Some(Json::Array(items)) => text_items(items),
        _ => None,
    }
}

/// The signing setup that the member `gpg` holds: that of an identity which
/// signs nothing where it is missing.
pub open spec fn gpg_field(m: Seq<(Seq<char>, Json)>) -> Option<GpgConfigView> {
    match member(m, "gpg"@) {
        None => Some(GpgConfigView::initial()),
        Some(doc) => decode_gpg(doc),
    }
}

/// The identity that a document holds.
pub open spec fn decode_identity(doc: Json) -> Option<IdentityView> {
    match doc {
        Json::Object(m) => match (
            text_field(m, "provider"@),
            text_field(m, "host"@),
            text_field(m, "hostname"@),
            text_field(m, "user"@),
            text_field(m, "email"@),
            text_field(m, "sshKeyPath"@),
            text_field(m, "credentialSource"@),
            organizations_field(m),
            gpg_field(m),
        ) {
            (
                Some(provider),
                Some(host),
                Some(hostname),
                Some(user),
                Some(email),
                Some(ssh_key_path),
                Some(credential_source),
                Some(organizations),
                Some(gpg),
            ) => Some(
                IdentityView {
                    provider,
                    host,
                    hostname,
                    user,
                    email,
                    ssh_key_path,
                    credential_source,
                    organizations,
                    gpg,
                },
            ),
            _ => None,
        },
        _ => None,
    }
}

/// The settings that a document holds.
pub open spec fn decode_settings(doc: Json) -> Option<SettingsView> {
    match doc {
        Json::Object(m) => match (
            text_field(m, "defaultProvider"@),
            flag_field(m, "autoDetect"@),
            flag_field(m, "useKeychain"@),
            flag_field(m, "gpgSign"@),
            flag_field(m, "gpgVerifyWithProvider"@),
            flag_field(m, "fallbackToSSH"@),
            flag_field(m, "verboseLogging"@),
        ) {
            (
                Some(default_provider),
                Some(auto_detect),
                Some(use_keychain),
                Some(gpg_sign),
                Some(gpg_verify_with_provider),
                Some(fallback_to_ssh),
                Some(verbose_logging),
            ) => Some(
                SettingsView {
                    default_provider,
                    auto_detect,
                    use_keychain,
                    gpg_sign,
                    gpg_verify_with_provider,
                    fallback_to_ssh,
                    verbose_logging,
                },
            ),
            _ => None,
        },
        _ => None,
    }
}

/// The selection that a document holds.
pub open spec fn decode_state(doc: Json) -> Option<StateView> {
    match doc {
        Json::Object(m) => match (
            text_field(m, "currentIdentity"@),
            text_field(m, "lastSwitch"@),
        ) {
            (Some(current_identity), Some(last_switch)) => Some(
                StateView { current_identity, last_switch },
            ),
            _ => None,
        },
        _ => None,
    }
}

/// The identities that the members of an object hold, member by member.
pub open spec fn decode_entries(m: Seq<(Seq<char>, Json)>) -> Option<Seq<(Seq<char>, IdentityView)>>
    decreases m.len(),
{
    if m.len() == 0 {
        Some(Seq::empty())
    } else {
        match (decode_entries(m.drop_last()), decode_identity(m.last().1)) {
            (Some(rest), Some(identity)) => Some(rest.push((m.last().0, identity))),
            _ => None,
        }
    }
}

/// The identities by name that a document holds, in key order.
pub open spec fn decode_identities(doc: Json) -> Option<Seq<(Seq<char>, IdentityView)>> {
    match doc {
        Json::Object(m) => match decode_entries(m) {
            Some(entries) => Some(sorted_from(entries)),
            None => None,
        },
        _ => None,
    }
}

/// `key` names a member of the configuration proper.
pub open spec fn is_known_key(key: Seq<char>) -> bool {
    ||| key == "$schema"@
    ||| key == "version"@
    ||| key == "generated"@
    ||| key == "identities"@
    ||| key == "settings"@
    ||| key == "state"@
}

/// The members of `m` that are no part of the configuration proper.
pub open spec fn unknown_members(m: Seq<(Seq<char>, Json)>) -> Seq<(Seq<char>, Json)>
    decreases m.len(),
{
    if m.len() == 0 {
        Seq::empty()
    } else if is_known_key(m.last().0) {
        unknown_members(m.drop_last())
    } else {
        unknown_members(m.drop_last()).push(m.last())
    }
}

/// The identities that the member `identities` holds; it must be there.
pub open spec fn identities_field(m: Seq<(Seq<char>, Json)>) -> Option<
    Seq<(Seq<char>, IdentityView)>,
> {
    match member(m, "identities"@) {
        Some(doc) => decode_identities(doc),
        None => None,
    }
}

/// The settings that the member `settings` holds: the initial ones where it
/// is missing.
pub open spec fn settings_field(m: Seq<(Seq<char>, Json)>) -> Option<SettingsView> {
    match member(m, "settings"@) {
        None => Some(SettingsView::initial()),
        Some(doc) => decode_settings(doc),
    }
}

/// The selection that the member `state` holds: nothing selected where it
/// is missing.
pub open spec fn state_field(m: Seq<(Seq<char>, Json)>) -> Option<StateView> {
    match member(m, "state"@) {
        None => Some(StateView::initial()),
        Some(doc) => decode_state(doc),
    }
}

/// The configuration that a document holds, or `None` where the document
/// has another shape.
pub open spec fn decode_config(doc: Json) -> Option<ConfigView> {
    match doc {
        Json::Object(m) => match (
            optional_text_field(m, "$schema"@),
            text_field(m, "version"@),
            text_field(m, "generated"@),
            identities_field(m),
            settings_field(m),
            state_field(m),
        ) {
            (
                Some(schema),
                Some(version),
                Some(generated),
                Some(identities),
                Some(settings),
                Some(state),
            ) => Some(
                ConfigView {
                    schema,
                    version,
                    generated,
                    identities,
                    settings,
                    state,
                    extra: sorted_from(unknown_members(m)),
                },
            ),
            _ => None,
        },
        _ => None,
    }
}

/// What `load` gives for a text that reads as `parsed`.
pub open spec fn load_outcome(parsed: Option<Json>, r: Result<Config, ParseError>) -> bool {
    match parsed {
        None => r matches Err(ParseError::Malformed(_)),
        Some(doc) => match decode_config(doc) {
            Some(config) => r matches Ok(c) && c@ == config,
            None => r == Err::<Config, ParseError>(ParseError::Shape),
        },
    }
}

fn required_text(m: &Vec<(String, JsonValue)>, key: &str) -> (r: Option<String>)
    ensures
        opt_text(r) == text_field(members_model(m@), key@),
{
    match find_member(m, key) {
        Some(value) => match value.as_str() {
            Some(s) => Some(s.to_owned()),
            None => None,
        },
        None => None,
    }
}

fn required_flag(m: &Vec<(String, JsonValue)>, key: &str) -> (r: Option<bool>)
    ensures
        r == flag_field(members_model(m@), key@),
{
    match find_member(m, key) {
        Some(value) => value.as_bool(),
        None => None,
    }
}

fn optional_text(m: &Vec<(String, JsonValue)>, key: &str) -> (r: Option<Option<String>>)
    ensures
        match optional_text_field(members_model(m@), key@) {
            Some(t) => r matches Some(o) && opt_text(o) == t,
            None => r is None,
        },
{
    match find_member(m, key) {
        None => Some(None),
        Some(value) => match value {
            JsonValue::Null => Some(None),
            JsonValue::Str(s) => Some(Some(s.clone())),
            _ => None,
        },
    }
}

fn text_list(items: &Vec<JsonValue>) -> (r: Option<Vec<String>>)
    ensures
        match text_items(crate::json::items_model(items@)) {
            Some(t) => r matches Some(v) && texts(v@) == t,
            None => r is None,
        },
{
    let ghost all = crate::json::items_model(items@);
    let mut out: Vec<String> = Vec::new();
    let mut i: usize = 0;
    proof {
        lemma_items_model(items@);
        assert(all.subrange(0, 0) =~= Seq::<Json>::empty());
        assert(texts(out@) =~= Seq::<Seq<char>>::empty());
    }
    while i < items.len()
        invariant
            i <= items.len(),
            all == crate::json::items_model(items@),
            all.len() == items.len(),
            text_items(all.subrange(0, i as int)) == Some(texts(out@)),
        decreases items.len() - i,
    {
        proof {
            lemma_items_model(items@);
            let next = all.subrange(0, i + 1);
            assert(next.drop_last() =~= all.subrange(0, i as int));
            assert(next.last() == items@[i as int]@);
        }
        match items[i].as_str() {
            Some(s) => {
                let ghost before = out@;
                out.push(s.to_owned());
                assert(texts(out@) =~= texts(before).push(s@));
            },
            None => {
                proof {
                    lemma_text_items_prefix(all, i + 1);
                }
                return None;
            },
        }
        i += 1;
    }
    assert(all.subrange(0, i as int) =~= all);
    Some(out)
}

/// Where a prefix of an array is no list of strings, the array is none.
pub proof fn lemma_text_items_prefix(items: Seq<Json>, n: int)
    requires
        0 <= n <= items.len(),
        text_items(items.subrange(0, n)) is None,
    ensures
        text_items(items) is None,
    decreases items.len(),
{
    if n < items.len() {
        assert(items.drop_last().subrange(0, n) =~= items.subrange(0, n));
        lemma_text_items_prefix(items.drop_last(), n);
    } else {
        assert(items.subrange(0, n) =~= items);
    }
}

/// Where a prefix of the members holds something that is no identity, the
/// members hold no identities.
pub proof fn lemma_decode_entries_prefix(m: Seq<(Seq<char>, Json)>, n: int)
    requires
        0 <= n <= m.len(),
        decode_entries(m.subrange(0, n)) is None,
    ensures
        decode_entries(m) is None,
    decreases m.len(),
{
    if n < m.len() {
        assert(m.drop_last().subrange(0, n) =~= m.subrange(0, n));
        lemma_decode_entries_prefix(m.drop_last(), n);
    } else {
        assert(m.subrange(0, n) =~= m);
    }
}

impl GpgConfig {
    /// The signing setup that a document holds, or `None` where the document
    /// has another shape.
    pub fn from_json(doc: &JsonValue) -> (r: Option<GpgConfig>)
        ensures
            match decode_gpg(doc@) {
                Some(v) => r matches Some(g) && g@ == v,
                None => r is None,
            },
    {
        let m = match doc.as_object() {
            Some(m) => m,
            None => {
                return None;
            },
        };
        let key_id = required_text(m, "keyId")?;
        let sign_commits = required_flag(m, "signCommits")?;
        let sign_tags = required_flag(m, "signTags")?;
        let auto_signoff = required_flag(m, "autoSignoff")?;
        let security_mode = match find_member(m, "securityMode") {
            None => SecurityMode::DeveloperWorkflow,
            Some(value) => match value.as_str() {
                Some(tag) => SecurityMode::from_tag(tag)?,
                None => {
                    return None;
                },
            },
        };
        let pin_storage_method = optional_text(m, "pinStorageMethod")?;
        Some(
            GpgConfig {
                key_id,
                sign_commits,
                sign_tags,
                auto_signoff,
                security_mode,
                pin_storage_method,
            },
        )
    }
}

impl Identity {
    /// The identity that a document holds, or `None` where the document has
    /// another shape.
    pub fn from_json(doc: &JsonValue) -> (r: Option<Identity>)
        ensures
            match decode_identity(doc@) {
                Some(v) => r matches Some(id) && id@ == v,
                None => r is None,
            },
    {
        let m = match doc.as_object() {
            Some(m) => m,
            None => {
                return None;
            },
        };
        let provider = required_text(m, "provider")?;
        let host = required_text(m, "host")?;
        let hostname = required_text(m, "hostname")?;
        let user = required_text(m, "user")?;
        let email = required_text(m, "email")?;
        let ssh_key_path = required_text(m, "sshKeyPath")?;
        let credential_source = required_text(m, "credentialSource")?;
        let organizations = match find_member(m, "organizations") {
            None => {
                let none: Vec<String> = Vec::new();
                assert(texts(none@) =~= Seq::<Seq<char>>::empty());
                none
            },
            Some(value) => match value.as_array() {
                Some(items) => text_list(items)?,
                None => {
                    return None;
                },
            },
        };
        let gpg = match find_member(m, "gpg") {
            None => GpgConfig::default(),
            Some(value) => GpgConfig::from_json(value)?,
        };
        Some(
            Identity {
                provider,
                host,
                hostname,
                user,
                email,
                ssh_key_path,
                credential_source,
                organizations,
                gpg,
            },
        )
    }
}

impl Settings {
    /// The settings that a document holds, or `None` where the document has
    /// another shape.
    pub fn from_json(doc: &JsonValue) -> (r: Option<Settings>)
        ensures
            match decode_settings(doc@) {
                Some(v) => r matches Some(s) && s@ == v,
                None => r is None,
            },
    {
        let m = match doc.as_object() {
            Some(m) => m,
            None => {
                return None;
            },
        };
        let default_provider = required_text(m, "defaultProvider")?;
        let auto_detect = required_flag(m, "autoDetect")?;
        let use_keychain = required_flag(m, "useKeychain")?;
        let gpg_sign = required_flag(m, "gpgSign")?;
        let gpg_verify_with_provider = required_flag(m, "gpgVerifyWithProvider")?;
        let fallback_to_ssh = required_flag(m, "fallbackToSSH")?;
        let verbose_logging = required_flag(m, "verboseLogging")?;
        Some(
            Settings {
                default_provider,
                auto_detect,
                use_keychain,
                gpg_sign,
                gpg_verify_with_provider,
                fallback_to_ssh,
                verbose_logging,
            },
        )
    }
}

impl State {
    /// The selection that a document holds, or `None` where the document
    /// has another shape.
    pub fn from_json(doc: &JsonValue) -> (r: Option<State>)
        ensures
            match decode_state(doc@) {
                Some(v) => r matches Some(s) && s@ == v,
                None => r is None,
            },
    {
        let m = match doc.as_object() {
            Some(m) => m,
            None => {
                return None;
            },
        };
        let current_identity = required_text(m, "currentIdentity")?;
        let last_switch = required_text(m, "lastSwitch")?;
        Some(State { current_identity, last_switch })
    }
}

/// Whether `key` names a member of the configuration proper.
pub fn known_key(key: &str) -> (r: bool)
    ensures
        r == is_known_key(key@),
{
    same_text(key, "$schema") || same_text(key, "version") || same_text(key, "generated")
        || same_text(key, "identities") || same_text(key, "settings") || same_text(key, "state")
}

fn identities_from(doc: &JsonValue) -> (r: Option<TextMap<Identity>>)
    ensures
        match decode_identities(doc@) {
            Some(v) => r matches Some(map) && map@ == v,
            None => r is None,
        },
{
    let m = match doc.as_object() {
        Some(m) => m,
        None => {
            return None;
        },
    };
    let ghost all = members_model(m@);
    let mut map: TextMap<Identity> = TextMap::new();
    let mut i: usize = 0;
    proof {
        lemma_members_model(m@);
        assert(all.subrange(0, 0) =~= Seq::<(Seq<char>, Json)>::empty());
    }
    while i < m.len()
        invariant
            i <= m.len(),
            all == members_model(m@),
            all.len() == m.len(),
            doc@ == Json::Object(all),
            decode_entries(all.subrange(0, i as int)) matches Some(entries) && map@ == sorted_from(
                entries,
            ),
        decreases m.len() - i,
    {
        proof {
            lemma_members_model(m@);
            let next = all.subrange(0, i + 1);
            assert(next.drop_last() =~= all.subrange(0, i as int));
            assert(next.last() == (m@[i as int].0@, m@[i as int].1@));
        }
        match Identity::from_json(&m[i].1) {
            Some(identity) => {
                proof {
                    let entries = decode_entries(all.subrange(0, i as int))->0;
                    let grown = entries.push((m@[i as int].0@, identity@));
                    assert(grown.drop_last() =~= entries);
                }
                map.insert(m[i].0.clone(), identity);
            },
            None => {
                proof {
                    lemma_decode_entries_prefix(all, i + 1);
                }
                return None;
            },
        }
        i += 1;
    }
    assert(all.subrange(0, i as int) =~= all);
    Some(map)
}

fn extra_from(m: &Vec<(String, JsonValue)>) -> (r: TextMap<JsonValue>)
    ensures
        r@ == sorted_from(unknown_members(members_model(m@))),
{
    let ghost all = members_model(m@);
    let mut map: TextMap<JsonValue> = TextMap::new();
    let mut i: usize = 0;
    proof {
        lemma_members_model(m@);
        assert(all.subrange(0, 0) =~= Seq::<(Seq<char>, Json)>::empty());
    }
    while i < m.len()
        invariant
            i <= m.len(),
            all == members_model(m@),
            all.len() == m.len(),
            map@ == sorted_from(unknown_members(all.subrange(0, i as int))),
        decreases m.len() - i,
    {
        proof {
            lemma_members_model(m@);
            let next = all.subrange(0, i + 1);
            assert(next.drop_last() =~= all.subrange(0, i as int));
            assert(next.last() == (m@[i as int].0@, m@[i as int].1@));
        }
        if !known_key(m[i].0.as_str()) {
            proof {
                let kept = unknown_members(all.subrange(0, i as int));
                let grown = kept.push((m@[i as int].0@, m@[i as int].1@));
                assert(grown.drop_last() =~= kept);
            }
            map.insert(m[i].0.clone(), m[i].1.clone());
        }
        i += 1;
    }
    assert(all.subrange(0, i as int) =~= all);
    map
}

impl Config {
    /// The configuration that a document holds.
    ///
    /// The document must be an object with the members `version` and
    /// `generated`, both strings, and `identities`, an object of identities.
    /// `$schema`, `settings` and `state` may be missing; a member of any
    /// other name goes to `extra` as it is.
    pub fn from_json(doc: &JsonValue) -> (r: Result<Config, ParseError>)
        ensures
            match decode_config(doc@) {
                Some(v) => r matches Ok(c) && c@ == v,
                None => r == Err::<Config, ParseError>(ParseError::Shape),
            },
            r matches Ok(c) ==> crate::round_trip::is_valid(c@),
    {
        let m = match doc.as_object() {
            Some(m) => m,
            None => {
                return Err(ParseError::Shape);
            },
        };
        let schema = match optional_text(m, "$schema") {
            Some(s) => s,
            None => {
                return Err(ParseError::Shape);
            },
        };
        let version = match required_text(m, "version") {
            Some(s) => s,
            None => {
                return Err(ParseError::Shape);
            },
        };
        let generated = match required_text(m, "generated") {
            Some(s) => s,
            None => {
                return Err(ParseError::Shape);
            },
        };
        let identities = match find_member(m, "identities") {
            Some(value) => match identities_from(value) {
                Some(map) => map,
                None => {
                    return Err(ParseError::Shape);
                },
            },
            None => {
                return Err(ParseError::Shape);
            },
        };
        let settings = match find_member(m, "settings") {
            None => Settings::default(),
            Some(value) => match Settings::from_json(value) {
                Some(s) => s,
                None => {
                    return Err(ParseError::Shape);
                },
            },
        };
        let state = match find_member(m, "state") {
            None => State::default(),
            Some(value) => match State::from_json(value) {
                Some(s) => s,
                None => {
                    return Err(ParseError::Shape);
                },
            },
        };
        let extra = extra_from(m);
        proof {
            crate::round_trip::lemma_decoded_is_valid(doc@);
        }
        Ok(Config { schema, version, generated, identities, settings, state, extra })
    }

    /// Reads a configuration from the text of a configuration file.
    ///
    /// A text that is no JSON gives `ParseError::Malformed`, JSON that is no
    /// configuration gives `ParseError::Shape`, and any other text gives the
    /// configuration that it holds.
    pub fn load(text: &str) -> (r: Result<Config, ParseError>)
        ensures
            load_outcome(parsed_text(text@), r),
            r matches Ok(c) ==> crate::round_trip::is_valid(c@),
    {
        match JsonValue::parse(text) {
            Ok(doc) => Config::from_json(&doc),
            Err(message) => Err(ParseError::Malformed(message)),
        }
    }
}

} // verus!
