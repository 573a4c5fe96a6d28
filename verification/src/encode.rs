//! From a configuration to a JSON document.
//!
//! The document holds every part of the configuration under the key by which
//! `decode` looks for it, and after them the extra members as they are.

use vstd::prelude::*;
use crate::config::{Config, ConfigView};
use crate::identity::{texts, GpgConfig, GpgConfigView, Identity, IdentityView};
use crate::json::{
    lemma_items_model, lemma_members_model, items_model, members_model, Json, JsonValue,
};
use crate::settings::{Settings, SettingsView, State, StateView};
use crate::text_map::TextMap;

verus! {

/// A string member.
pub open spec fn text_member(key: Seq<char>, text: Seq<char>) -> (Seq<char>, Json) {
    (key, Json::Str(text))
}

/// A boolean member.
pub open spec fn flag_member(key: Seq<char>, flag: bool) -> (Seq<char>, Json) {
    (key, Json::Bool(flag))
}

/// The strings of `list` as documents.
pub open spec fn text_docs(list: Seq<Seq<char>>) -> Seq<Json> {
    Seq::new(list.len(), |i: int| Json::Str(list[i]))
}

/// The member `pinStorageMethod`, which is left out where there is no
/// method.
pub open spec fn pin_members(method: Option<Seq<char>>) -> Seq<(Seq<char>, Json)> {
    match method {
        Some(m) => seq![text_member("pinStorageMethod"@, m)],
        None => Seq::empty(),
    }
}

/// The document that holds a signing setup.
pub open spec fn encode_gpg(g: GpgConfigView) -> Json {
    Json::Object(
        seq![
            text_member("keyId"@, g.key_id),
            flag_member("signCommits"@, g.sign_commits),
            flag_member("signTags"@, g.sign_tags),
            flag_member("autoSignoff"@, g.auto_signoff),
            text_member("securityMode"@, g.security_mode.tag_text()),
        ] + pin_members(g.pin_storage_method),
    )
}

/// The document that holds an identity.
pub open spec fn encode_identity(id: IdentityView) -> Json {
    Json::Object(
        seq![
            text_member("provider"@, id.provider),
            text_member("host"@, id.host),
            text_member("hostname"@, id.hostname),
            text_member("user"@, id.user),
            text_member("email"@, id.email),
            text_member("sshKeyPath"@, id.ssh_key_path),
            text_member("credentialSource"@, id.credential_source),
            ("organizations"@, Json::Array(text_docs(id.organizations))),
            ("gpg"@, encode_gpg(id.gpg)),
        ],
    )
}

/// The document that holds the settings.
pub open spec fn encode_settings(s: SettingsView) -> Json {
    Json::Object(
        seq![
            text_member("defaultProvider"@, s.default_provider),
            flag_member("autoDetect"@, s.auto_detect),
            flag_member("useKeychain"@, s.use_keychain),
            flag_member("gpgSign"@, s.gpg_sign),
            flag_member("gpgVerifyWithProvider"@, s.gpg_verify_with_provider),
            flag_member("fallbackToSSH"@, s.fallback_to_ssh),
            flag_member("verboseLogging"@, s.verbose_logging),
        ],
    )
}

/// The document that holds the selection.
pub open spec fn encode_state(s: StateView) -> Json {
    Json::Object(
        seq![
            text_member("currentIdentity"@, s.current_identity),
            text_member("lastSwitch"@, s.last_switch),
        ],
    )
}

/// The members that hold the identities, one for each.
pub open spec fn encode_entries(ids: Seq<(Seq<char>, IdentityView)>) -> Seq<(Seq<char>, Json)> {
    Seq::new(ids.len(), |i: int| (ids[i].0, encode_identity(ids[i].1)))
}

/// The member `$schema`, which is left out where there is no schema.
pub open spec fn schema_members(schema: Option<Seq<char>>) -> Seq<(Seq<char>, Json)> {
    match schema {
        Some(s) => seq![text_member("$schema"@, s)],
        None => Seq::empty(),
    }
}

/// The members of the configuration proper.
pub open spec fn known_members(c: ConfigView) -> Seq<(Seq<char>, Json)> {
    schema_members(c.schema) + seq![
        text_member("version"@, c.version),
        text_member("generated"@, c.generated),
        ("identities"@, Json::Object(encode_entries(c.identities))),
        ("settings"@, encode_settings(c.settings)),
        ("state"@, encode_state(c.state)),
    ]
}

/// The document that holds a configuration.
pub open spec fn encode_config(c: ConfigView) -> Json {
    Json::Object(known_members(c) + c.extra)
}

fn text_entry(key: &str, text: &String) -> (r: (String, JsonValue))
    ensures
        (r.0@, r.1@) == text_member(key@, text@),
{
    (key.to_owned(), JsonValue::Str(text.clone()))
}

fn flag_entry(key: &str, flag: bool) -> (r: (String, JsonValue))
    ensures
        (r.0@, r.1@) == flag_member(key@, flag),
{
    (key.to_owned(), JsonValue::Bool(flag))
}

fn object_of(members: Vec<(String, JsonValue)>, Ghost(model): Ghost<Seq<(Seq<char>, Json)>>) -> (r:
    JsonValue)
    requires
        members@.len() == model.len(),
        forall|i: int|
            0 <= i < model.len() ==> (members@[i].0@, members@[i].1@) == #[trigger] model[i],
    ensures
        r@ == Json::Object(model),
{
    proof {
        lemma_members_model(members@);
        assert(members_model(members@) =~= model);
    }
    JsonValue::Object(members)
}

impl GpgConfig {
    /// The document that holds the signing setup.
    pub fn to_json(&self) -> (r: JsonValue)
        ensures
            r@ == encode_gpg(self@),
    {
        let mut members: Vec<(String, JsonValue)> = Vec::new();
        members.push(text_entry("keyId", &self.key_id));
        members.push(flag_entry("signCommits", self.sign_commits));
        members.push(flag_entry("signTags", self.sign_tags));
        members.push(flag_entry("autoSignoff", self.auto_signoff));
        members.push(("securityMode".to_owned(), JsonValue::Str(self.security_mode.tag().to_owned())));
        match &self.pin_storage_method {
            Some(method) => {
                members.push(text_entry("pinStorageMethod", method));
            },
            None => {},
        }
        object_of(members, Ghost(encode_gpg(self@)->Object_0))
    }
}

/// The strings of `list` as documents.
fn text_array(list: &Vec<String>) -> (r: JsonValue)
    ensures
        r@ == Json::Array(text_docs(texts(list@))),
{
    let mut items: Vec<JsonValue> = Vec::new();
    let mut i: usize = 0;
    while i < list.len()
        invariant
            i <= list.len(),
            items.len() == i,
            forall|j: int| 0 <= j < i ==> items@[j]@ == Json::Str(list@[j]@),
        decreases list.len() - i,
    {
        items.push(JsonValue::Str(list[i].clone()));
        i += 1;
    }
    proof {
        lemma_items_model(items@);
        assert(items_model(items@) =~= text_docs(texts(list@)));
    }
    JsonValue::Array(items)
}

impl Identity {
    /// The document that holds the identity.
    pub fn to_json(&self) -> (r: JsonValue)
        ensures
            r@ == encode_identity(self@),
    {
        let mut members: Vec<(String, JsonValue)> = Vec::new();
        members.push(text_entry("provider", &self.provider));
        members.push(text_entry("host", &self.host));
        members.push(text_entry("hostname", &self.hostname));
        members.push(text_entry("user", &self.user));
        members.push(text_entry("email", &self.email));
        members.push(text_entry("sshKeyPath", &self.ssh_key_path));
        members.push(text_entry("credentialSource", &self.credential_source));
        members.push(("organizations".to_owned(), text_array(&self.organizations)));
        members.push(("gpg".to_owned(), self.gpg.to_json()));
        object_of(members, Ghost(encode_identity(self@)->Object_0))
    }
}

impl Settings {
    /// The document that holds the settings.
    pub fn to_json(&self) -> (r: JsonValue)
        ensures
            r@ == encode_settings(self@),
    {
        let mut members: Vec<(String, JsonValue)> = Vec::new();
        members.push(text_entry("defaultProvider", &self.default_provider));
        members.push(flag_entry("autoDetect", self.auto_detect));
        members.push(flag_entry("useKeychain", self.use_keychain));
        members.push(flag_entry("gpgSign", self.gpg_sign));
        members.push(flag_entry("gpgVerifyWithProvider", self.gpg_verify_with_provider));
        members.push(flag_entry("fallbackToSSH", self.fallback_to_ssh));
        members.push(flag_entry("verboseLogging", self.verbose_logging));
        object_of(members, Ghost(encode_settings(self@)->Object_0))
    }
}

impl State {
    /// The document that holds the selection.
    pub fn to_json(&self) -> (r: JsonValue)
        ensures
            r@ == encode_state(self@),
    {
        let mut members: Vec<(String, JsonValue)> = Vec::new();
        members.push(text_entry("currentIdentity", &self.current_identity));
        members.push(text_entry("lastSwitch", &self.last_switch));
        object_of(members, Ghost(encode_state(self@)->Object_0))
    }
}

fn identities_object(identities: &TextMap<Identity>) -> (r: JsonValue)
    ensures
        r@ == Json::Object(encode_entries(identities@)),
{
    let total = identities.len();
    let mut members: Vec<(String, JsonValue)> = Vec::new();
    let mut i: usize = 0;
    while i < total
        invariant
            i <= total,
            total == identities@.len(),
            members.len() == i,
            forall|j: int|
                0 <= j < i ==> (members@[j].0@, members@[j].1@) == (
                    identities@[j].0,
                    encode_identity(identities@[j].1),
                ),
        decreases total - i,
    {
        members.push((identities.key_at(i).clone(), identities.value_at(i).to_json()));
        i += 1;
    }
    object_of(members, Ghost(encode_entries(identities@)))
}

impl Config {
    /// The document that holds the configuration: its parts under their
    /// keys, then the extra members as they are.
    pub fn to_json(&self) -> (r: JsonValue)
        ensures
            r@ == encode_config(self@),
    {
        let mut members: Vec<(String, JsonValue)> = Vec::new();
        match &self.schema {
            Some(schema) => {
                members.push(text_entry("$schema", schema));
            },
            None => {},
        }
        members.push(text_entry("version", &self.version));
        members.push(text_entry("generated", &self.generated));
        members.push(("identities".to_owned(), identities_object(&self.identities)));
        members.push(("settings".to_owned(), self.settings.to_json()));
        members.push(("state".to_owned(), self.state.to_json()));
        let ghost known = known_members(self@);
        assert(members@.len() == known.len());
        assert(forall|j: int|
            0 <= j < known.len() ==> (members@[j].0@, members@[j].1@) == #[trigger] known[j]);
        let total = self.extra.len();
        let mut i: usize = 0;
        while i < total
            invariant
                i <= total,
                total == self@.extra.len(),
                known == known_members(self@),
                members.len() == known.len() + i,
                forall|j: int|
                    0 <= j < known.len() ==> (members@[j].0@, members@[j].1@) == #[trigger] known[j],
                forall|j: int|
                    0 <= j < i ==> (members@[known.len() + j].0@, members@[known.len() + j].1@)
                        == #[trigger] self@.extra[j],
            decreases total - i,
        {
            members.push((self.extra.key_at(i).clone(), self.extra.value_at(i).clone()));
            i += 1;
        }
        object_of(members, Ghost(known + self@.extra))
    }
}

} // verus!
