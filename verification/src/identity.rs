//! Identities: one named credential and SSH configuration each, with its
//! signing setup.

use vstd::prelude::*;
use crate::text::{ends_with, has_sk_suffix, sk_suffix};

verus! {

/// The texts of a list of strings, in order.
pub open spec fn texts(list: Seq<String>) -> Seq<Seq<char>> {
    Seq::new(list.len(), |i: int| list[i]@)
}

/// The text of an optional string.
pub open spec fn opt_text(value: Option<String>) -> Option<Seq<char>> {
    match value {
        Some(s) => Some(s@),
        None => None,
    }
}

/// A copy of a list of strings.
pub fn copy_strings(list: &Vec<String>) -> (r: Vec<String>)
    ensures
        texts(r@) == texts(list@),
{
    let mut r: Vec<String> = Vec::new();
    let mut i: usize = 0;
    while i < list.len()
        invariant
            i <= list.len(),
            r.len() == i,
            forall|j: int| 0 <= j < i ==> r@[j]@ == list@[j]@,
        decreases list.len() - i,
    {
        r.push(list[i].clone());
        i += 1;
    }
    assert(texts(r@) =~= texts(list@));
    r
}

/// A copy of an optional string.
pub fn copy_opt_string(value: &Option<String>) -> (r: Option<String>)
    ensures
        opt_text(r) == opt_text(*value),
{
    match value {
        Some(s) => Some(s.clone()),
        None => None,
    }
}

/// How a hardware key's PIN is handled while signing.
#[derive(Debug, Clone, Copy, PartialEq, Eq, Structural)]
pub enum SecurityMode {
    MaximumSecurity,
    DeveloperWorkflow,
    TrustedWorkstation,
}

impl SecurityMode {
    /// The name shown to a user.
    pub open spec fn display_text(self) -> Seq<char> {
        match self {
            SecurityMode::MaximumSecurity => "Maximum Security"@,
            SecurityMode::DeveloperWorkflow => "Developer Workflow"@,
            SecurityMode::TrustedWorkstation => "Trusted Workstation"@,
        }
    }

    /// The tag that stands for the mode in a configuration document.
    pub open spec fn tag_text(self) -> Seq<char> {
        match self {
            SecurityMode::MaximumSecurity => "maximum_security"@,
            SecurityMode::DeveloperWorkflow => "developer_workflow"@,
            SecurityMode::TrustedWorkstation => "trusted_workstation"@,
        }
    }

    /// The mode that a tag stands for.
    pub open spec fn of_tag(tag: Seq<char>) -> Option<SecurityMode> {
        if tag == "maximum_security"@ {
            Some(SecurityMode::MaximumSecurity)
        } else if tag == "developer_workflow"@ {
            Some(SecurityMode::DeveloperWorkflow)
        } else if tag == "trusted_workstation"@ {
            Some(SecurityMode::TrustedWorkstation)
        } else {
            None
        }
    }

    /// The position of the mode in `all`.
    pub open spec fn position(self) -> int {
        match self {
            SecurityMode::MaximumSecurity => 0,
            SecurityMode::DeveloperWorkflow => 1,
            SecurityMode::TrustedWorkstation => 2,
        }
    }

    /// The mode at a position, and the default mode for any other number.
    pub open spec fn at_position(index: int) -> SecurityMode {
        if index == 0 {
            SecurityMode::MaximumSecurity
        } else if index == 2 {
            SecurityMode::TrustedWorkstation
        } else {
            SecurityMode::DeveloperWorkflow
        }
    }

    /// The name shown to a user.
    pub fn display_name(&self) -> (r: &'static str)
        ensures
            r@ == self.display_text(),
    {
        match self {
            SecurityMode::MaximumSecurity => "Maximum Security",
            SecurityMode::DeveloperWorkflow => "Developer Workflow",
            SecurityMode::TrustedWorkstation => "Trusted Workstation",
        }
    }

    /// The three modes, from the strictest on.
    pub fn all() -> (r: [SecurityMode; 3])
        ensures
            r@ == seq![
                SecurityMode::MaximumSecurity,
                SecurityMode::DeveloperWorkflow,
                SecurityMode::TrustedWorkstation,
            ],
    {
        let r = [
            SecurityMode::MaximumSecurity,
            SecurityMode::DeveloperWorkflow,
            SecurityMode::TrustedWorkstation,
        ];
        assert(r@ =~= seq![
            SecurityMode::MaximumSecurity,
            SecurityMode::DeveloperWorkflow,
            SecurityMode::TrustedWorkstation,
        ]);
        r
    }

    /// The position of the mode in `all`.
    pub fn index(&self) -> (r: u32)
        ensures
            r == self.position(),
    {
        match self {
            SecurityMode::MaximumSecurity => 0,
            SecurityMode::DeveloperWorkflow => 1,
            SecurityMode::TrustedWorkstation => 2,
        }
    }

    /// The mode at a position in `all`, and the default mode for any other
    /// number.
    pub fn from_index(index: u32) -> (r: SecurityMode)
        ensures
            r == SecurityMode::at_position(index as int),
    {
        if index == 0 {
            SecurityMode::MaximumSecurity
        } else if index == 2 {
            SecurityMode::TrustedWorkstation
        } else {
            SecurityMode::DeveloperWorkflow
        }
    }

    /// The tag that stands for the mode in a configuration document.
    pub fn tag(&self) -> (r: &'static str)
        ensures
            r@ == self.tag_text(),
    {
        match self {
            SecurityMode::MaximumSecurity => "maximum_security",
            SecurityMode::DeveloperWorkflow => "developer_workflow",
            SecurityMode::TrustedWorkstation => "trusted_workstation",
        }
    }

    /// The mode that a tag stands for, if it is one of the three tags.
    pub fn from_tag(tag: &str) -> (r: Option<SecurityMode>)
        ensures
            r == SecurityMode::of_tag(tag@),
    {
        if crate::text::same_text(tag, "maximum_security") {
            Some(SecurityMode::MaximumSecurity)
        } else if crate::text::same_text(tag, "developer_workflow") {
            Some(SecurityMode::DeveloperWorkflow)
        } else if crate::text::same_text(tag, "trusted_workstation") {
            Some(SecurityMode::TrustedWorkstation)
        } else {
            None
        }
    }
}

impl Default for SecurityMode {
    fn default() -> (r: Self)
        ensures
            r == SecurityMode::DeveloperWorkflow,
    {
        SecurityMode::DeveloperWorkflow
    }
}

/// A mode is read back from its tag: the three tags are three different
/// texts.
pub proof fn lemma_tag_read_back()
    ensures
        forall|m: SecurityMode| SecurityMode::of_tag(#[trigger] m.tag_text()) == Some(m),
{
    reveal_strlit("maximum_security");
    reveal_strlit("developer_workflow");
    reveal_strlit("trusted_workstation");
    assert("maximum_security"@.len() == 16);
    assert("developer_workflow"@.len() == 18);
    assert("trusted_workstation"@.len() == 19);
}

/// The model of a `GpgConfig`.
pub struct GpgConfigView {
    pub key_id: Seq<char>,
    pub sign_commits: bool,
    pub sign_tags: bool,
    pub auto_signoff: bool,
    pub security_mode: SecurityMode,
    pub pin_storage_method: Option<Seq<char>>,
}

impl GpgConfigView {
    /// The setup of an identity that signs nothing.
    pub open spec fn initial() -> GpgConfigView {
        GpgConfigView {
            key_id: Seq::empty(),
            sign_commits: false,
            sign_tags: false,
            auto_signoff: false,
            security_mode: SecurityMode::DeveloperWorkflow,
            pin_storage_method: None,
        }
    }

    /// Commits are signed: there is a key and signing is switched on.
    pub open spec fn signs(self) -> bool {
        self.key_id.len() > 0 && self.sign_commits
    }
}

/// GPG signing setup of an identity.
#[derive(Debug, PartialEq, Eq)]
pub struct GpgConfig {
    pub key_id: String,
    pub sign_commits: bool,
    pub sign_tags: bool,
    pub auto_signoff: bool,
    pub security_mode: SecurityMode,
    pub pin_storage_method: Option<String>,
}

impl View for GpgConfig {
    type V = GpgConfigView;

    open spec fn view(&self) -> GpgConfigView {
        GpgConfigView {
            key_id: self.key_id@,
            sign_commits: self.sign_commits,
            sign_tags: self.sign_tags,
            auto_signoff: self.auto_signoff,
            security_mode: self.security_mode,
            pin_storage_method: opt_text(self.pin_storage_method),
        }
    }
}

impl Default for GpgConfig {
    fn default() -> (r: Self)
        ensures
            r@ == GpgConfigView::initial(),
    {
        GpgConfig {
            key_id: String::new(),
            sign_commits: false,
            sign_tags: false,
            auto_signoff: false,
            security_mode: SecurityMode::DeveloperWorkflow,
            pin_storage_method: None,
        }
    }
}

impl Clone for GpgConfig {
    fn clone(&self) -> (r: Self)
        ensures
            r@ == self@,
    {
        GpgConfig {
            key_id: self.key_id.clone(),
            sign_commits: self.sign_commits,
            sign_tags: self.sign_tags,
            auto_signoff: self.auto_signoff,
            security_mode: self.security_mode,
            pin_storage_method: copy_opt_string(&self.pin_storage_method),
        }
    }
}

/// The name shown for a user at a provider: `user (provider)`, or `fallback`
/// where there is no user.
pub open spec fn shown_name(user: Seq<char>, provider: Seq<char>, fallback: Seq<char>) -> Seq<char> {
    if user.len() == 0 {
        fallback
    } else {
        user + " ("@ + provider + ")"@
    }
}

/// Builds `shown_name`.
pub fn show_name(user: &str, provider: &str, fallback: &str) -> (r: String)
    ensures
        r@ == shown_name(user@, provider@, fallback@),
{
    if user.is_empty() {
        fallback.to_owned()
    } else {
        let mut out = user.to_owned();
        out.append(" (");
        out.append(provider);
        out.append(")");
        out
    }
}

/// The model of an `Identity`.
pub struct IdentityView {
    pub provider: Seq<char>,
    pub host: Seq<char>,
    pub hostname: Seq<char>,
    pub user: Seq<char>,
    pub email: Seq<char>,
    pub ssh_key_path: Seq<char>,
    pub credential_source: Seq<char>,
    pub organizations: Seq<Seq<char>>,
    pub gpg: GpgConfigView,
}

impl IdentityView {
    /// The identity uses a hardware security key: its host alias or its key
    /// path ends with `-sk`.
    pub open spec fn is_security_key(self) -> bool {
        ends_with(self.host, sk_suffix()) || ends_with(self.ssh_key_path, sk_suffix())
    }

    /// The kind of SSH key that the identity uses.
    pub open spec fn key_type(self) -> SshKeyType {
        if self.is_security_key() {
            SshKeyType::Fido2
        } else {
            SshKeyType::Regular
        }
    }
}

/// One git identity.
#[derive(Debug, PartialEq, Eq)]
pub struct Identity {
    pub provider: String,
    pub host: String,
    pub hostname: String,
    pub user: String,
    pub email: String,
    pub ssh_key_path: String,
    pub credential_source: String,
    pub organizations: Vec<String>,
    pub gpg: GpgConfig,
}

impl View for Identity {
    type V = IdentityView;

    open spec fn view(&self) -> IdentityView {
        IdentityView {
            provider: self.provider@,
            host: self.host@,
            hostname: self.hostname@,
            user: self.user@,
            email: self.email@,
            ssh_key_path: self.ssh_key_path@,
            credential_source: self.credential_source@,
            organizations: texts(self.organizations@),
            gpg: self.gpg@,
        }
    }
}

impl Clone for Identity {
    fn clone(&self) -> (r: Self)
        ensures
            r@ == self@,
    {
        Identity {
            provider: self.provider.clone(),
            host: self.host.clone(),
            hostname: self.hostname.clone(),
            user: self.user.clone(),
            email: self.email.clone(),
            ssh_key_path: self.ssh_key_path.clone(),
            credential_source: self.credential_source.clone(),
            organizations: copy_strings(&self.organizations),
            gpg: self.gpg.clone(),
        }
    }
}

impl Identity {
    /// The name shown for the identity: `user (provider)`, or the host alias
    /// where there is no user.
    pub fn display_name(&self) -> (r: String)
        ensures
            r@ == shown_name(self@.user, self@.provider, self@.host),
            self@.user.len() > 0 || self@.host.len() > 0 ==> r@.len() > 0,
    {
        show_name(self.user.as_str(), self.provider.as_str(), self.host.as_str())
    }

    /// Whether commits are signed: there is a key and signing is switched on.
    pub fn has_gpg_signing(&self) -> (r: bool)
        ensures
            r == self@.gpg.signs(),
            r == (self@.gpg.key_id.len() > 0 && self@.gpg.sign_commits),
    {
        !self.gpg.key_id.as_str().is_empty() && self.gpg.sign_commits
    }

    /// Whether the identity uses a hardware security key.
    pub fn is_security_key(&self) -> (r: bool)
        ensures
            r == self@.is_security_key(),
    {
        has_sk_suffix(self.host.as_str()) || has_sk_suffix(self.ssh_key_path.as_str())
    }

    /// The kind of SSH key that the identity uses.
    pub fn key_type(&self) -> (r: SshKeyType)
        ensures
            r == self@.key_type(),
    {
        if self.is_security_key() {
            SshKeyType::Fido2
        } else {
            SshKeyType::Regular
        }
    }
}

/// Kind of SSH key.
#[derive(Debug, Clone, Copy, PartialEq, Eq, Structural)]
pub enum SshKeyType {
    /// A key held in a file.
    Regular,
    /// A key held on a FIDO2 hardware token.
    Fido2,
}

impl SshKeyType {
    /// The name shown to a user.
    pub open spec fn display_text(self) -> Seq<char> {
        match self {
            SshKeyType::Regular => "SSH Key"@,
            SshKeyType::Fido2 => "Security Key (FIDO2)"@,
        }
    }

    /// The abbreviation shown to a user.
    pub open spec fn short_text(self) -> Seq<char> {
        match self {
            SshKeyType::Regular => "SSH"@,
            SshKeyType::Fido2 => "SK"@,
        }
    }

    /// The name shown to a user.
    pub fn display_name(&self) -> (r: &'static str)
        ensures
            r@ == self.display_text(),
    {
        match self {
            SshKeyType::Regular => "SSH Key",
            SshKeyType::Fido2 => "Security Key (FIDO2)",
        }
    }

    /// The abbreviation shown to a user.
    pub fn short_name(&self) -> (r: &'static str)
        ensures
            r@ == self.short_text(),
    {
        match self {
            SshKeyType::Regular => "SSH",
            SshKeyType::Fido2 => "SK",
        }
    }
}

} // verus!
