//! Process-wide settings and the pointer to the current selection.

use vstd::prelude::*;

verus! {

/// The model of `Settings`.
pub struct SettingsView {
    pub default_provider: Seq<char>,
    pub auto_detect: bool,
    pub use_keychain: bool,
    pub gpg_sign: bool,
    pub gpg_verify_with_provider: bool,
    pub fallback_to_ssh: bool,
    pub verbose_logging: bool,
}

impl SettingsView {
    /// The settings of a configuration that names none: everything is
    /// switched on but verbose logging, and the provider is `gitlab`.
    pub open spec fn initial() -> SettingsView {
        SettingsView {
            default_provider: "gitlab"@,
            auto_detect: true,
            use_keychain: true,
            gpg_sign: true,
            gpg_verify_with_provider: true,
            fallback_to_ssh: true,
            verbose_logging: false,
        }
    }
}

/// Application settings.
#[derive(Debug, PartialEq, Eq)]
pub struct Settings {
    pub default_provider: String,
    pub auto_detect: bool,
    pub use_keychain: bool,
    pub gpg_sign: bool,
    pub gpg_verify_with_provider: bool,
    pub fallback_to_ssh: bool,
    pub verbose_logging: bool,
}

impl View for Settings {
    type V = SettingsView;

    open spec fn view(&self) -> SettingsView {
        SettingsView {
            default_provider: self.default_provider@,
            auto_detect: self.auto_detect,
            use_keychain: self.use_keychain,
            gpg_sign: self.gpg_sign,
            gpg_verify_with_provider: self.gpg_verify_with_provider,
            fallback_to_ssh: self.fallback_to_ssh,
            verbose_logging: self.verbose_logging,
        }
    }
}

impl Default for Settings {
    fn default() -> (r: Self)
        ensures
            r@ == SettingsView::initial(),
    {
        Settings {
            default_provider: "gitlab".to_owned(),
            auto_detect: true,
            use_keychain: true,
            gpg_sign: true,
            gpg_verify_with_provider: true,
            fallback_to_ssh: true,
            verbose_logging: false,
        }
    }
}

impl Clone for Settings {
    fn clone(&self) -> (r: Self)
        ensures
            r@ == self@,
    {
        Settings {
            default_provider: self.default_provider.clone(),
            auto_detect: self.auto_detect,
            use_keychain: self.use_keychain,
            gpg_sign: self.gpg_sign,
            gpg_verify_with_provider: self.gpg_verify_with_provider,
            fallback_to_ssh: self.fallback_to_ssh,
            verbose_logging: self.verbose_logging,
        }
    }
}

/// The model of `State`.
pub struct StateView {
    pub current_identity: Seq<char>,
    pub last_switch: Seq<char>,
}

impl StateView {
    /// The state in which nothing is selected.
    pub open spec fn initial() -> StateView {
        StateView { current_identity: Seq::empty(), last_switch: Seq::empty() }
    }
}

/// The current selection: the name of an identity, empty where none is
/// selected, and the time of the last switch as free text.
#[derive(Debug, PartialEq, Eq)]
pub struct State {
    pub current_identity: String,
    pub last_switch: String,
}

impl View for State {
    type V = StateView;

    open spec fn view(&self) -> StateView {
        StateView { current_identity: self.current_identity@, last_switch: self.last_switch@ }
    }
}

impl Default for State {
    fn default() -> (r: Self)
        ensures
            r@ == StateView::initial(),
    {
        State { current_identity: String::new(), last_switch: String::new() }
    }
}

impl Clone for State {
    fn clone(&self) -> (r: Self)
        ensures
            r@ == self@,
    {
        State {
            current_identity: self.current_identity.clone(),
            last_switch: self.last_switch.clone(),
        }
    }
}

} // verus!
