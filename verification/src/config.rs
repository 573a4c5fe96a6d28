//! The configuration: identities by name, settings, the current selection,
//! and whatever else the document held.

use vstd::prelude::*;
use crate::identity::{opt_text, Identity, IdentityView};
use crate::json::{Json, JsonValue};
use crate::settings::{Settings, SettingsView, State, StateView};
use crate::text_map::{lookup, strictly_sorted, TextMap};

verus! {

/// Why a text is no configuration.
#[derive(Debug, PartialEq, Eq)]
pub enum ParseError {
    /// The text is no JSON. The message says where and why.
    Malformed(String),
    /// The text is JSON of another shape than a configuration.
    Shape,
}

/// Why there is no default place for the configuration file.
#[derive(Debug, Clone, Copy, PartialEq, Eq, Structural)]
pub enum EnvironmentError {
    /// The platform names no configuration directory for this user.
    NoConfigDir,
}

/// The model of a `Config`. The identities and the extra members are in key
/// order.
pub struct ConfigView {
    pub schema: Option<Seq<char>>,
    pub version: Seq<char>,
    pub generated: Seq<char>,
    pub identities: Seq<(Seq<char>, IdentityView)>,
    pub settings: SettingsView,
    pub state: StateView,
    pub extra: Seq<(Seq<char>, Json)>,
}

impl ConfigView {
    /// The identity that is selected: none where no name is selected or the
    /// selected name is bound to nothing.
    pub open spec fn current_identity(self) -> Option<IdentityView> {
        if self.state.current_identity.len() == 0 {
            None
        } else {
            lookup(self.identities, self.state.current_identity)
        }
    }
}

/// The whole configuration.
#[derive(Debug, PartialEq, Eq)]
pub struct Config {
    pub schema: Option<String>,
    pub version: String,
    pub generated: String,
    pub identities: TextMap<Identity>,
    pub settings: Settings,
    pub state: State,
    /// The members of the document that are no part of the configuration
    /// proper, kept as they were.
    pub extra: TextMap<JsonValue>,
}

impl View for Config {
    type V = ConfigView;

    open spec fn view(&self) -> ConfigView {
        ConfigView {
            schema: opt_text(self.schema),
            version: self.version@,
            generated: self.generated@,
            identities: self.identities@,
            settings: self.settings@,
            state: self.state@,
            extra: self.extra@,
        }
    }
}

/// The place of the configuration file below the configuration directory.
pub open spec fn config_file_below() -> Seq<char> {
    "remote-juggler/config.json"@
}

/// The place of the configuration file for the configuration directory
/// `dir`: `remote-juggler/config.json` below it, joined with `/`.
pub open spec fn path_under(dir: Seq<char>) -> Seq<char> {
    if dir.len() == 0 || dir.last() == '/' {
        dir + config_file_below()
    } else {
        dir + "/"@ + config_file_below()
    }
}

/// `dirs::config_dir`: the configuration directory that the platform names
/// for this user, as text, or `None` where it names none or names a path
/// that is no text. It depends on the machine and the environment, so
/// nothing is claimed of it.
#[verifier::external_body]
fn platform_config_dir() -> (r: Option<String>) {
    dirs::config_dir().and_then(|dir| dir.into_os_string().into_string().ok())
}

/// The place of the configuration file for the configuration directory
/// `dir`.
pub fn config_path_under(dir: &str) -> (r: String)
    ensures
        r@ == path_under(dir@),
{
    let n = dir.unicode_len();
    let mut path = dir.to_owned();
    if n > 0 && dir.get_char(n - 1) != '/' {
        path.append("/");
    }
    path.append("remote-juggler/config.json");
    path
}

/// The place of the configuration file where the platform names `dir` as
/// the configuration directory, and the error where it names none.
pub fn config_path_from(dir: Option<String>) -> (r: Result<String, EnvironmentError>)
    ensures
        match dir {
            Some(d) => r matches Ok(path) && path@ == path_under(d@),
            None => r == Err::<String, EnvironmentError>(EnvironmentError::NoConfigDir),
        },
{
    match dir {
        Some(d) => Ok(config_path_under(d.as_str())),
        None => Err(EnvironmentError::NoConfigDir),
    }
}

/// The keys of `entries`, in order.
pub open spec fn keys_of<T>(entries: Seq<(Seq<char>, T)>) -> Seq<Seq<char>> {
    Seq::new(entries.len(), |i: int| entries[i].0)
}

impl Config {
    /// The default place of the configuration file: below the configuration
    /// directory that the platform names for this user. Where the platform
    /// names none the error is `EnvironmentError::NoConfigDir`.
    pub fn config_path() -> (r: Result<String, EnvironmentError>)
        ensures
            r matches Ok(path) ==> exists|dir: Seq<char>| path@ == path_under(dir),
            r matches Err(e) ==> e == EnvironmentError::NoConfigDir,
    {
        let dir = platform_config_dir();
        let ghost named = dir;
        let r = config_path_from(dir);
        proof {
            if let Some(d) = named {
                assert(r->Ok_0@ == path_under(d@));
            }
        }
        r
    }

    /// The names of the identities, in rising order, each once.
    pub fn identity_names(&self) -> (r: Vec<String>)
        ensures
            crate::identity::texts(r@) == keys_of(self@.identities),
            strictly_sorted(self@.identities),
            forall|i: int, j: int|
                0 <= i < j < r.len() ==> crate::text::text_before(
                    (#[trigger] r@[i])@,
                    (#[trigger] r@[j])@,
                ),
            forall|i: int, j: int|
                0 <= i < r.len() && 0 <= j < r.len() && i != j ==> (#[trigger] r@[i])@
                    != (#[trigger] r@[j])@,
    {
        let n = self.identities.len();
        let mut names: Vec<String> = Vec::new();
        let mut i: usize = 0;
        while i < n
            invariant
                i <= n,
                n == self@.identities.len(),
                names.len() == i,
                forall|j: int| 0 <= j < i ==> names@[j]@ == self@.identities[j].0,
            decreases n - i,
        {
            names.push(self.identities.key_at(i).clone());
            i += 1;
        }
        proof {
            let ids = self@.identities;
            assert(crate::identity::texts(names@) =~= keys_of(ids));
            assert forall|i: int, j: int| 0 <= i < j < names.len() implies crate::text::text_before(
                (#[trigger] names@[i])@,
                (#[trigger] names@[j])@,
            ) by {
                assert(crate::text::text_before(ids[i].0, ids[j].0));
            }
            assert forall|i: int, j: int|
                0 <= i < names.len() && 0 <= j < names.len() && i != j implies (
            #[trigger] names@[i])@ != (#[trigger] names@[j])@ by {
                crate::text::lemma_text_before_irreflexive(ids[i].0);
                if i < j {
                    assert(crate::text::text_before(ids[i].0, ids[j].0));
                } else {
                    assert(crate::text::text_before(ids[j].0, ids[i].0));
                }
            }
        }
        names
    }

    /// The identity named `name`, if there is one.
    pub fn get_identity(&self, name: &str) -> (r: Option<&Identity>)
        ensures
            r matches Some(id) ==> lookup(self@.identities, name@) == Some(id@),
            r is None ==> lookup(self@.identities, name@) is None,
    {
        self.identities.get(name)
    }

    /// The identity that is selected, if one is selected and its name is
    /// bound.
    pub fn current_identity(&self) -> (r: Option<&Identity>)
        ensures
            r matches Some(id) ==> self@.current_identity() == Some(id@),
            r is None ==> self@.current_identity() is None,
    {
        if self.state.current_identity.as_str().is_empty() {
            None
        } else {
            self.get_identity(self.state.current_identity.as_str())
        }
    }
}

} // verus!
