//! Typed model of the RemoteJuggler configuration document and the profile
//! view derived from it.

pub mod config;
pub mod decode;
pub mod encode;
mod grouping;
pub mod identity;
pub mod json;
pub mod profile;
pub mod projection;
pub mod round_trip;
pub mod settings;
pub mod text;
pub mod text_map;
pub mod unique;

pub use config::{config_path_from, config_path_under, Config, EnvironmentError, ParseError};
pub use identity::{GpgConfig, Identity, SecurityMode, SshKeyType};
pub use json::JsonValue;
pub use profile::{Profile, SshVariant};
pub use settings::{Settings, State};
pub use text_map::TextMap;
