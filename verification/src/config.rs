use vstd::prelude::*;
use crate::text::chars_of;

verus! {

/// Where the server listens.
#[derive(Clone, Debug)]
pub struct ServerSettings {
    pub port: u16,
    pub bind: String,
}

/// Whether queries that no rule answers are resolved upstream, and from
/// which server on.
#[derive(Clone, Debug)]
pub struct MirrorSettings {
    pub enabled: bool,
    pub server: String,
}

/// One source of rules: a file or a directory.
#[derive(Clone, Debug)]
pub struct RulesSettings {
    pub load_as: String,
    pub path: String,
}

/// Where the log goes.
#[derive(Clone, Debug)]
pub struct LoggingSettings {
    pub save_as: String,
    pub path: String,
}

/// The configuration of the server.
#[derive(Clone, Debug)]
pub struct Config {
    pub server: ServerSettings,
    pub mirror: MirrorSettings,
    pub rules: Vec<RulesSettings>,
    pub logs: LoggingSettings,
}

/// Whether a configured path is taken relative to the working directory:
/// one that begins with a dot is, any other is taken as it stands.
pub fn is_relative_path(raw_path: &str) -> (relative: bool)
    ensures
        relative == (raw_path@.len() > 0 && raw_path@[0] == '.'),
{
    let chars = chars_of(raw_path);
    chars.len() > 0 && chars[0] == '.'
}

} // verus!
