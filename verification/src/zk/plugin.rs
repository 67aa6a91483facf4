//! The decisions around the proof-verification plugin: where it is looked
//! for, and what a verification call's raw answer means. Loading the shared
//! library and calling into it is the application's part.

use vstd::prelude::*;

verus! {

/// Errors when plugin is not available or fails
#[derive(Debug, Clone, PartialEq, Eq)]
pub enum PluginError {
    /// Plugin file not found
    NotFound,
    /// Failed to load the plugin library
    LoadFailed(String),
    /// Required symbol not found in plugin
    SymbolNotFound,
    /// Verification failed
    VerificationFailed(String),
}

/// The text shown for a plugin error.
pub open spec fn plugin_error_text(e: PluginError) -> Seq<char> {
    match e {
        PluginError::NotFound => "STWO plugin not found. Set STOOLAP_STWO_PLUGIN environment variable or build the stwo-plugin crate from https://github.com/mmacedoeu/stwo-plugin"@,
        PluginError::LoadFailed(m) => "Failed to load STWO plugin: "@ + m@,
        PluginError::SymbolNotFound => "STWO plugin missing required symbols"@,
        PluginError::VerificationFailed(m) => "STWO verification failed: "@ + m@,
    }
}

impl PluginError {
    /// The text shown for the error.
    pub fn message(&self) -> (s: String)
        ensures
            s@ == plugin_error_text(*self),
    {
        match self {
            PluginError::NotFound => "STWO plugin not found. Set STOOLAP_STWO_PLUGIN environment variable or build the stwo-plugin crate from https://github.com/mmacedoeu/stwo-plugin".to_owned(),
            PluginError::LoadFailed(m) => "Failed to load STWO plugin: ".to_owned().concat(m.as_str()),
            PluginError::SymbolNotFound => "STWO plugin missing required symbols".to_owned(),
            PluginError::VerificationFailed(m) => "STWO verification failed: ".to_owned().concat(m.as_str()),
        }
    }
}

/// The environment variable that names the plugin file.
pub const PLUGIN_ENV_VAR: &'static str = "STOOLAP_STWO_PLUGIN";

/// Where the plugin is built next to the database crate.
pub const DEFAULT_PLUGIN_PATH: &'static str = "../stwo-plugin/target/release/libstwo_plugin.so";

/// The plugin file in the current directory.
pub const LOCAL_PLUGIN_PATH: &'static str = "libstwo_plugin.so";

/// Which file to load the plugin from.
#[derive(Debug, Clone, PartialEq, Eq)]
pub enum PluginSource {
    /// The file named by the environment variable (whether it exists or not)
    FromEnv(String),
    /// The default build location
    DefaultBuild,
    /// The current directory
    Local,
}

/// Choose where the plugin is loaded from: the file the environment
/// variable names when it is set, else the default build location when the
/// file is there, else the current directory when the file is there; `None`
/// when none applies (the plugin is not found).
pub fn choose_plugin_source(env_path: Option<String>, default_exists: bool, local_exists: bool) -> (r: Option<
    PluginSource,
>)
    ensures
        env_path matches Some(p) ==> (r matches Some(PluginSource::FromEnv(q)) && q@ == p@),
        env_path is None && default_exists ==> r == Some(PluginSource::DefaultBuild),
        env_path is None && !default_exists && local_exists ==> r == Some(PluginSource::Local),
        env_path is None && !default_exists && !local_exists ==> r is None,
{
    match env_path {
        Some(p) => Some(PluginSource::FromEnv(p)),
        None => if default_exists {
            Some(PluginSource::DefaultBuild)
        } else if local_exists {
            Some(PluginSource::Local)
        } else {
            None
        },
    }
}

/// What a verification call's raw answer means: success is `Ok(true)`;
/// a failure carries the plugin's message, or "Unknown error" when it gave
/// none.
pub fn verification_outcome(success: bool, error_message: Option<String>) -> (r: Result<bool, PluginError>)
    ensures
        success ==> r == Ok::<bool, PluginError>(true),
        !success ==> (r matches Err(PluginError::VerificationFailed(m)) && m@ == (match error_message {
            Some(e) => e@,
            None => "Unknown error"@,
        })),
{
    if success {
        Ok(true)
    } else {
        let msg = match error_message {
            Some(e) => e,
            None => "Unknown error".to_owned(),
        };
        Err(PluginError::VerificationFailed(msg))
    }
}

} // verus!
