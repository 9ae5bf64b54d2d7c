//! Settings of the server, and where they come from.

use vstd::prelude::*;
use vstd::string::StringExecFns;

use crate::text::same;

verus! {

/// Where the server listens, and the token that it asks for.
#[derive(Debug, PartialEq, Eq)]
pub struct ServerConfig {
    /// An address and a port.
    pub bind: String,
    pub api_token: Option<String>,
}

impl Default for ServerConfig {
    fn default() -> (c: Self)
        ensures
            c.bind@ == "127.0.0.1:8080"@,
            c.api_token is None,
    {
        ServerConfig { bind: "127.0.0.1:8080".to_string(), api_token: None }
    }
}

/// Where the server keeps its files.
#[derive(Debug, PartialEq, Eq)]
pub struct StoreConfig {
    pub data_dir: String,
}

impl Default for StoreConfig {
    fn default() -> (c: Self)
        ensures
            c.data_dir@ == "./studybuddy-data"@,
    {
        StoreConfig { data_dir: "./studybuddy-data".to_string() }
    }
}

/// Where the settings come from.
#[derive(Debug, PartialEq, Eq)]
pub enum ConfigSource {
    /// The file that the environment names.
    Named(String),
    /// The file in the working directory.
    Local,
    /// No file: the defaults.
    Defaults,
}

/// The file in the working directory.
pub const LOCAL_CONFIG: &'static str = "studybuddy.toml";

/// Where the settings come from: the environment goes before the working
/// directory, and that before the defaults.
pub fn config_source(named: Option<String>, local_exists: bool) -> (s: ConfigSource)
    ensures
        match (named, s) {
            (Some(n), ConfigSource::Named(p)) => p@ == n@,
            (None, ConfigSource::Local) => local_exists,
            (None, ConfigSource::Defaults) => !local_exists,
            _ => false,
        },
{
    match named {
        Some(path) => ConfigSource::Named(path),
        None => if local_exists {
            ConfigSource::Local
        } else {
            ConfigSource::Defaults
        },
    }
}

/// Where the server keeps its files: the environment goes before the settings.
pub fn data_dir(named: Option<String>, configured: &StoreConfig) -> (d: String)
    ensures
        d@ == match named {
            Some(n) => n@,
            None => configured.data_dir@,
        },
{
    match named {
        Some(dir) => dir,
        None => configured.data_dir.clone(),
    }
}

/// Whether there is such a provider of language models.
pub fn check_provider(provider: &str) -> (r: Result<(), String>)
    ensures
        match r {
            Ok(_) => provider@ == "ollama"@,
            Err(e) => provider@ != "ollama"@ && e@ == "unsupported LLM provider '"@ + provider@
                + "' — only 'ollama' is supported in this build"@,
        },
{
    if same(provider, "ollama") {
        return Ok(());
    }
    let mut message = "unsupported LLM provider '".to_string();
    message.append(provider);
    message.append("' — only 'ollama' is supported in this build");
    Err(message)
}

// ---------- laws ----------

/// A file that the environment names is used whatever else there is; without it the
/// one in the working directory is, if it exists; and the defaults only without
/// either.
pub proof fn law_environment_goes_first(
    named: Option<String>,
    local_exists: bool,
    source: ConfigSource,
)
    requires
        call_ensures(config_source, (named, local_exists), source),
    ensures
        named matches Some(n) ==> (source matches ConfigSource::Named(p) && p@ == n@),
        named is None && local_exists ==> source is Local,
        named is None && !local_exists ==> source is Defaults,
{
}

/// The environment goes before the settings where files are kept, too.
pub proof fn law_named_directory_goes_first(
    named: Option<String>,
    configured: &StoreConfig,
    dir: String,
)
    requires
        call_ensures(data_dir, (named, configured), dir),
    ensures
        named matches Some(n) ==> dir@ == n@,
        named is None ==> dir@ == configured.data_dir@,
{
}

/// There is one provider of language models, and any other is refused by name.
pub proof fn law_only_one_provider(provider: &str, r: Result<(), String>)
    requires
        call_ensures(check_provider, (provider,), r),
    ensures
        r is Ok <==> provider@ == "ollama"@,
        r matches Err(e) ==> e@ == "unsupported LLM provider '"@ + provider@
            + "' — only 'ollama' is supported in this build"@,
{
}

} // verus!
