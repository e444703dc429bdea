//! Configuration values, their defaults, and where the configuration lives.
use vstd::prelude::*;

use crate::text::{join_path, joined_path, text_bytes};

verus! {

/// Which model provider the runtime talks to.
#[derive(Debug, Clone, Copy, PartialEq, Eq, Structural)]
pub enum ProviderKind {
    Mock,
    OpenaiCompatible,
}

/// How to reach the model provider.
#[derive(Debug, Clone)]
pub struct ProviderConfig {
    pub kind: ProviderKind,
    pub model: String,
    pub base_url: Option<String>,
    pub api_key_env: Option<String>,
}

/// Settings of the session memory subsystem.
#[derive(Debug, Clone, Copy, PartialEq, Eq, Structural)]
pub struct MemoryConfig {
    pub enabled: bool,
    pub max_messages_per_session: usize,
}

/// The whole configuration of a node.
#[derive(Debug, Clone)]
pub struct AppConfig {
    pub node_name: String,
    pub api_host: String,
    pub api_port: u16,
    pub provider: ProviderConfig,
    pub memory: MemoryConfig,
}

/// Name of the configuration directory under the home directory, as path bytes.
pub open spec fn app_dir_name() -> Seq<u8> {
    text_bytes(".nanoaios"@)
}

/// Name of the configuration file inside the configuration directory, as path bytes.
pub open spec fn config_file_name() -> Seq<u8> {
    text_bytes("config.toml"@)
}

impl Default for MemoryConfig {
    fn default() -> (r: Self)
        ensures
            r.enabled,
            r.max_messages_per_session == 50,
    {
        MemoryConfig { enabled: true, max_messages_per_session: 50 }
    }
}

impl Default for AppConfig {
    fn default() -> (r: Self)
        ensures
            r.node_name@ == "nanoaios-local"@,
            r.api_host@ == "127.0.0.1"@,
            r.api_port == 4242,
            r.provider.kind == ProviderKind::Mock,
            r.provider.model@ == "nanoaios/mock-v1"@,
            r.provider.base_url matches Some(u) && u@ == "https://api.openai.com/v1"@,
            r.provider.api_key_env matches Some(k) && k@ == "OPENAI_API_KEY"@,
            r.memory.enabled,
            r.memory.max_messages_per_session == 50,
    {
        AppConfig {
            node_name: String::from_str("nanoaios-local"),
            api_host: String::from_str("127.0.0.1"),
            api_port: 4242,
            provider: ProviderConfig {
                kind: ProviderKind::Mock,
                model: String::from_str("nanoaios/mock-v1"),
                base_url: Some(String::from_str("https://api.openai.com/v1")),
                api_key_env: Some(String::from_str("OPENAI_API_KEY")),
            },
            memory: MemoryConfig::default(),
        }
    }
}

/// Copies an optional text.
pub fn copy_optional_text(t: &Option<String>) -> (r: Option<String>)
    ensures
        r == *t,
{
    match t {
        Some(s) => Some(s.clone()),
        None => None,
    }
}

impl ProviderConfig {
    /// A copy of this provider configuration.
    pub fn duplicate(&self) -> (r: ProviderConfig)
        ensures
            r == *self,
    {
        ProviderConfig {
            kind: self.kind,
            model: self.model.clone(),
            base_url: copy_optional_text(&self.base_url),
            api_key_env: copy_optional_text(&self.api_key_env),
        }
    }
}

/// Why the configuration could not be located or settled.
#[derive(Debug, Clone, PartialEq, Eq)]
pub enum ConfigError {
    /// No home directory could be determined.
    HomeNotFound,
    /// The port override is not a port number; it holds the text given.
    InvalidPort(String),
    /// The provider kind override names no provider kind; it holds the text given.
    InvalidProviderKind(String),
}

impl ConfigError {
    /// The message that describes this error.
    pub fn message(&self) -> (r: String)
        ensures
            self is HomeNotFound ==> r@ == "failed to resolve HOME directory"@,
            self matches ConfigError::InvalidPort(v) ==> r@ == "invalid NANOAIOS_API_PORT: "@ + v@,
            self matches ConfigError::InvalidProviderKind(v) ==> r@
                == "invalid NANOAIOS_PROVIDER_KIND (expected mock or openai_compatible): "@ + v@,
    {
        match self {
            ConfigError::HomeNotFound => String::from_str("failed to resolve HOME directory"),
            ConfigError::InvalidPort(v) => {
                let mut r = String::from_str("invalid NANOAIOS_API_PORT: ");
                r.append(v.as_str());
                r
            },
            ConfigError::InvalidProviderKind(v) => {
                let mut r = String::from_str(
                    "invalid NANOAIOS_PROVIDER_KIND (expected mock or openai_compatible): ",
                );
                r.append(v.as_str());
                r
            },
        }
    }
}

/// Calls `dirs::home_dir`. On Unix that function yields the value of `HOME` when it is
/// set and non-empty, else the non-empty home directory of the password database, else
/// `None`; so any path it yields is non-empty. The path is handed back as its raw bytes
/// (on Unix the encoded bytes of a path are its bytes), so a non-empty path gives
/// non-empty bytes. Which path comes back depends on the environment, so nothing more is
/// claimed of it.
#[verifier::external_body]
fn home_dir() -> (r: Option<Vec<u8>>)
    ensures
        r matches Some(h) ==> h@.len() > 0,
{
    dirs::home_dir().map(|p| p.into_os_string().into_encoded_bytes())
}

/// The configuration directory for the home directory `home`.
pub open spec fn config_dir_for(home: Seq<u8>) -> Seq<u8> {
    joined_path(home, app_dir_name())
}

/// The configuration file for the home directory `home`.
pub open spec fn config_path_for(home: Seq<u8>) -> Seq<u8> {
    joined_path(config_dir_for(home), config_file_name())
}

/// The configuration lives inside the home directory `home`: the directory is
/// `home`, a `/` unless `home` already ends with one, then `.nanoaios`; the file
/// is that directory, a `/`, then `config.toml`.
pub proof fn lemma_config_locations(home: Seq<u8>)
    requires
        home.len() > 0,
    ensures
        config_dir_for(home) == home + (if home.last() == 47u8 {
            Seq::<u8>::empty()
        } else {
            seq![47u8]
        }) + text_bytes(".nanoaios"@),
        config_dir_for(home).subrange(0, home.len() as int) == home,
        config_path_for(home) == config_dir_for(home) + seq![47u8] + text_bytes("config.toml"@),
{
    reveal_strlit(".nanoaios");
    reveal_strlit("config.toml");
    let d = ".nanoaios"@;
    let f = "config.toml"@;
    assert(vstd::utf8::is_ascii_chars(d)) by {
        assert forall|i: int| 0 <= i < d.len() implies '\0' <= #[trigger] d[i] <= '\u{7f}' by {}
    }
    assert(vstd::utf8::is_ascii_chars(f)) by {
        assert forall|i: int| 0 <= i < f.len() implies '\0' <= #[trigger] f[i] <= '\u{7f}' by {}
    }
    vstd::utf8::is_ascii_chars_encode_utf8(d);
    vstd::utf8::is_ascii_chars_encode_utf8(f);
    assert(text_bytes(d)[0] == d[0] as u8);
    assert(text_bytes(f)[0] == f[0] as u8);
    let dir = config_dir_for(home);
    if home.last() == 47u8 {
        assert((home + Seq::<u8>::empty()) =~= home);
    }
    assert(dir.subrange(0, home.len() as int) =~= home);
    assert(dir.len() > 0 && dir.last() != 47u8);
}

/// The configuration directory, given what the home directory lookup returned.
pub fn config_dir_from_home(home: Option<Vec<u8>>) -> (r: Result<Vec<u8>, ConfigError>)
    ensures
        match home {
            Some(h) => r matches Ok(d) && d@ == config_dir_for(h@),
            None => r == Err::<Vec<u8>, ConfigError>(ConfigError::HomeNotFound),
        },
{
    match home {
        Some(h) => Ok(join_path(h.as_slice(), ".nanoaios".as_bytes())),
        None => Err(ConfigError::HomeNotFound),
    }
}

/// The configuration directory `.nanoaios` under the user's home directory.
pub fn config_dir() -> (r: Result<Vec<u8>, ConfigError>)
    ensures
        r matches Ok(d) ==> exists|h: Seq<u8>| h.len() > 0 && d@ == #[trigger] config_dir_for(h),
        r matches Err(e) ==> e == ConfigError::HomeNotFound,
{
    let home = home_dir();
    let ghost h = home;
    let r = config_dir_from_home(home);
    proof {
        if r is Ok {
            assert(config_dir_for(h->0@) == r->Ok_0@);
        }
    }
    r
}

/// The configuration file `config.toml` inside the configuration directory.
pub fn config_path() -> (r: Result<Vec<u8>, ConfigError>)
    ensures
        r matches Ok(p) ==> exists|h: Seq<u8>| h.len() > 0 && p@ == #[trigger] config_path_for(h),
        r matches Err(e) ==> e == ConfigError::HomeNotFound,
{
    let dir = config_dir()?;
    let p = join_path(dir.as_slice(), "config.toml".as_bytes());
    proof {
        let h = choose|h: Seq<u8>| h.len() > 0 && dir@ == #[trigger] config_dir_for(h);
        assert(p@ == config_path_for(h));
    }
    Ok(p)
}

/// The file the configuration is read from: `path` when one is given, else the
/// default configuration file.
pub fn config_file_path(path: Option<&[u8]>) -> (r: Result<Vec<u8>, ConfigError>)
    ensures
        path matches Some(p) ==> r matches Ok(q) && q@ == p@,
        path is None ==> (r matches Ok(q) ==> exists|h: Seq<u8>|
            h.len() > 0 && q@ == #[trigger] config_path_for(h)),
        path is None ==> (r matches Err(e) ==> e == ConfigError::HomeNotFound),
{
    match path {
        Some(p) => Ok(vstd::slice::slice_to_vec(p)),
        None => config_path(),
    }
}

/// Whether initialising the configuration writes the default file: it does unless
/// a file is already there and overwriting was not asked for.
pub fn should_write_config(file_exists: bool, force: bool) -> (r: bool)
    ensures
        r == (!file_exists || force),
{
    !file_exists || force
}

} // verus!
