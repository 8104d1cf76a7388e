//! The values the pipeline works on: a conflicted file, the settings of one
//! run, and the errors met while settling those settings.

use vstd::prelude::*;

verus! {

/// One unmerged path: both sides of the conflict, and their common ancestor
/// when there is one.
#[derive(Debug)]
pub struct ConflictFile {
    pub path: String,
    pub our_content: String,
    pub their_content: String,
    pub base_content: Option<String>,
}

/// Model used when nothing else is configured.
pub const DEFAULT_MODEL: &'static str = "gpt-4";

/// Retries after a failed attempt when nothing else is configured.
pub const DEFAULT_MAX_RETRIES: u32 = 3;

/// Per-request timeout, in seconds, when nothing else is configured.
pub const DEFAULT_TIMEOUT_SECONDS: u64 = 30;

/// The settings of one run.
#[derive(Debug)]
pub struct Settings {
    pub openai_api_key: Option<String>,
    pub model: String,
    pub max_retries: u32,
    pub timeout_seconds: u64,
}

impl Default for Settings {
    fn default() -> (r: Self)
        ensures
            r.openai_api_key is None,
            r.model@ == DEFAULT_MODEL@,
            r.max_retries == DEFAULT_MAX_RETRIES,
            r.timeout_seconds == DEFAULT_TIMEOUT_SECONDS,
    {
        Settings {
            openai_api_key: None,
            model: String::from_str(DEFAULT_MODEL),
            max_retries: DEFAULT_MAX_RETRIES,
            timeout_seconds: DEFAULT_TIMEOUT_SECONDS,
        }
    }
}

/// The key that settings end up with: the configured one, else a non-empty
/// key taken from the environment.
pub open spec fn settled_key(configured: Option<String>, from_env: Option<String>) -> Option<
    String,
> {
    match configured {
        Some(k) => Some(k),
        None => match from_env {
            Some(k) => if k@.len() > 0 {
                Some(k)
            } else {
                None
            },
            None => None,
        },
    }
}

impl Settings {
    /// Completes freshly loaded settings: without a configured key, a
    /// non-empty `from_env` key is taken; settings that still have no key are
    /// refused with `MissingApiKey`.
    pub fn require_api_key(self, from_env: Option<String>) -> (r: Result<Settings, ConfigError>)
        ensures
            settled_key(self.openai_api_key, from_env) is None ==> r == Err::<
                Settings,
                ConfigError,
            >(ConfigError::MissingApiKey),
            settled_key(self.openai_api_key, from_env) is Some ==> r == Ok::<Settings, ConfigError>(
                Settings { openai_api_key: settled_key(self.openai_api_key, from_env), ..self },
            ),
    {
        let Settings { openai_api_key, model, max_retries, timeout_seconds } = self;
        let key = match openai_api_key {
            Some(k) => Some(k),
            None => match from_env {
                Some(k) => if k.as_str().is_empty() {
                    None
                } else {
                    Some(k)
                },
                None => None,
            },
        };
        match key {
            Some(k) => Ok(Settings { openai_api_key: Some(k), model, max_retries, timeout_seconds }),
            None => Err(ConfigError::MissingApiKey),
        }
    }
}

/// Why settings could not be loaded or saved.
#[derive(Debug)]
pub enum ConfigError {
    LoadError(String),
    MissingApiKey,
    CreateDirError(String),
    SaveError(String),
}

pub open spec fn config_error_text(e: ConfigError) -> Seq<char> {
    match e {
        ConfigError::LoadError(m) => "Failed to load config: "@ + m@,
        ConfigError::MissingApiKey => "OpenAI API key not found"@,
        ConfigError::CreateDirError(m) => "Failed to create config directory: "@ + m@,
        ConfigError::SaveError(m) => "Failed to save config: "@ + m@,
    }
}

impl ConfigError {
    /// The human-readable description of the error.
    pub fn message(&self) -> (r: String)
        ensures
            r@ == config_error_text(*self),
    {
        match self {
            ConfigError::LoadError(m) => {
                let mut r = String::from_str("Failed to load config: ");
                r.append(m.as_str());
                r
            },
            ConfigError::MissingApiKey => String::from_str("OpenAI API key not found"),
            ConfigError::CreateDirError(m) => {
                let mut r = String::from_str("Failed to create config directory: ");
                r.append(m.as_str());
                r
            },
            ConfigError::SaveError(m) => {
                let mut r = String::from_str("Failed to save config: ");
                r.append(m.as_str());
                r
            },
        }
    }
}

} // verus!
