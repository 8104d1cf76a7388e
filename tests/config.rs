use git_tools::model::{ConfigError, Settings};

#[test]
fn test_default_settings() {
    let settings = Settings::default();
    assert!(settings.openai_api_key.is_none());
    assert_eq!(settings.model, "gpt-4");
    assert_eq!(settings.max_retries, 3);
    assert_eq!(settings.timeout_seconds, 30);
}

#[test]
fn configured_key_is_kept() {
    let mut settings = Settings::default();
    settings.openai_api_key = Some("test-key".to_string());
    let settled = settings.require_api_key(Some("env-key".to_string())).unwrap();
    assert_eq!(settled.openai_api_key.as_deref(), Some("test-key"));
    assert_eq!(settled.model, "gpt-4");
}

#[test]
fn environment_key_fills_missing_key() {
    let settled = Settings::default().require_api_key(Some("env-key".to_string())).unwrap();
    assert_eq!(settled.openai_api_key.as_deref(), Some("env-key"));
    assert_eq!(settled.max_retries, 3);
}

#[test]
fn empty_environment_key_is_ignored() {
    let r = Settings::default().require_api_key(Some(String::new()));
    assert!(matches!(r, Err(ConfigError::MissingApiKey)));
    let r = Settings::default().require_api_key(None);
    assert!(matches!(r, Err(ConfigError::MissingApiKey)));
}

#[test]
fn config_error_messages() {
    assert_eq!(ConfigError::MissingApiKey.message(), "OpenAI API key not found");
    assert_eq!(
        ConfigError::SaveError("disk full".to_string()).message(),
        "Failed to save config: disk full"
    );
    assert_eq!(
        ConfigError::LoadError("bad json".to_string()).message(),
        "Failed to load config: bad json"
    );
    assert_eq!(
        ConfigError::CreateDirError("denied".to_string()).message(),
        "Failed to create config directory: denied"
    );
}
