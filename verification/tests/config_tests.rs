use langcodec_cli::config::{resolve_config_relative_path, CliConfig, LoadedConfig, ProviderConfig};

#[test]
fn resolve_config_relative_path_uses_config_dir() {
    let resolved = resolve_config_relative_path(Some("/tmp/project"), "locales/Localizable.xcstrings");
    assert_eq!(resolved, "/tmp/project/locales/Localizable.xcstrings");
}

#[test]
fn absolute_paths_stay_as_they_are() {
    let resolved = resolve_config_relative_path(Some("/tmp/project"), "/abs/Localizable.xcstrings");
    assert_eq!(resolved, "/abs/Localizable.xcstrings");
}

#[test]
fn relative_path_without_config_dir_is_kept() {
    let resolved = resolve_config_relative_path(None, "locales/a.xcstrings");
    assert_eq!(resolved, "locales/a.xcstrings");
}

fn config_with_models() -> CliConfig {
    let mut config = CliConfig::default();
    config.openai = ProviderConfig { model: Some("alpha-model".to_string()) };
    config.anthropic = ProviderConfig { model: Some("beta-model".to_string()) };
    config
}

#[test]
fn provider_model_reads_provider_sections() {
    let config = config_with_models();
    assert_eq!(config.provider_model("openai"), Some("alpha-model"));
    assert_eq!(config.provider_model("anthropic"), Some("beta-model"));
    assert_eq!(config.provider_model("gemini"), None);
}

#[test]
fn configured_provider_names_lists_sections_with_models() {
    let config = config_with_models();
    assert_eq!(config.configured_provider_names(), vec!["openai", "anthropic"]);
}

#[test]
fn config_dir_is_the_parent_of_the_config_file() {
    let loaded = LoadedConfig {
        path: "/tmp/project/langcodec.toml".to_string(),
        data: CliConfig::default(),
    };
    assert_eq!(loaded.config_dir(), Some("/tmp/project".to_string()));
}
