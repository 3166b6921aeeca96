use langcodec_cli::ai::{available_providers, read_api_key, resolve_model, resolve_provider, KeyPresence, ProviderKind};
use langcodec_cli::config::{CliConfig, ProviderConfig};

fn keys(openai: bool, anthropic: bool, gemini: bool) -> KeyPresence {
    KeyPresence { openai, anthropic, gemini }
}

fn config(openai: Option<&str>, anthropic: Option<&str>) -> CliConfig {
    let mut c = CliConfig::default();
    c.openai = ProviderConfig { model: openai.map(|s| s.to_string()) };
    c.anthropic = ProviderConfig { model: anthropic.map(|s| s.to_string()) };
    c
}

#[test]
fn resolve_provider_uses_single_configured_provider_section() {
    let c = config(Some("alpha-model"), None);
    let provider = resolve_provider(None, Some(&c), None, &keys(false, false, false)).unwrap();
    assert_eq!(provider, ProviderKind::OpenAI);
}

#[test]
fn resolve_provider_rejects_multiple_configured_provider_sections() {
    let c = config(Some("alpha-model"), Some("beta-model"));
    let err = resolve_provider(None, Some(&c), None, &keys(false, false, false)).unwrap_err();
    assert!(err.contains("Multiple provider sections are configured"));
}

#[test]
fn resolve_model_prefers_selected_provider_section() {
    let c = config(Some("alpha-model"), Some("beta-model"));
    let model = resolve_model(None, Some(&c), &ProviderKind::Anthropic, None, None).unwrap();
    assert_eq!(model, "beta-model");
}

#[test]
fn command_line_provider_wins() {
    let c = config(Some("alpha-model"), Some("beta-model"));
    assert_eq!(
        resolve_provider(Some("gemini"), Some(&c), None, &keys(true, true, true)).unwrap(),
        ProviderKind::Gemini
    );
    assert!(resolve_provider(Some("nope"), None, None, &keys(false, false, false)).is_err());
}

#[test]
fn single_present_key_selects_its_provider() {
    assert_eq!(
        resolve_provider(None, None, None, &keys(false, true, false)).unwrap(),
        ProviderKind::Anthropic
    );
    assert!(resolve_provider(None, None, None, &keys(false, false, false)).is_err());
    assert_eq!(available_providers(&keys(true, false, true)), vec![ProviderKind::OpenAI, ProviderKind::Gemini]);
}

#[test]
fn provider_names_and_key_variables() {
    assert_eq!(ProviderKind::parse("OpenAI").unwrap(), ProviderKind::OpenAI);
    assert_eq!(ProviderKind::Anthropic.api_key_env(), "ANTHROPIC_API_KEY");
    assert_eq!(ProviderKind::Gemini.display_name(), "gemini");
    assert!(read_api_key(&ProviderKind::OpenAI, None).is_err());
    assert_eq!(read_api_key(&ProviderKind::OpenAI, Some("k".to_string())).unwrap(), "k");
}
