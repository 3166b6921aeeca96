use langcodec_cli::formats::get_supported_custom_formats;
use langcodec_cli::{parse_custom_format, CustomFormat};

#[test]
fn test_parse_custom_format_json() {
    let result = parse_custom_format("json-language-map");
    assert!(result.is_ok());
    assert!(matches!(result.unwrap(), CustomFormat::JSONLanguageMap));
}

#[test]
fn test_parse_custom_format_yaml() {
    let result = parse_custom_format("yaml-language-map");
    assert!(result.is_ok());
    assert!(matches!(result.unwrap(), CustomFormat::YAMLLanguageMap));
}

#[test]
fn test_parse_custom_format_case_insensitive() {
    let result = parse_custom_format("JSON-LANGUAGE-MAP");
    assert!(result.is_ok());
    assert!(matches!(result.unwrap(), CustomFormat::JSONLanguageMap));
}

#[test]
fn test_parse_custom_format_with_underscores() {
    let result = parse_custom_format("json_language_map");
    assert!(result.is_ok());
    assert!(matches!(result.unwrap(), CustomFormat::JSONLanguageMap));
}

#[test]
fn test_parse_custom_format_invalid() {
    let result = parse_custom_format("invalid-format");
    assert!(result.is_err());
    assert!(result.unwrap_err().contains("Unknown custom format"));
}

#[test]
fn parse_custom_format_array_and_resource_array() {
    assert!(matches!(
        parse_custom_format("json-array-language-map").unwrap(),
        CustomFormat::JSONArrayLanguageMap
    ));
    assert!(parse_custom_format("langcodec-resource-array").is_err());
}

#[test]
fn supported_custom_formats_are_listed() {
    let listed = get_supported_custom_formats();
    assert!(listed.contains("json-language-map"));
    assert!(listed.contains("yaml-language-map"));
    assert!(listed.contains("json-array-language-map"));
}
