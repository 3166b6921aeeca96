use langcodec_cli::model::{EntryStatus, Translation};
use langcodec_cli::transformers::{transform_json_array_language_map, transform_json_language_map, transform_yaml_language_map};

fn singular(t: &Translation) -> &str {
    match t {
        Translation::Singular(s) => s.as_str(),
        _ => "",
    }
}

fn custom<'a>(pairs: &'a [(String, String)], key: &str) -> Option<&'a str> {
    pairs.iter().find(|(k, _)| k == key).map(|(_, v)| v.as_str())
}

#[test]
fn json_language_map_transformation() {
    let text = r#"{
        "key": "hello_world",
        "en": "Hello, World!",
        "fr": "Bonjour, le monde!"
    }"#;
    let resources = transform_json_language_map("test.json", text).unwrap();
    assert_eq!(resources.len(), 2);
    let en = resources.iter().find(|r| r.metadata.language == "en").unwrap();
    assert_eq!(en.entries.len(), 1);
    assert_eq!(en.entries[0].id, "hello_world");
    assert_eq!(singular(&en.entries[0].value), "Hello, World!");
    assert_eq!(en.entries[0].status, EntryStatus::NeedsReview);
    assert_eq!(custom(&en.metadata.custom, "format"), Some("JSONLanguageMap"));
    assert_eq!(custom(&en.metadata.custom, "source_language"), Some("en"));
    assert_eq!(custom(&en.entries[0].custom, "extraction_state"), Some("manual"));
    let fr = resources.iter().find(|r| r.metadata.language == "fr").unwrap();
    assert_eq!(singular(&fr.entries[0].value), "Bonjour, le monde!");
}

#[test]
fn json_language_map_key_falls_back_to_english() {
    let resources = transform_json_language_map("t.json", r#"{"en": "Hello", "fr": "Bonjour"}"#).unwrap();
    assert_eq!(resources.len(), 2);
    assert!(resources.iter().all(|r| r.entries[0].id == "Hello"));
}

#[test]
fn json_language_map_errors() {
    assert_eq!(
        transform_json_language_map("t.json", "{}").unwrap_err(),
        "Error: JSON object is empty"
    );
    let err = transform_json_language_map("t.json", "not json").unwrap_err();
    assert!(err.starts_with("Error parsing JSON from t.json: "));
    assert!(err.ends_with(". Expected format: {\"en\": \"Hello\", \"fr\": \"Bonjour\"}"));
}

#[test]
fn json_array_language_map_groups_by_language() {
    let text = r#"[
        {"key": "hello_world", "en": "Hello, World!", "fr": "Bonjour, le monde!"},
        {},
        {"key": "welcome_message", "en": "Welcome to our app!", "fr": "Bienvenue dans notre application!"}
    ]"#;
    let resources = transform_json_array_language_map("a.json", text).unwrap();
    assert_eq!(resources.len(), 2);
    assert_eq!(resources[0].metadata.language, "en");
    assert_eq!(resources[1].metadata.language, "fr");
    let en = &resources[0];
    assert_eq!(en.entries.len(), 2);
    assert_eq!(en.entries[0].id, "hello_world");
    assert_eq!(en.entries[1].id, "welcome_message");
    assert_eq!(custom(&en.entries[0].custom, "array_index"), Some("0"));
    assert_eq!(custom(&en.entries[1].custom, "array_index"), Some("2"));
    assert_eq!(custom(&en.metadata.custom, "format"), Some("JSONArrayLanguageMap"));
}

#[test]
fn json_array_language_map_errors() {
    assert_eq!(
        transform_json_array_language_map("a.json", "[]").unwrap_err(),
        "Error: JSON array is empty"
    );
    let err = transform_json_array_language_map("a.json", "{}").unwrap_err();
    assert!(err.starts_with("Error parsing JSON array from a.json: "));
}

#[test]
fn test_yaml_language_map_transformation() {
    let yaml_content = r#"key: hello_world
en: Hello, World!
fr: Bonjour, le monde!"#;
    let result = transform_yaml_language_map("test.yaml", yaml_content);
    assert!(result.is_ok());
    let resources = result.unwrap();
    assert_eq!(resources.len(), 2);
    let en = resources.iter().find(|r| r.metadata.language == "en").unwrap();
    assert_eq!(en.entries.len(), 1);
    assert_eq!(en.entries[0].id, "hello_world");
    assert_eq!(singular(&en.entries[0].value), "Hello, World!");
    let fr = resources.iter().find(|r| r.metadata.language == "fr").unwrap();
    assert_eq!(fr.entries.len(), 1);
    assert_eq!(fr.entries[0].id, "hello_world");
    assert_eq!(singular(&fr.entries[0].value), "Bonjour, le monde!");
    assert_eq!(custom(&fr.metadata.custom, "format"), Some("YAMLLanguageMap"));
}

#[test]
fn test_yaml_transformation_invalid_yaml() {
    let result = transform_yaml_language_map("invalid.yaml", "invalid: yaml: content");
    assert!(result.is_err());
    assert!(result.unwrap_err().contains("Error parsing YAML"));
}

#[test]
fn test_malformed_yaml() {
    let yaml_content = r#"key: hello_world
en: Hello
fr: Bonjour
  - invalid: yaml: structure"#;
    let result = transform_yaml_language_map("malformed.yaml", yaml_content);
    assert!(result.is_err());
}

#[test]
fn test_yaml_with_unicode_characters() {
    let yaml_content = r#"key: hello_world
en: Hello ABC
fr: Bonjour éàè"#;
    let result = transform_yaml_language_map("unicode.yaml", yaml_content);
    assert!(result.is_ok());
}

#[test]
fn test_yaml_with_comments() {
    let yaml_content = r#"# This is a comment
key: hello_world
en: Hello, World!  # Inline comment
fr: Bonjour, le monde!"#;
    let result = transform_yaml_language_map("comments.yaml", yaml_content);
    assert!(result.is_ok());
    let en = result.unwrap().into_iter().find(|r| r.metadata.language == "en").unwrap();
    assert_eq!(singular(&en.entries[0].value), "Hello, World!");
}

#[test]
fn test_yaml_with_multiline_strings() {
    let yaml_content = r#"key: hello_world
en: |
  This is a
  multiline string
  with multiple lines
fr: Bonjour"#;
    let result = transform_yaml_language_map("multiline.yaml", yaml_content);
    assert!(result.is_ok());
}

#[test]
fn yaml_language_map_errors() {
    assert_eq!(transform_yaml_language_map("empty.yaml", "{}").unwrap_err(), "Error: YAML object is empty");
    let err = transform_yaml_language_map("list.yaml", "- a\n- b").unwrap_err();
    assert!(err.starts_with("Error parsing YAML from list.yaml: "));
}
