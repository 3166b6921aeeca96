use langcodec_cli::validation::{
    file_verdict, validate_context, validate_custom_format, validate_file_path, validate_standard_format,
    ValidationContext,
};
use langcodec_cli::lang::validate_language_code;
use tempfile::{Builder, NamedTempFile, TempDir};

fn file_named(dir: &TempDir, prefix: &str, suffix: &str) -> NamedTempFile {
    Builder::new().prefix(prefix).suffix(suffix).tempfile_in(dir.path()).unwrap()
}

#[test]
fn test_validate_file_path_exists() {
    let temp_dir = TempDir::new().unwrap();
    let test_file = file_named(&temp_dir, "test", ".txt");
        let result = validate_file_path(test_file.path().to_str().unwrap());
    assert!(result.is_ok());
}

#[test]
fn test_validate_file_path_not_exists() {
    let result = validate_file_path("nonexistent_file.txt");
    assert!(result.is_err());
    let error = result.unwrap_err();
    assert!(error.contains("File does not exist"));
}

#[test]
fn test_validate_file_path_directory() {
    let temp_dir = TempDir::new().unwrap();
    let result = validate_file_path(temp_dir.path().to_str().unwrap());
    assert!(result.is_err());
    let error = result.unwrap_err();
    assert!(error.contains("Path is not a file"));
}

#[test]
fn test_validate_language_code_valid() {
    let valid_codes = vec!["en", "fr", "es", "en-US", "fr-CA", "zh-CN", "pt-BR"];
    for code in valid_codes {
        let result = validate_language_code(code);
        assert!(result.is_ok(), "Language code '{}' should be valid", code);
    }
}

#[test]
fn test_validate_language_code_invalid() {
    let invalid_codes = vec!["", "invalid", "123", "en-", "-US"];
    for code in invalid_codes {
        let result = validate_language_code(code);
        assert!(result.is_err(), "Language code '{}' should be invalid", code);
        let error = result.unwrap_err();
        assert!(error.contains("Invalid language code format") || error.contains("cannot be empty"));
    }
}

#[test]
fn test_validate_custom_format_valid() {
    let valid_formats = vec![
        "json-language-map",
        "yaml-language-map",
        "json-array-language-map",
        "JSON-LANGUAGE-MAP",
        "json_language_map",
    ];
    for format in valid_formats {
        let result = validate_custom_format(format);
        assert!(result.is_ok(), "Format '{}' should be valid", format);
    }
}

#[test]
fn test_validate_custom_format_invalid() {
    let invalid_formats = vec!["invalid-format", "json", "yaml", "", "json-language"];
    for format in invalid_formats {
        let result = validate_custom_format(format);
        assert!(result.is_err(), "Format '{}' should be invalid", format);
        let error = result.unwrap_err();
        assert!(error.contains("Unsupported custom format") || error.contains("cannot be empty"));
    }
}

#[test]
fn test_validate_context_complete() {
    let temp_dir = TempDir::new().unwrap();
    let input_file = file_named(&temp_dir, "input", ".json");
    let output_file = temp_dir.path().join("output.xcstrings");
    let context = ValidationContext::new()
        .with_input_file(input_file.path().to_str().unwrap().to_string())
        .with_output_file(output_file.to_str().unwrap().to_string())
        .with_language_code("en".to_string())
        .with_input_format("json-language-map".to_string())
        .with_output_format("xcstrings".to_string());
    let result = validate_context(&context);
    assert!(result.is_ok());
}

#[test]
fn test_validate_context_invalid_input_file() {
    let context = ValidationContext::new().with_input_file("nonexistent.json".to_string());
    let result = validate_context(&context);
    assert!(result.is_err());
    let error = result.unwrap_err();
    assert!(error.contains("Input file 1 validation failed"));
}

#[test]
fn test_validate_context_invalid_language() {
    let temp_dir = TempDir::new().unwrap();
    let input_file = file_named(&temp_dir, "input", ".json");
        let context = ValidationContext::new()
        .with_input_file(input_file.path().to_str().unwrap().to_string())
        .with_language_code("invalid".to_string());
    let result = validate_context(&context);
    assert!(result.is_err());
    let error = result.unwrap_err();
    assert!(error.contains("Language code validation failed"));
}

#[test]
fn test_validate_context_invalid_input_format() {
    let temp_dir = TempDir::new().unwrap();
    let input_file = file_named(&temp_dir, "input", ".json");
        let context = ValidationContext::new()
        .with_input_file(input_file.path().to_str().unwrap().to_string())
        .with_input_format("invalid-format".to_string());
    let result = validate_context(&context);
    assert!(result.is_err());
    let error = result.unwrap_err();
    assert!(error.contains("Input format validation failed"));
}

#[test]
fn test_validate_context_multiple_input_files() {
    let temp_dir = TempDir::new().unwrap();
    let input_file1 = file_named(&temp_dir, "input1", ".json");
    let input_file2 = file_named(&temp_dir, "input2", ".json");
    let context = ValidationContext::new()
        .with_input_file(input_file1.path().to_str().unwrap().to_string())
        .with_input_file(input_file2.path().to_str().unwrap().to_string());
    let result = validate_context(&context);
    assert!(result.is_ok());
}

#[test]
fn test_validate_context_empty() {
    let context = ValidationContext::new();
    let result = validate_context(&context);
    assert!(result.is_ok());
}

#[test]
fn test_validation_context_builder() {
    let context = ValidationContext::new()
        .with_input_file("test.json".to_string())
        .with_output_file("output.xcstrings".to_string())
        .with_language_code("en".to_string())
        .with_input_format("json-language-map".to_string())
        .with_output_format("xcstrings".to_string());
    assert_eq!(context.input_files.len(), 1);
    assert_eq!(context.input_files[0], "test.json");
    assert_eq!(context.output_file.as_ref().unwrap(), "output.xcstrings");
    assert_eq!(context.language_code.as_ref().unwrap(), "en");
    assert_eq!(context.input_format.as_ref().unwrap(), "json-language-map");
    assert_eq!(context.output_format.as_ref().unwrap(), "xcstrings");
}

#[test]
fn test_validate_special_characters_in_path() {
    let temp_dir = TempDir::new().unwrap();
    let file_with_spaces = file_named(&temp_dir, "test file", ".txt");
        assert!(validate_file_path(file_with_spaces.path().to_str().unwrap()).is_ok());
    let file_with_special_chars = file_named(&temp_dir, "test-file_123", ".txt");
        assert!(validate_file_path(file_with_special_chars.path().to_str().unwrap()).is_ok());
}

#[test]
fn test_validate_unicode_paths() {
    let temp_dir = TempDir::new().unwrap();
    let unicode_file = file_named(&temp_dir, "test-émojis-🚀", ".txt");
        assert!(validate_file_path(unicode_file.path().to_str().unwrap()).is_ok());
}

#[test]
fn test_validate_absolute_paths() {
    let temp_dir = TempDir::new().unwrap();
    let test_file = file_named(&temp_dir, "test", ".txt");
        assert!(validate_file_path(test_file.path().to_str().unwrap()).is_ok());
}

#[test]
fn test_validate_case_sensitivity() {
    let result1 = validate_custom_format("JSON-LANGUAGE-MAP");
    let result2 = validate_custom_format("json-language-map");
    assert!(result1.is_ok());
    assert!(result2.is_ok());
}

#[test]
fn test_validate_whitespace_handling() {
    let result1 = validate_custom_format("  json-language-map  ");
    let result2 = validate_standard_format("  xcstrings  ");
    let result3 = validate_standard_format("  tsv  ");
    assert!(result1.is_ok());
    assert!(result2.is_ok());
    assert!(result3.is_ok());
}

#[test]
fn test_validate_error_messages() {
    let result = validate_file_path("nonexistent.txt");
    assert!(result.is_err());
    let error = result.unwrap_err();
    assert!(error.contains("File does not exist"));
    assert!(error.contains("nonexistent.txt"));

    let result = validate_custom_format("invalid");
    assert!(result.is_err());
    let error = result.unwrap_err();
    assert!(error.contains("Unsupported custom format"));
    assert!(error.contains("invalid"));
}

#[test]
fn test_validate_concurrent_access() {
    let temp_dir = TempDir::new().unwrap();
    let test_file = file_named(&temp_dir, "test", ".txt");
        let result1 = validate_file_path(test_file.path().to_str().unwrap());
    let result2 = validate_file_path(test_file.path().to_str().unwrap());
    assert!(result1.is_ok());
    assert!(result2.is_ok());
}

#[test]
fn file_verdict_names_each_failure() {
    assert_eq!(file_verdict("a.txt", true, true), Ok(()));
    assert_eq!(file_verdict("a.txt", false, false), Err("File does not exist: a.txt".to_string()));
    assert!(file_verdict("dir", true, false).unwrap_err().contains("Path is not a file"));
}

#[test]
fn standard_format_rejects_unknown_names() {
    assert!(validate_standard_format("docx").is_err());
    assert!(validate_standard_format("strings").is_ok());
}
