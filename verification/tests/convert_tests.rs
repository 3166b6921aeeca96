use langcodec_cli::convert::{attempt_error, read_plan, ReadKind};
use langcodec_cli::convert::{
    conversion_error_lines, convert_route, explicit_format, filter_languages, language_filter_message,
    resolve_source_language, resolve_version, ConvertOptions, ConvertRoute,
};
use langcodec_cli::formats::{detect_custom_format, CustomFormat, StandardFormat};
use langcodec_cli::model::{Metadata, Resource};

fn options() -> ConvertOptions {
    ConvertOptions {
        input_format: None,
        output_format: None,
        source_language: None,
        version: None,
        exclude_lang: Vec::new(),
        include_lang: Vec::new(),
    }
}

fn resource(lang: &str, custom: &[(&str, &str)]) -> Resource {
    Resource {
        metadata: Metadata {
            language: lang.to_string(),
            domain: String::new(),
            custom: custom.iter().map(|(k, v)| (k.to_string(), v.to_string())).collect(),
        },
        entries: Vec::new(),
    }
}

#[test]
fn routes_follow_output_and_strictness() {
    assert_eq!(convert_route("a.csv", "b.xcstrings", &options(), false), ConvertRoute::Xcstrings);
    let mut o = options();
    o.output_format = Some("XCSTRINGS".to_string());
    assert_eq!(convert_route("a.csv", "b.out", &o, false), ConvertRoute::Xcstrings);
    assert_eq!(convert_route("a.csv", "b.langcodec", &options(), false), ConvertRoute::Langcodec);
    assert_eq!(convert_route("a.json", "b.strings", &options(), true), ConvertRoute::StrictCustom);
    assert_eq!(convert_route("a.csv", "b.strings", &options(), true), ConvertRoute::StrictStandard);
    assert_eq!(convert_route("a.csv", "b.strings", &options(), false), ConvertRoute::Standard);
}

#[test]
fn xcstrings_metadata_defaults() {
    let rs = vec![resource("fr", &[("version", "2.0")])];
    assert_eq!(resolve_source_language(&options(), &rs), "en");
    assert_eq!(resolve_version(&options(), &rs), "2.0");
    let mut o = options();
    o.source_language = Some("de".to_string());
    assert_eq!(resolve_source_language(&o, &rs), "de");
}

#[test]
fn language_filters() {
    let rs = vec![resource("en", &[]), resource("fr", &[]), resource("de", &[])];
    let kept = filter_languages(rs, &vec!["en".to_string(), "de".to_string()], &vec!["de".to_string()]);
    assert_eq!(kept.len(), 1);
    assert_eq!(kept[0].metadata.language, "en");
    assert_eq!(
        language_filter_message(&vec!["en".to_string()], &vec!["de".to_string(), "fr".to_string()]),
        " with language filtering (including: en, excluding: de, fr)"
    );
    assert_eq!(language_filter_message(&Vec::new(), &Vec::new()), "");
}

#[test]
fn explicit_formats() {
    assert_eq!(explicit_format("Android", "input"), Ok(StandardFormat::AndroidStrings));
    assert_eq!(
        explicit_format("docx", "output").unwrap_err(),
        "Unsupported output format: 'docx'. Supported formats: strings, android, xcstrings, csv, tsv"
    );
}

#[test]
fn conversion_error_lists_strategies() {
    let lines = conversion_error_lines("in.yml", "out.xml");
    assert_eq!(lines[0], "Error: Could not convert 'in.yml' to 'out.xml'");
    assert_eq!(lines[3], "1. Standard format detection from file extensions");
    assert_eq!(lines[4], "2. Custom YAML format conversion");
    assert!(lines.iter().any(|l| l == "Supported output formats:"));
    let plain = conversion_error_lines("in.txt", "out.xml");
    assert_eq!(plain.len(), lines.len() - 1);
}

#[test]
fn custom_format_detection_reads_content() {
    assert_eq!(detect_custom_format("a.json", r#"{"en":"Hello"}"#), Some(CustomFormat::JSONLanguageMap));
    assert_eq!(detect_custom_format("a.JSON", r#"[{"en":"Hello"}]"#), Some(CustomFormat::JSONArrayLanguageMap));
    assert_eq!(detect_custom_format("a.json", "{}"), None);
    assert_eq!(detect_custom_format("a.json", "not json"), None);
    assert_eq!(detect_custom_format("a.yaml", "en: Hello\n"), Some(CustomFormat::YAMLLanguageMap));
    assert_eq!(detect_custom_format("a.txt", r#"{"en":"Hello"}"#), None);
}

#[test]
fn read_plan_follows_hint_strictness_and_file_name() {
    let plan = read_plan("dir/en.strings", &None, false);
    assert_eq!(plan.attempts.len(), 2);
    assert!(matches!(plan.attempts[0].kind, ReadKind::Extension));
    assert!(plan.attempts[0].stop_prefix.is_none());
    match &plan.attempts[1].kind {
        ReadKind::Typed(StandardFormat::Strings, Some(l)) => assert_eq!(l, "en"),
        _ => panic!("expected a typed read with the file name's language"),
    }
    assert_eq!(plan.attempts[1].stop_prefix.as_deref(), Some("Failed to read input with language 'en': "));
    assert!(!plan.attempts[1].keep);

    let plan = read_plan("data/Strings.json", &None, false);
    assert_eq!(plan.attempts.len(), 2);
    assert!(plan.attempts[0].report);
    assert!(matches!(plan.attempts[1].kind, ReadKind::Custom(None)));
    assert_eq!(
        plan.fallback_error,
        "Unsupported input format or file extension: 'data/Strings.json'. Supported formats: .strings, .xml, .xcstrings, .csv, .tsv, .json, .yaml, .yml, .langcodec"
    );

    let plan = read_plan("a.txt", &Some("csv".to_string()), true);
    assert_eq!(plan.attempts.len(), 1);
    assert!(matches!(plan.attempts[0].kind, ReadKind::Typed(StandardFormat::Csv, None)));
    assert_eq!(
        attempt_error(&plan.attempts[0], "boom"),
        Some("Failed to read input with explicit format: boom".to_string())
    );

    let plan = read_plan("a.txt", &Some("nope".to_string()), true);
    assert!(plan.attempts.is_empty());
    assert!(plan.fallback_error.starts_with("Unknown custom format: 'nope'"));

    let plan = read_plan("x/base.langcodec", &None, true);
    assert!(matches!(plan.attempts[0].kind, ReadKind::Langcodec));
}
