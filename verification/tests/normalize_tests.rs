use langcodec_cli::normalize::{
    has_distinct_output_path, normalize_action, parse_key_style, single_input, KeyStyle, NormalizeAction,
    NormalizeCliOptions,
};

fn opts(check: bool, dry_run: bool, output: Option<&str>) -> NormalizeCliOptions {
    NormalizeCliOptions {
        inputs: vec!["en.strings".to_string()],
        output: output.map(|s| s.to_string()),
        dry_run,
        check,
        no_placeholders: false,
        key_style: "none".to_string(),
    }
}

#[test]
fn key_styles_are_read_loosely() {
    assert_eq!(parse_key_style(" Snake ").unwrap(), KeyStyle::Snake);
    assert_eq!(parse_key_style("none").unwrap(), KeyStyle::Keep);
    assert_eq!(parse_key_style("KEBAB").unwrap(), KeyStyle::Kebab);
    assert_eq!(parse_key_style("camel").unwrap(), KeyStyle::Camel);
    assert_eq!(
        parse_key_style("Pascal").unwrap_err(),
        "Invalid --key-style 'pascal'. Expected one of: none, snake, kebab, camel"
    );
}

#[test]
fn check_mode_fails_on_change_only() {
    assert_eq!(normalize_action(true, &opts(true, false, None), "en.strings"), NormalizeAction::CheckFails);
    assert_eq!(normalize_action(false, &opts(true, false, None), "en.strings"), NormalizeAction::NoChange);
}

#[test]
fn dry_run_reports_only() {
    assert_eq!(normalize_action(true, &opts(false, true, None), "en.strings"), NormalizeAction::DryRunChange);
}

#[test]
fn unchanged_file_is_copied_only_to_another_output() {
    assert_eq!(
        normalize_action(false, &opts(false, false, Some("out.strings")), "en.strings"),
        NormalizeAction::CopyUnchanged
    );
    assert_eq!(
        normalize_action(false, &opts(false, false, Some("en.strings")), "en.strings"),
        NormalizeAction::NoChange
    );
    assert_eq!(normalize_action(true, &opts(false, false, None), "en.strings"), NormalizeAction::Write);
    assert!(!has_distinct_output_path("a/b.xml", &Some("a//b.xml".to_string())));
}

#[test]
fn exactly_one_input() {
    assert_eq!(single_input(&Vec::new(), false).unwrap_err(), "No input files matched the provided patterns");
    assert_eq!(
        single_input(&vec!["a".to_string(), "b".to_string()], false).unwrap_err(),
        "Normalize currently supports exactly one input file"
    );
    assert_eq!(single_input(&vec!["a".to_string()], false), Ok(0));
    assert_eq!(single_input(&vec!["a".to_string()], true), Ok(0));
}

#[test]
fn test_normalize_rejects_output_with_multiple_inputs() {
    let err = single_input(&vec!["a.strings".to_string(), "b.strings".to_string()], true).unwrap_err();
    assert!(err.contains("--output cannot be used with multiple input files"));
}
