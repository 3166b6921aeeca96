use langcodec_cli::diff::{check_diff_inputs, run_diff_command, DiffOptions, DiffReport};
use langcodec_cli::model::{Entry, EntryStatus, Metadata, Resource, Translation};

fn resource(lang: &str, pairs: &[(&str, &str)]) -> Resource {
    Resource {
        metadata: Metadata { language: lang.to_string(), domain: String::new(), custom: Vec::new() },
        entries: pairs
            .iter()
            .map(|(k, v)| Entry {
                id: k.to_string(),
                value: Translation::Singular(v.to_string()),
                comment: None,
                status: EntryStatus::Translated,
                custom: Vec::new(),
            })
            .collect(),
    }
}

fn options(lang: Option<&str>, json: bool) -> DiffOptions {
    DiffOptions {
        source: "source.csv".to_string(),
        target: "target.csv".to_string(),
        lang: lang.map(|l| l.to_string()),
        json,
        output: None,
        strict: false,
    }
}

fn sample() -> (Vec<Resource>, Vec<Resource>) {
    let source = vec![
        resource("en", &[("a", "A1"), ("b", "B1"), ("c", "C1")]),
        resource("fr", &[("a", "FA1"), ("b", "FB1"), ("c", "FC1")]),
    ];
    let target = vec![
        resource("en", &[("b", "B2"), ("c", "C1"), ("d", "D1")]),
        resource("fr", &[("b", "FB2"), ("c", "FC1"), ("d", "FD1")]),
    ];
    (source, target)
}

fn language<'a>(report: &'a DiffReport, lang: &str) -> &'a langcodec_cli::diff::LanguageDiff {
    report.languages.iter().find(|l| l.language == lang).expect("language report")
}

#[test]
fn diff_reports_added_removed_changed() {
    let (source, target) = sample();
    let report = run_diff_command(&options(None, true), source, target);
    let en = language(&report, "en");
    assert_eq!(en.added.len(), 1);
    assert_eq!(en.removed.len(), 1);
    assert_eq!(en.changed.len(), 1);
    assert_eq!(en.unchanged, 1);
    assert_eq!(report.summary.languages, 2);
    assert_eq!(report.summary.added, 2);
    assert_eq!(report.summary.removed, 2);
    assert_eq!(report.summary.changed, 2);
    assert_eq!(report.summary.unchanged, 2);
    assert!(report.text.is_none());
}

#[test]
fn diff_lang_filter_keeps_one_language() {
    let (source, target) = sample();
    let report = run_diff_command(&options(Some("en"), false), source, target);
    assert_eq!(report.languages.len(), 1);
    assert_eq!(report.languages[0].language, "en");
    let text = report.text.expect("human report");
    assert!(text.contains("Language: en"));
    assert!(!text.contains("Language: fr"));
}

#[test]
fn diff_with_itself_is_clean() {
    let (source, _) = sample();
    let (copy, _) = sample();
    let report = run_diff_command(&options(None, true), source, copy);
    for l in &report.languages {
        assert!(l.added.is_empty());
        assert!(l.removed.is_empty());
        assert!(l.changed.is_empty());
        assert_eq!(l.unchanged, 3);
    }
}

#[test]
fn diff_accounts_for_every_source_key() {
    let (source, target) = sample();
    let report = run_diff_command(&options(None, true), source, target);
    for l in &report.languages {
        assert_eq!(l.removed.len() + l.changed.len() + l.unchanged, 3);
    }
}

#[test]
fn diff_inputs_report_the_first_failing_check() {
    let missing = DiffOptions {
        source: "/nonexistent/source.strings".to_string(),
        target: "/nonexistent/target.strings".to_string(),
        lang: Some("bad".to_string()),
        json: false,
        output: None,
        strict: false,
    };
    assert_eq!(
        check_diff_inputs(&missing),
        Err("File does not exist: /nonexistent/source.strings".to_string())
    );

    let source = tempfile::NamedTempFile::new().unwrap();
    let target = tempfile::NamedTempFile::new().unwrap();
    let mut opts = DiffOptions {
        source: source.path().to_string_lossy().to_string(),
        target: target.path().to_string_lossy().to_string(),
        lang: Some("english".to_string()),
        json: false,
        output: None,
        strict: false,
    };
    assert_eq!(
        check_diff_inputs(&opts),
        Err("Invalid language code format: english. Expected format: 'en' or 'en-US'".to_string())
    );
    opts.lang = Some("en-US".to_string());
    assert_eq!(check_diff_inputs(&opts), Ok(()));
}
