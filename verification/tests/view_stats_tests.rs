use langcodec_cli::model::{Entry, EntryStatus, Metadata, Resource, Translation};
use langcodec_cli::stats::stats_report;
use langcodec_cli::view::{parse_status_filter, print_view, truncate_chars, ViewOptions};

fn entry(id: &str, value: &str, status: EntryStatus) -> Entry {
    Entry { id: id.to_string(), value: Translation::Singular(value.to_string()), comment: None, status, custom: Vec::new() }
}

fn sample() -> Vec<Resource> {
    vec![
        Resource {
            metadata: Metadata { language: "en".to_string(), domain: String::new(), custom: Vec::new() },
            entries: vec![
                entry("a", "A", EntryStatus::Translated),
                entry("b", "B", EntryStatus::New),
                entry("c", "C", EntryStatus::DoNotTranslate),
            ],
        },
        Resource {
            metadata: Metadata { language: "fr".to_string(), domain: String::new(), custom: Vec::new() },
            entries: vec![entry("a", "FA", EntryStatus::NeedsReview), entry("d", "FD", EntryStatus::New)],
        },
    ]
}

fn view_options(status: Option<&str>) -> ViewOptions {
    ViewOptions { full: false, status: status.map(|s| s.to_string()), keys_only: false, json: false }
}

#[test]
fn stats_count_statuses_per_language() {
    let report = stats_report(&sample(), &None);
    assert_eq!(report.languages.len(), 2);
    assert_eq!(report.languages[0].0, "en");
    let en = report.languages[0].1;
    assert_eq!(en.total, 3);
    assert_eq!(en.by_status.translated, 1);
    assert_eq!(en.by_status.new, 1);
    assert_eq!(en.by_status.do_not_translate, 1);
    assert_eq!(en.denominator, 2);
    assert_eq!(report.unique_keys, 4);
}

#[test]
fn stats_language_filter() {
    let report = stats_report(&sample(), &Some("fr".to_string()));
    assert_eq!(report.languages.len(), 1);
    assert_eq!(report.languages[0].0, "fr");
    assert_eq!(report.languages[0].1.by_status.needs_review, 1);
}

#[test]
fn view_status_filter_selects_entries() {
    let out = print_view(&sample(), &None, &view_options(Some("new")));
    assert!(!out.failed);
    let shown: usize = out.shown.iter().map(|(_, es)| es.len()).sum();
    assert_eq!(shown, 2);
}

#[test]
fn view_unknown_language_fails() {
    let out = print_view(&sample(), &Some("de".to_string()), &view_options(None));
    assert!(out.failed);
    assert_eq!(out.stderr, vec!["Language 'de' not found. Available languages: en, fr".to_string()]);
}

#[test]
fn view_bad_status_fails() {
    let out = print_view(&sample(), &None, &view_options(Some("bogus")));
    assert!(out.failed);
    assert!(parse_status_filter(&Some("bogus".to_string())).is_err());
    assert_eq!(parse_status_filter(&None).unwrap(), None);
}

#[test]
fn truncation_counts_characters() {
    assert_eq!(truncate_chars("héllo", 10), "héllo");
    assert!(truncate_chars("abcdefghijkl", 5).chars().count() <= 8);
}

#[test]
fn shown_entries_are_counted_by_status() {
    let resources = sample();
    let shown = vec![(0usize, vec![0usize, 1]), (1usize, vec![0usize, 1])];
    let counts = langcodec_cli::stats::shown_stats(&resources, &shown);
    assert_eq!(counts.total, 4);
    assert_eq!(counts.by_status.new, 2);
    assert_eq!(counts.by_status.translated, 1);
    assert_eq!(counts.by_status.needs_review, 1);
    assert_eq!(counts.denominator, 4);
}
