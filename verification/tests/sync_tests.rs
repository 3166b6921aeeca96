use langcodec_cli::model::{Entry, EntryStatus, Metadata, Resource, Translation};
use langcodec_cli::sync::{infer_match_language, sync_resources, sync_verdict};

fn resource(lang: &str, pairs: &[(&str, &str)]) -> Resource {
    Resource {
        metadata: Metadata { language: lang.to_string(), domain: String::new(), custom: Vec::new() },
        entries: pairs
            .iter()
            .map(|(k, v)| Entry {
                id: k.to_string(),
                value: Translation::Singular(v.to_string()),
                comment: None,
                status: EntryStatus::Translated,
                custom: Vec::new(),
            })
            .collect(),
    }
}

fn value(rs: &[Resource], lang: &str, key: &str) -> Option<String> {
    rs.iter()
        .find(|r| r.metadata.language == lang)
        .and_then(|r| r.entries.iter().find(|e| e.id == key))
        .map(|e| match &e.value {
            Translation::Singular(s) => s.clone(),
            _ => String::new(),
        })
}

fn sample() -> (Vec<Resource>, Vec<Resource>) {
    let source = vec![
        resource("en", &[("welcome_key", "Welcome"), ("goodbye", "Goodbye"), ("new_only", "Only in source")]),
        resource("fr", &[("welcome_key", "Bienvenue"), ("goodbye", "Au revoir"), ("new_only", "Seulement source")]),
    ];
    let target = vec![
        resource("en", &[("Welcome", "Old Welcome"), ("goodbye", "Old Goodbye"), ("keep_me", "Keep me")]),
        resource("fr", &[("Welcome", "Ancienne bienvenue"), ("goodbye", "Ancien au revoir"), ("keep_me", "Reste pareil")]),
    ];
    (source, target)
}

#[test]
fn sync_updates_existing_entries_with_translation_fallback() {
    let (source, mut target) = sample();
    let report = sync_resources(&mut target, &source, &None, "en", false);
    assert_eq!(value(&target, "en", "Welcome").as_deref(), Some("Welcome"));
    assert_eq!(value(&target, "fr", "Welcome").as_deref(), Some("Bienvenue"));
    assert_eq!(value(&target, "en", "goodbye").as_deref(), Some("Goodbye"));
    assert_eq!(value(&target, "fr", "goodbye").as_deref(), Some("Au revoir"));
    assert_eq!(value(&target, "fr", "keep_me").as_deref(), Some("Reste pareil"));
    assert_eq!(value(&target, "en", "new_only"), None);
    let s = report.stats;
    assert_eq!(
        s.updated + s.unchanged + s.skipped_unmatched + s.skipped_missing_language + s.skipped_ambiguous_fallback
            + s.skipped_type_mismatch,
        s.total_entries
    );
    assert_eq!(s.total_entries, 6);
    assert!(s.fallback_matches <= s.updated);
}

#[test]
fn sync_dry_run_changes_nothing() {
    let (source, mut target) = sample();
    let before: Vec<Option<String>> = ["Welcome", "goodbye", "keep_me"].iter().map(|k| value(&target, "en", k)).collect();
    let report = sync_resources(&mut target, &source, &None, "en", true);
    let after: Vec<Option<String>> = ["Welcome", "goodbye", "keep_me"].iter().map(|k| value(&target, "en", k)).collect();
    assert_eq!(before, after);
    assert!(report.stats.updated > 0);
}

#[test]
fn sync_language_filter_touches_only_that_language() {
    let (source, mut target) = sample();
    sync_resources(&mut target, &source, &Some("fr".to_string()), "en", false);
    assert_eq!(value(&target, "en", "goodbye").as_deref(), Some("Old Goodbye"));
    assert_eq!(value(&target, "fr", "goodbye").as_deref(), Some("Au revoir"));
}

#[test]
fn sync_unknown_language_is_an_error() {
    let (source, mut target) = sample();
    let report = sync_resources(&mut target, &source, &Some("de".to_string()), "en", false);
    let err = sync_verdict(&Some("de".to_string()), report.processed_languages, &report.stats, false, false, false)
        .unwrap_err();
    assert_eq!(err, "Language 'de' not found in target file");
}

#[test]
fn match_language_prefers_explicit_then_english() {
    let (source, _) = sample();
    assert_eq!(infer_match_language(&source, &Some("fr".to_string())), "fr");
    assert_eq!(infer_match_language(&source, &None), "en");
}
