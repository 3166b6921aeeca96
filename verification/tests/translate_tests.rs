use langcodec_cli::config::{CliConfig, LoadedConfig};
use langcodec_cli::translate::{close_accounting, expand_translate_invocations, record_result};
use langcodec_cli::translate::{apply_translation_results, find_entry, TranslationJob};
use langcodec_cli::model::{Entry, EntryStatus, Metadata, Plural, PluralCategory, Resource, Translation};
use langcodec_cli::translate::{
    build_jobs, build_prompt, check_translation_plan, count_skipped, parse_status_filter,
    parse_translation_response, progress_line, resolve_target_language, translation_outcome,
    worker_count, BackendRequest, TranslationSummary,
};

fn entry(id: &str, value: Translation, status: EntryStatus) -> Entry {
    Entry { id: id.to_string(), value, comment: None, status, custom: Vec::new() }
}

fn resource(lang: &str, entries: Vec<Entry>) -> Resource {
    Resource {
        metadata: Metadata { language: lang.to_string(), domain: String::new(), custom: Vec::new() },
        entries,
    }
}

fn summary(queued: usize, translated: usize, failed: usize) -> TranslationSummary {
    TranslationSummary {
        total_entries: 5,
        queued,
        translated,
        skipped_do_not_translate: 1,
        skipped_plural: 1,
        skipped_status: 0,
        skipped_empty_source: 0,
        failed,
    }
}

#[test]
fn parses_fenced_json_translation() {
    let text = "```json\n{\"translation\":\"Bonjour\"}\n```";
    let parsed = parse_translation_response(text).unwrap();
    assert_eq!(parsed, "Bonjour");
}

#[test]
fn parses_plain_json_translation() {
    let parsed = parse_translation_response("  {\"translation\":\"Hallo\"}  ").unwrap();
    assert_eq!(parsed, "Hallo");
}

#[test]
fn empty_reply_is_an_error() {
    let err = parse_translation_response("   ").unwrap_err();
    assert_eq!(err, "Model returned an empty translation");
}

#[test]
fn reply_without_json_is_an_error() {
    let err = parse_translation_response("Bonjour").unwrap_err();
    assert_eq!(err, "Model response was not valid translation JSON: Bonjour");
}

#[test]
fn skips_plural_entries() {
    let plural = Translation::Plural(Plural {
        id: "items".to_string(),
        forms: vec![
            (PluralCategory::One, "%#@items@".to_string()),
            (PluralCategory::Other, "%#@items@".to_string()),
        ],
    });
    let source = resource(
        "en",
        vec![
            entry("welcome", Translation::Singular("Welcome".to_string()), EntryStatus::New),
            entry("item_count", plural, EntryStatus::New),
        ],
    );
    let target = vec![resource("fr", Vec::new())];
    let statuses = parse_status_filter(None, None).unwrap();
    let (jobs, summary) = build_jobs(&source, &target, "fr", &statuses, true);
    assert_eq!(summary.skipped_plural, 1);
    assert_eq!(summary.queued, 1);
    assert_eq!(summary.total_entries, 2);
    assert_eq!(jobs.len(), 1);
    assert_eq!(jobs[0].key, "welcome");
    assert_eq!(jobs[0].source_value, "Welcome");
}

#[test]
fn translated_target_entries_are_not_queued_again() {
    let source = resource(
        "en",
        vec![
            entry("a", Translation::Singular("A".to_string()), EntryStatus::New),
            entry("b", Translation::Singular("B".to_string()), EntryStatus::New),
            entry("c", Translation::Singular("".to_string()), EntryStatus::New),
            entry("d", Translation::Singular("D".to_string()), EntryStatus::DoNotTranslate),
        ],
    );
    let target = vec![resource(
        "fr",
        vec![entry("a", Translation::Singular("FA".to_string()), EntryStatus::Translated)],
    )];
    let statuses = parse_status_filter(None, None).unwrap();
    let (jobs, summary) = build_jobs(&source, &target, "fr", &statuses, true);
    assert_eq!(jobs.len(), summary.queued);
    assert_eq!(
        summary.queued
            + summary.skipped_do_not_translate
            + summary.skipped_plural
            + summary.skipped_status
            + summary.skipped_empty_source,
        summary.total_entries
    );
    assert_eq!(summary.skipped_empty_source, 1);
    assert_eq!(summary.skipped_do_not_translate, 1);
}

#[test]
fn default_status_filter_is_new_and_stale() {
    let statuses = parse_status_filter(None, None).unwrap();
    assert_eq!(statuses, vec![EntryStatus::New, EntryStatus::Stale]);
}

#[test]
fn unknown_status_in_filter_is_an_error() {
    assert!(parse_status_filter(Some("new,bogus"), None).is_err());
}

#[test]
fn canonicalizes_target_language_from_existing_target_resource() {
    let target = vec![resource("fr-CA", Vec::new())];
    assert_eq!(resolve_target_language(&target, "fr", None), "fr-CA");
}

#[test]
fn rejects_in_place_single_language_translation_without_target() {
    let err = check_translation_plan(false, "en.strings", "en.strings", false, "en", "fr").unwrap_err();
    assert!(err.contains("Omitting --target is only supported"));
}

#[test]
fn source_and_target_language_must_differ() {
    let err = check_translation_plan(true, "a.csv", "b.csv", true, "fr", "fr-CA").unwrap_err();
    assert_eq!(err, "Source language and target language must differ");
    assert!(check_translation_plan(false, "a.xcstrings", "a.xcstrings", true, "en", "fr").is_ok());
}

#[test]
fn worker_count_is_bounded_by_jobs_and_at_least_one() {
    assert_eq!(worker_count(4, 2), 2);
    assert_eq!(worker_count(2, 10), 2);
    assert_eq!(worker_count(0, 10), 1);
    assert_eq!(worker_count(3, 0), 1);
}

#[test]
fn progress_line_counts_everything() {
    let s = summary(3, 2, 1);
    assert_eq!(count_skipped(&s), 2);
    assert_eq!(progress_line(3, &s), "Progress: 3/3 translated=2 skipped=2 failed=1");
}

#[test]
fn a_failed_request_writes_nothing() {
    let err = translation_outcome(&summary(3, 2, 1), "out.xcstrings").unwrap_err();
    assert_eq!(err, "Translation failed; no files were written");
    let ok = translation_outcome(&summary(3, 3, 0), "out.xcstrings").unwrap();
    assert_eq!(ok.translated, 3);
    assert_eq!(ok.skipped, 2);
    assert_eq!(ok.failed, 0);
    assert_eq!(ok.output_path.as_deref(), Some("out.xcstrings"));
}

#[test]
fn prompt_names_languages_key_and_value() {
    let prompt = build_prompt(&BackendRequest {
        key: "welcome".to_string(),
        source_lang: "en".to_string(),
        target_lang: "fr".to_string(),
        source_value: "Welcome".to_string(),
        source_comment: Some("Greeting".to_string()),
    });
    assert_eq!(
        prompt,
        "Translate the following localization value from en to fr.\nKey: welcome\nSource value:\nWelcome\n\nComment:\nGreeting\n\nReturn JSON only in this exact shape: {\"translation\":\"...\"}. Do not wrap in markdown fences unless necessary."
    );
}

#[test]
fn summary_lines_name_every_count() {
    let lines = langcodec_cli::translate::translation_summary_lines(&summary(3, 2, 1));
    assert_eq!(lines.len(), 8);
    assert_eq!(lines[0], "Total source entries: 5");
    assert_eq!(lines[1], "Queued for translation: 3");
    assert_eq!(lines[7], "Failed: 1");
}

#[test]
fn preamble_mentions_config_and_dry_run_only_when_present() {
    let lines = langcodec_cli::translate::preamble_lines(
        "en", "fr", langcodec_cli::ai::ProviderKind::OpenAI, "m", "a.xcstrings", "b.xcstrings", &None, false,
    );
    assert_eq!(lines, vec![
        "Translating en -> fr using openai:m".to_string(),
        "Source: a.xcstrings".to_string(),
        "Target: b.xcstrings".to_string(),
    ]);
    let lines = langcodec_cli::translate::preamble_lines(
        "en", "fr", langcodec_cli::ai::ProviderKind::Gemini, "m", "a", "b", &Some("/p/langcodec.toml".to_string()), true,
    );
    assert_eq!(lines[3], "Config: /p/langcodec.toml");
    assert_eq!(lines[4], "Mode: dry-run");
}

#[test]
fn explicit_status_follows_target_extension() {
    assert!(langcodec_cli::translate::target_supports_explicit_status("a.xcstrings"));
    assert!(!langcodec_cli::translate::target_supports_explicit_status("fr.strings"));
}

fn translate_options(source: &str, target_lang: Option<&str>) -> langcodec_cli::TranslateOptions {
    langcodec_cli::TranslateOptions {
        source: source.to_string(),
        target: None,
        output: None,
        source_lang: None,
        target_lang: target_lang.map(|s| s.to_string()),
        status: None,
        provider: None,
        model: None,
        concurrency: None,
        config: None,
        dry_run: false,
        strict: false,
    }
}

#[test]
fn target_language_list_fans_out() {
    let runs = expand_translate_invocations(&translate_options("a.xcstrings", Some("fr, de,ja")), None).unwrap();
    let langs: Vec<Option<String>> = runs.iter().map(|r| r.target_lang.clone()).collect();
    assert_eq!(langs, vec![Some("fr".to_string()), Some("de".to_string()), Some("ja".to_string())]);
    assert!(runs.iter().all(|r| r.source == "a.xcstrings"));
}

#[test]
fn config_sources_fan_out_relative_to_the_config() {
    let mut data = CliConfig::default();
    data.translate.sources = Some(vec!["a.xcstrings".to_string(), "/abs/b.xcstrings".to_string()]);
    data.translate.target_lang = Some(vec!["fr".to_string(), "de".to_string()]);
    let config = LoadedConfig { path: "/p/langcodec.toml".to_string(), data };
    let runs = expand_translate_invocations(&translate_options("", None), Some(&config)).unwrap();
    assert_eq!(runs.len(), 4);
    assert_eq!(runs[0].source, "/p/a.xcstrings");
    assert_eq!(runs[0].target_lang.as_deref(), Some("fr"));
    assert_eq!(runs[1].target_lang.as_deref(), Some("de"));
    assert_eq!(runs[3].source, "/abs/b.xcstrings");
}

#[test]
fn translate_without_source_is_refused() {
    let err = expand_translate_invocations(&translate_options("", Some("fr")), None).unwrap_err();
    assert_eq!(err, "--source is required (or set translate.source or translate.sources in langcodec.toml)");
}

#[test]
fn translation_lands_in_target_marked_for_review() {
    let mut target = vec![resource("fr", vec![entry("a", Translation::Singular(String::new()), EntryStatus::New)])];
    let job = |k: &str| TranslationJob {
        key: k.to_string(),
        source_lang: "en".to_string(),
        target_lang: "fr".to_string(),
        source_value: "X".to_string(),
        source_comment: Some("from source".to_string()),
        existing_comment: None,
    };
    let jobs = vec![job("a"), job("b"), job("c")];
    let results = vec![("a".to_string(), "FA".to_string()), ("b".to_string(), "FB".to_string())];
    apply_translation_results(&mut target, &jobs, "fr", &results).unwrap();
    let (i, j) = find_entry(&target, "a", "fr").unwrap();
    assert!(matches!(&target[i].entries[j].value, Translation::Singular(s) if s == "FA"));
    assert_eq!(target[i].entries[j].status, EntryStatus::NeedsReview);
    let (i, j) = find_entry(&target, "b", "fr").unwrap();
    assert!(matches!(&target[i].entries[j].value, Translation::Singular(s) if s == "FB"));
    assert_eq!(target[i].entries[j].comment.as_deref(), Some("from source"));
    assert!(find_entry(&target, "c", "fr").is_none());
}

#[test]
fn lost_results_count_as_failures() {
    let mut s = summary(3, 0, 0);
    let mut results: Vec<(String, String)> = Vec::new();
    record_result(&mut s, &mut results, Ok(("a".to_string(), "A".to_string())));
    record_result(&mut s, &mut results, Ok(("b".to_string(), "B".to_string())));
    close_accounting(&mut s, 2, 0);
    assert_eq!((s.translated, s.failed), (2, 1));
    assert_eq!(
        translation_outcome(&s, "out.xcstrings").unwrap_err(),
        "Translation failed; no files were written"
    );

    let mut all = summary(2, 0, 0);
    record_result(&mut all, &mut results, Ok(("a".to_string(), "A".to_string())));
    record_result(&mut all, &mut results, Ok(("b".to_string(), "B".to_string())));
    close_accounting(&mut all, 2, 0);
    assert_eq!(all.failed, 0);
    assert_eq!(translation_outcome(&all, "out.xcstrings").unwrap().translated, 2);

    let mut crashed = summary(2, 0, 0);
    record_result(&mut crashed, &mut results, Ok(("a".to_string(), "A".to_string())));
    close_accounting(&mut crashed, 1, 1);
    assert_eq!(crashed.failed, 2);
}
