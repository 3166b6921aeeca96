use langcodec_cli::ai::{KeyPresence, ProviderKind};
use langcodec_cli::annotate::{apply_annotations, Catalog};
use langcodec_cli::annotate::{finish_tally, note_annotation_failure, record_annotation, AnnotateTally};
use langcodec_cli::annotate::{
    check_source_roots, common_ancestor, expand_annotate_invocations, parse_annotation_response, resolve_annotate_options,
    should_preserve_manual_comment, validate_annotation_response, workspace_root_of, AnnotationResponse,
    CatalogItem,
};
use langcodec_cli::config::{AiConfig, AnnotateConfig, CliConfig, LoadedConfig};
use langcodec_cli::AnnotateOptions;
use tempfile::{Builder, TempDir};

fn no_keys() -> KeyPresence {
    KeyPresence { openai: false, anthropic: false, gemini: false }
}

fn options(config: &str) -> AnnotateOptions {
    AnnotateOptions {
        input: None,
        source_roots: Vec::new(),
        output: None,
        source_lang: None,
        provider: None,
        model: None,
        concurrency: None,
        config: Some(config.to_string()),
        dry_run: false,
        check: false,
    }
}

fn loaded(path: &str, annotate: AnnotateConfig) -> LoadedConfig {
    let mut data = CliConfig::default();
    data.ai = AiConfig { provider: Some("openai".to_string()), model: Some("mini-model".to_string()) };
    data.annotate = annotate;
    LoadedConfig { path: path.to_string(), data }
}

fn subdir(parent: &TempDir, prefix: &str) -> TempDir {
    Builder::new().prefix(prefix).tempdir_in(parent.path()).unwrap()
}

fn name_of(dir: &TempDir) -> String {
    dir.path().file_name().unwrap().to_string_lossy().to_string()
}

#[test]
fn parse_annotation_response_accepts_fenced_json() {
    let parsed = parse_annotation_response(
        "```json\n{\"comment\":\"Dialog title for room exit confirmation.\",\"confidence\":\"medium\"}\n```",
    )
    .expect("parse response");
    assert_eq!(parsed.comment, "Dialog title for room exit confirmation.");
    assert_eq!(parsed.confidence, "medium");
}

#[test]
fn annotation_response_needs_a_comment() {
    let r = validate_annotation_response(AnnotationResponse {
        comment: "   ".to_string(),
        confidence: "high".to_string(),
    });
    assert!(r.is_err());
}

#[test]
fn manual_comments_are_preserved() {
    assert!(should_preserve_manual_comment(&CatalogItem {
        comment: Some("Written by hand".to_string()),
        is_comment_auto_generated: None,
    }));
    assert!(!should_preserve_manual_comment(&CatalogItem {
        comment: Some("Generated".to_string()),
        is_comment_auto_generated: Some(true),
    }));
    assert!(!should_preserve_manual_comment(&CatalogItem { comment: None, is_comment_auto_generated: None }));
}

#[test]
fn resolve_annotate_options_uses_config_relative_paths_and_shared_ai_defaults() {
    let project = TempDir::new().unwrap();
    let sources = subdir(&project, "Sources");
    let modules = subdir(&project, "Modules");
    let project_path = project.path().to_string_lossy().to_string();
    let config_path = format!("{}/langcodec.toml", project_path);
    let config = loaded(
        &config_path,
        AnnotateConfig {
            input: Some("Localizable.xcstrings".to_string()),
            inputs: None,
            source_roots: Some(vec![name_of(&sources), name_of(&modules)]),
            output: Some("Annotated.xcstrings".to_string()),
            source_lang: Some("en".to_string()),
            concurrency: Some(2),
        },
    );
    let resolved =
        resolve_annotate_options(&options(&config_path), Some(&config), "/", &no_keys(), None).unwrap();
    assert_eq!(resolved.input, format!("{}/Localizable.xcstrings", project_path));
    assert_eq!(resolved.output, format!("{}/Annotated.xcstrings", project_path));
    assert_eq!(
        resolved.source_roots,
        vec![
            sources.path().to_string_lossy().to_string(),
            modules.path().to_string_lossy().to_string()
        ]
    );
    assert_eq!(resolved.source_lang.as_deref(), Some("en"));
    assert_eq!(resolved.provider, ProviderKind::OpenAI);
    assert_eq!(resolved.model, "mini-model");
    assert_eq!(resolved.concurrency, 2);
}

#[test]
fn resolve_annotate_options_prefers_cli_over_config() {
    let project = TempDir::new().unwrap();
    let config_sources = subdir(&project, "Sources");
    let cli_sources = subdir(&project, "AppSources");
    let project_path = project.path().to_string_lossy().to_string();
    let config_path = format!("{}/langcodec.toml", project_path);
    let config = loaded(
        &config_path,
        AnnotateConfig {
            input: Some("Localizable.xcstrings".to_string()),
            inputs: None,
            source_roots: Some(vec![name_of(&config_sources)]),
            output: None,
            source_lang: Some("en".to_string()),
            concurrency: Some(2),
        },
    );
    let cli_input = format!("{}/Runtime.xcstrings", project_path);
    let mut opts = options(&config_path);
    opts.input = Some(cli_input.clone());
    opts.source_roots = vec![cli_sources.path().to_string_lossy().to_string()];
    opts.output = Some(format!("{}/Output.xcstrings", project_path));
    opts.source_lang = Some("fr".to_string());
    opts.provider = Some("anthropic".to_string());
    opts.model = Some("sonnet-model".to_string());
    opts.concurrency = Some(6);
    opts.dry_run = true;
    opts.check = true;
    let resolved = resolve_annotate_options(&opts, Some(&config), "/", &no_keys(), None).unwrap();
    assert_eq!(resolved.input, cli_input);
    assert_eq!(resolved.source_roots, vec![cli_sources.path().to_string_lossy().to_string()]);
    assert_eq!(resolved.source_lang.as_deref(), Some("fr"));
    assert_eq!(resolved.provider, ProviderKind::Anthropic);
    assert_eq!(resolved.model, "sonnet-model");
    assert_eq!(resolved.concurrency, 6);
    assert!(resolved.dry_run);
    assert!(resolved.check);
}

#[test]
fn missing_source_root_is_an_error() {
    let project = TempDir::new().unwrap();
    let project_path = project.path().to_string_lossy().to_string();
    let config_path = format!("{}/langcodec.toml", project_path);
    let config = loaded(
        &config_path,
        AnnotateConfig {
            input: Some("Localizable.xcstrings".to_string()),
            inputs: None,
            source_roots: Some(vec!["NoSuchDir".to_string()]),
            output: None,
            source_lang: None,
            concurrency: None,
        },
    );
    let err = resolve_annotate_options(&options(&config_path), Some(&config), "/", &no_keys(), None).unwrap_err();
    assert!(err.contains("Source root does not exist or is not a directory"));
}

#[test]
fn expand_annotate_invocations_supports_multiple_config_inputs() {
    let project = TempDir::new().unwrap();
    let sources = subdir(&project, "Sources");
    let project_path = project.path().to_string_lossy().to_string();
    let config_path = format!("{}/langcodec.toml", project_path);
    let config = loaded(
        &config_path,
        AnnotateConfig {
            input: None,
            inputs: Some(vec!["First.xcstrings".to_string(), "Second.xcstrings".to_string()]),
            source_roots: Some(vec![name_of(&sources)]),
            output: None,
            source_lang: Some("en".to_string()),
            concurrency: Some(2),
        },
    );
    let runs = expand_annotate_invocations(&options(&config_path), Some(&config), "/", &no_keys(), None).unwrap();
    assert_eq!(runs.len(), 2);
    assert_eq!(runs[0].input, format!("{}/First.xcstrings", project_path));
    assert_eq!(runs[1].input, format!("{}/Second.xcstrings", project_path));
    assert_eq!(runs[0].source_roots, vec![sources.path().to_string_lossy().to_string()]);
    assert_eq!(runs[1].source_roots, vec![sources.path().to_string_lossy().to_string()]);
}

#[test]
fn expand_annotate_invocations_rejects_input_and_inputs_together() {
    let project = TempDir::new().unwrap();
    let config_path = format!("{}/langcodec.toml", project.path().to_string_lossy());
    let config = loaded(
        &config_path,
        AnnotateConfig {
            input: Some("Localizable.xcstrings".to_string()),
            inputs: Some(vec!["One.xcstrings".to_string(), "Two.xcstrings".to_string()]),
            source_roots: Some(vec!["Sources".to_string()]),
            output: None,
            source_lang: None,
            concurrency: None,
        },
    );
    let err = expand_annotate_invocations(&options(&config_path), Some(&config), "/", &no_keys(), None).unwrap_err();
    assert!(err.contains("annotate.input and annotate.inputs"));
}

#[test]
fn expand_annotate_invocations_rejects_shared_output_for_multiple_inputs() {
    let project = TempDir::new().unwrap();
    let sources = subdir(&project, "Sources");
    let config_path = format!("{}/langcodec.toml", project.path().to_string_lossy());
    let config = loaded(
        &config_path,
        AnnotateConfig {
            input: None,
            inputs: Some(vec!["One.xcstrings".to_string(), "Two.xcstrings".to_string()]),
            source_roots: Some(vec![name_of(&sources)]),
            output: Some("Annotated.xcstrings".to_string()),
            source_lang: None,
            concurrency: None,
        },
    );
    let err = expand_annotate_invocations(&options(&config_path), Some(&config), "/", &no_keys(), None).unwrap_err();
    assert!(err.contains("annotate.inputs cannot be combined"));
}

#[test]
fn common_ancestor_climbs_to_a_shared_directory() {
    let paths = vec!["/work/app/Sources".to_string(), "/work/app/Modules/Core".to_string()];
    assert_eq!(common_ancestor(&paths), Some("/work/app".to_string()));
    assert_eq!(common_ancestor(&Vec::new()), None);
    assert_eq!(common_ancestor(&vec!["/a/b".to_string()]), Some("/a/b".to_string()));
    assert_eq!(common_ancestor(&vec!["/a/b".to_string(), "rel/c".to_string()]), None);
}

#[test]
fn workspace_root_falls_back_without_candidates() {
    assert_eq!(workspace_root_of(&vec![None, None], "/cwd"), "/cwd");
    assert_eq!(
        workspace_root_of(&vec![Some("/w/a".to_string()), None, Some("/w/b".to_string())], "/cwd"),
        "/w"
    );
}

#[test]
fn roots_are_shown_relative_to_the_workspace() {
    let roots = vec!["/w/app/Sources".to_string(), "/elsewhere/Lib".to_string()];
    assert_eq!(
        langcodec_cli::annotate::displayed_roots(&roots, "/w/app"),
        vec!["Sources".to_string(), "/elsewhere/Lib".to_string()]
    );
}

#[test]
fn relative_path_without_canonical_form_has_no_root() {
    assert_eq!(langcodec_cli::annotate::root_candidate("rel/x", None), None);
    assert_eq!(
        langcodec_cli::annotate::root_candidate("/no/such/place/file.xcstrings", None),
        Some("/no/such/place".to_string())
    );
}

#[test]
fn generated_comments_replace_only_automatic_ones() {
    let mut catalog = Catalog {
        source_language: "en".to_string(),
        strings: vec![
            ("a".to_string(), CatalogItem { comment: Some("Hand written".to_string()), is_comment_auto_generated: None }),
            ("b".to_string(), CatalogItem { comment: Some("Old".to_string()), is_comment_auto_generated: Some(true) }),
            ("c".to_string(), CatalogItem { comment: None, is_comment_auto_generated: None }),
        ],
    };
    let response = |c: &str| AnnotationResponse { comment: c.to_string(), confidence: "high".to_string() };
    let results = vec![
        ("a".to_string(), Some(response("New a"))),
        ("b".to_string(), Some(response("New b"))),
        ("c".to_string(), None),
    ];
    let (changed, unmatched) = apply_annotations(&mut catalog, &results);
    assert_eq!(changed, 1);
    assert_eq!(unmatched, 1);
    assert_eq!(catalog.strings[0].1.comment.as_deref(), Some("Hand written"));
    assert_eq!(catalog.strings[1].1.comment.as_deref(), Some("New b"));
    assert_eq!(catalog.strings[1].1.is_comment_auto_generated, Some(true));
    assert_eq!(catalog.strings[2].1.comment, None);
}

#[test]
fn source_roots_fail_on_the_first_that_is_not_a_directory() {
    let roots = vec!["/w/A".to_string(), "/w/B".to_string(), "/w/C".to_string()];
    assert_eq!(check_source_roots(&roots, &vec![true, true, true]), Ok(()));
    assert_eq!(
        check_source_roots(&roots, &vec![true, false, false]),
        Err("Source root does not exist or is not a directory: /w/B".to_string())
    );
    assert_eq!(check_source_roots(&Vec::new(), &Vec::new()), Ok(()));
}

#[test]
fn annotation_tally_counts_and_keeps_the_first_error() {
    let mut t = AnnotateTally::new();
    let answer = AnnotationResponse { comment: "Greeting".to_string(), confidence: "high".to_string() };
    record_annotation(&mut t, "b".to_string(), Ok(Some(answer)));
    record_annotation(&mut t, "a".to_string(), Ok(None));
    record_annotation(&mut t, "c".to_string(), Err("first".to_string()));
    note_annotation_failure(&mut t, "second".to_string());
    assert_eq!((t.completed, t.generated, t.unmatched), (3, 1, 1));
    assert_eq!(t.results.iter().map(|(k, _)| k.as_str()).collect::<Vec<_>>(), vec!["a", "b"]);
    assert_eq!(finish_tally(t.clone()).unwrap_err(), "first");
    let mut ok = AnnotateTally::new();
    record_annotation(&mut ok, "k".to_string(), Ok(None));
    assert_eq!(finish_tally(ok).unwrap().len(), 1);
}
