use langcodec_cli::edit::{apply_edit_set, parse_status_opt, pick_single_resource, EditOutcome};
use langcodec_cli::model::{Entry, EntryStatus, Metadata, Resource, Translation};

fn resource(lang: &str, pairs: &[(&str, &str)]) -> Resource {
    Resource {
        metadata: Metadata { language: lang.to_string(), domain: String::new(), custom: Vec::new() },
        entries: pairs
            .iter()
            .map(|(k, v)| Entry {
                id: k.to_string(),
                value: Translation::Singular(v.to_string()),
                comment: Some("Greeting".to_string()),
                status: EntryStatus::Translated,
                custom: Vec::new(),
            })
            .collect(),
    }
}

fn value_of(codec: &Vec<Resource>, key: &str) -> Option<String> {
    codec[0].entries.iter().find(|e| e.id == key).map(|e| match &e.value {
        Translation::Singular(s) => s.clone(),
        _ => String::new(),
    })
}

#[test]
fn edit_set_add_update_remove_in_place() {
    let mut codec = vec![resource("en", &[("hello", "Hello")])];

    let added = apply_edit_set(&mut codec, &None, "welcome", Some("Welcome!".to_string()), &None, None).unwrap();
    assert_eq!(added, EditOutcome::Added);
    assert_eq!(value_of(&codec, "hello").as_deref(), Some("Hello"));
    assert_eq!(value_of(&codec, "welcome").as_deref(), Some("Welcome!"));

    let status = parse_status_opt(&Some("needs-review".to_string())).unwrap();
    let updated =
        apply_edit_set(&mut codec, &None, "welcome", Some("Welcome back!".to_string()), &None, status).unwrap();
    assert_eq!(updated, EditOutcome::Updated);
    assert_eq!(value_of(&codec, "welcome").as_deref(), Some("Welcome back!"));
    let e = codec[0].entries.iter().find(|e| e.id == "welcome").unwrap();
    assert_eq!(e.status, EntryStatus::NeedsReview);

    let removed = apply_edit_set(&mut codec, &None, "welcome", None, &None, None).unwrap();
    assert_eq!(removed, EditOutcome::Removed);
    assert_eq!(value_of(&codec, "welcome"), None);
    assert_eq!(codec[0].entries.len(), 1);

    let again = apply_edit_set(&mut codec, &None, "welcome", Some(String::new()), &None, None).unwrap();
    assert_eq!(again, EditOutcome::NothingToRemove);
}

#[test]
fn update_keeps_comment_unless_given() {
    let mut codec = vec![resource("en", &[("hello", "Hello")])];
    apply_edit_set(&mut codec, &None, "hello", Some("Hi".to_string()), &None, None).unwrap();
    assert_eq!(codec[0].entries[0].comment.as_deref(), Some("Greeting"));
    assert_eq!(codec[0].entries[0].status, EntryStatus::Translated);
    apply_edit_set(&mut codec, &None, "hello", Some("Hey".to_string()), &Some("Short".to_string()), None).unwrap();
    assert_eq!(codec[0].entries[0].comment.as_deref(), Some("Short"));
}

#[test]
fn several_languages_need_lang() {
    let mut codec = vec![resource("en", &[("a", "A")]), resource("fr", &[("a", "FA")])];
    let err = apply_edit_set(&mut codec, &None, "a", Some("X".to_string()), &None, None).unwrap_err();
    assert_eq!(err, "Multiple languages present; specify --lang");
    let ok = apply_edit_set(&mut codec, &Some("fr".to_string()), "a", None, &None, None).unwrap();
    assert_eq!(ok, EditOutcome::Removed);
    assert!(codec[1].entries.is_empty());
    assert_eq!(codec[0].entries.len(), 1);
}

#[test]
fn setting_an_unknown_language_is_refused_and_changes_nothing() {
    let mut codec = vec![resource("en", &[("a", "A")])];
    let err = apply_edit_set(&mut codec, &Some("de".to_string()), "a", Some("X".to_string()), &None, None).unwrap_err();
    assert_eq!(err, "Language 'de' not found in input");
    assert_eq!(value_of(&codec, "a").as_deref(), Some("A"));
}

#[test]
fn status_arguments_accept_dashes_and_spaces() {
    assert_eq!(parse_status_opt(&None).unwrap(), None);
    assert_eq!(parse_status_opt(&Some("needs review".to_string())).unwrap(), Some(EntryStatus::NeedsReview));
    assert_eq!(parse_status_opt(&Some("do-not-translate".to_string())).unwrap(), Some(EntryStatus::DoNotTranslate));
    assert_eq!(parse_status_opt(&Some("bogus".to_string())).unwrap_err(), "Unknown entry status: bogus");
}

#[test]
fn single_resource_pick() {
    let codec = vec![resource("en", &[]), resource("fr", &[])];
    assert_eq!(pick_single_resource(&codec, &Some("fr".to_string())), Ok(1));
    assert_eq!(
        pick_single_resource(&codec, &Some("de".to_string())),
        Err("Language 'de' not found in input".to_string())
    );
    assert_eq!(
        pick_single_resource(&codec, &None),
        Err("Multiple languages present; specify --lang".to_string())
    );
}

#[test]
fn set_then_lookup_reads_the_value_back() {
    let mut codec = vec![resource("en", &[("a", "A")]), resource("fr", &[("a", "FA")])];
    let status = Some(EntryStatus::Stale);
    apply_edit_set(&mut codec, &Some("fr".to_string()), "b", Some("FB".to_string()), &Some("note".to_string()), status)
        .unwrap();
    let found = langcodec_cli::translate::find_entry(&codec, "b", "fr").unwrap();
    let e = &codec[found.0].entries[found.1];
    assert!(matches!(&e.value, Translation::Singular(s) if s == "FB"));
    assert_eq!(e.status, EntryStatus::Stale);
    assert_eq!(e.comment.as_deref(), Some("note"));
}
