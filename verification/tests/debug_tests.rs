use langcodec_cli::debug::{debug_read, unescape_newlines, unescape_resources, DebugRead};
use langcodec_cli::model::{Entry, EntryStatus, Metadata, Plural, PluralCategory, Resource, Translation};

#[test]
fn escaped_line_breaks_become_real() {
    assert_eq!(unescape_newlines("a\\nb"), "a\nb");
    assert_eq!(unescape_newlines("\\\\n"), "\\\n");
    assert_eq!(unescape_newlines("no breaks"), "no breaks");
    assert_eq!(unescape_newlines("end\\"), "end\\");
}

#[test]
fn every_value_is_unescaped() {
    let mut codec = vec![Resource {
        metadata: Metadata { language: "en".to_string(), domain: String::new(), custom: Vec::new() },
        entries: vec![
            Entry {
                id: "a".to_string(),
                value: Translation::Singular("x\\ny".to_string()),
                comment: None,
                status: EntryStatus::New,
                custom: Vec::new(),
            },
            Entry {
                id: "b".to_string(),
                value: Translation::Plural(Plural {
                    id: "b".to_string(),
                    forms: vec![(PluralCategory::Other, "p\\nq".to_string())],
                }),
                comment: None,
                status: EntryStatus::New,
                custom: Vec::new(),
            },
        ],
    }];
    unescape_resources(&mut codec);
    match &codec[0].entries[0].value {
        Translation::Singular(s) => assert_eq!(s, "x\ny"),
        _ => panic!("kind changed"),
    }
    match &codec[0].entries[1].value {
        Translation::Plural(p) => assert_eq!(p.forms[0].1, "p\nq"),
        _ => panic!("kind changed"),
    }
    assert_eq!(codec[0].entries[0].id, "a");
}

#[test]
fn read_route_follows_strictness_and_extension() {
    assert_eq!(debug_read("a.json", true), DebugRead::Custom);
    assert_eq!(debug_read("a.strings", true), DebugRead::Standard);
    assert_eq!(debug_read("a.yml", false), DebugRead::StandardThenCustom);
    assert_eq!(debug_read("a.xml", false), DebugRead::StandardOrUnsupported);
}
