use langcodec_cli::merge::{check_merge_inputs, merge_source_language, merge_version, single_merged_resource, stamp_merge_metadata};
use langcodec_cli::model::{Metadata, Resource};

fn resource(lang: &str, custom: &[(&str, &str)]) -> Resource {
    Resource {
        metadata: Metadata {
            language: lang.to_string(),
            domain: String::new(),
            custom: custom.iter().map(|(k, v)| (k.to_string(), v.to_string())).collect(),
        },
        entries: Vec::new(),
    }
}

fn custom<'a>(r: &'a Resource, key: &str) -> Option<&'a str> {
    r.metadata.custom.iter().find(|(k, _)| k == key).map(|(_, v)| v.as_str())
}

#[test]
fn source_language_prefers_override_then_metadata_then_language() {
    let rs = vec![resource("fr", &[("source_language", "de")]), resource("en", &[])];
    assert_eq!(merge_source_language(&Some("ja".to_string()), &rs), "ja");
    assert_eq!(merge_source_language(&Some("  ".to_string()), &rs), "de");
    let plain = vec![resource("fr", &[("source_language", " ")])];
    assert_eq!(merge_source_language(&None, &plain), "fr");
    assert_eq!(merge_source_language(&None, &Vec::new()), "en");
}

#[test]
fn version_prefers_override_then_metadata() {
    let rs = vec![resource("fr", &[("version", "2.0")])];
    assert_eq!(merge_version(&Some("3.0".to_string()), &rs), "3.0");
    assert_eq!(merge_version(&None, &rs), "2.0");
    assert_eq!(merge_version(&None, &vec![resource("fr", &[])]), "1.0");
}

#[test]
fn every_resource_gets_the_merged_metadata() {
    let mut rs = vec![resource("fr", &[("format", "x")]), resource("en", &[])];
    let (s, v) = stamp_merge_metadata(&mut rs, &None, &None);
    assert_eq!(s, "fr");
    assert_eq!(v, "1.0");
    for r in &rs {
        assert_eq!(custom(r, "source_language"), Some("fr"));
        assert_eq!(custom(r, "version"), Some("1.0"));
    }
    assert_eq!(custom(&rs[0], "format"), Some("x"));
}

#[test]
fn merge_needs_inputs_and_single_output() {
    assert_eq!(check_merge_inputs(&Vec::new()).unwrap_err(), "Error: At least one input file is required.");
    assert!(check_merge_inputs(&vec!["a".to_string()]).is_ok());
    assert_eq!(single_merged_resource(&vec![resource("en", &[])], "o.strings"), Ok(0));
    assert_eq!(
        single_merged_resource(&vec![resource("en", &[]), resource("fr", &[])], "o.strings").unwrap_err(),
        "Error writing to o.strings: multiple resources"
    );
}
