use langcodec_cli::path_glob::{
    check_globs, dedup_strings, finish_expansion, has_glob_meta, match_walked, select_matches, static_prefix, walk_root,
};

fn strings(v: &[&str]) -> Vec<String> {
    v.iter().map(|s| s.to_string()).collect()
}

#[test]
fn glob_meta_characters() {
    assert!(has_glob_meta("locales/*.strings"));
    assert!(has_glob_meta("a?b"));
    assert!(has_glob_meta("a[bc]"));
    assert!(has_glob_meta("{a,b}"));
    assert!(!has_glob_meta("locales/en.strings"));
}

#[test]
fn static_prefix_stops_at_first_meta() {
    assert_eq!(static_prefix("locales/**/*.strings"), "locales/");
    assert_eq!(static_prefix("plain/path.xml"), "plain/path.xml");
    assert_eq!(static_prefix("*.csv"), "");
}

#[test]
fn plain_input_walks_from_its_parent() {
    assert_eq!(walk_root("locales/en.strings"), "locales");
    assert_eq!(walk_root("/no/such/dir/x*.csv"), "/no/such/dir");
}

#[test]
fn dedup_keeps_first_occurrences_in_order() {
    let v = strings(&["b", "a", "b", "c", "a"]);
    assert_eq!(dedup_strings(&v), strings(&["b", "a", "c"]));
}

#[test]
fn nothing_matched_keeps_the_inputs() {
    let inputs = strings(&["missing/*.strings"]);
    assert_eq!(finish_expansion(&inputs, &Vec::new()), inputs);
    assert_eq!(finish_expansion(&inputs, &strings(&["x", "x", "y"])), strings(&["x", "y"]));
}

#[test]
fn invalid_pattern_is_reported() {
    let err = check_globs(&strings(&["ok/*.csv", "bad/[.csv"])).unwrap_err();
    assert!(err.starts_with("Invalid glob pattern 'bad/[.csv': "));
    assert!(check_globs(&strings(&["ok/*.csv", "x/{a,b}.xml"])).is_ok());
}

#[test]
fn matching_keeps_separators_literal() {
    let patterns = strings(&["dir/*.strings"]);
    let candidates = strings(&["dir/a.strings", "dir/sub/b.strings", "x.xml", "dir/c.strings"]);
    assert_eq!(select_matches(&patterns, &candidates), strings(&["dir/a.strings", "dir/c.strings"]));
}

#[test]
fn walk_roots_are_distinct() {
    let inputs = strings(&["locales/en.strings", "locales/fr.strings", "other/*.csv"]);
    let roots = langcodec_cli::path_glob::walk_roots(&inputs);
    assert_eq!(roots[0], "locales");
    assert_eq!(roots.len(), 2);
}

#[test]
fn a_pattern_too_large_for_the_matcher_is_an_error() {
    let words: Vec<String> = (0..200000).map(|i| format!("word{}", i)).collect();
    let pattern = format!("dir/{{{}}}.strings", words.join(","));
    let patterns = vec![pattern];
    let err = check_globs(&patterns).unwrap_err();
    assert!(err.starts_with("Failed to build glob set: "), "{}", &err[..80.min(err.len())]);
    assert_eq!(match_walked(&patterns, &strings(&["dir/word1.strings"])).unwrap_err(), err);
}

#[test]
fn walked_files_are_matched_after_the_check() {
    let patterns = strings(&["dir/*.strings"]);
    let walked = strings(&["dir/a.strings", "dir/sub/b.strings", "dir/c.strings"]);
    assert_eq!(match_walked(&patterns, &walked).unwrap(), strings(&["dir/a.strings", "dir/c.strings"]));
    assert!(match_walked(&strings(&["bad/[.csv"]), &walked).unwrap_err().starts_with("Invalid glob pattern"));
}
