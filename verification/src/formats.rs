//! Format names: the custom one-way formats (language maps in JSON or YAML)
//! and the standard formats, as the user writes them and as file extensions
//! reveal them.
use crate::lang::is_lower_ascii;
use crate::paths::{extension_of, path_extension};
use crate::text::{
    chars_of, ends_with, ends_with_seq, lower_seq, owned, push_str, remove_chars, remove_seq,
    str_eq, string_of_range, to_ascii_lowercase, trim, trim_seq,
};
use vstd::prelude::*;

verus! {

/// Custom format types that the standard readers do not handle; they are
/// converted one way, into resources.
#[derive(Debug, Clone, Copy, PartialEq, Eq, Structural)]
pub enum CustomFormat {
    /// A JSON object mapping language codes to translations of one key.
    JSONLanguageMap,
    /// A YAML mapping of language codes to translations of one key.
    YAMLLanguageMap,
    /// A JSON array of language-map objects.
    JSONArrayLanguageMap,
}

/// The standard formats, read and written by the localization engine.
#[derive(Debug, Clone, Copy, PartialEq, Eq, Structural)]
pub enum StandardFormat {
    Strings,
    AndroidStrings,
    Xcstrings,
    Csv,
    Tsv,
}

/// A format name with surrounding whitespace, case and the separators `-`
/// and `_` taken away.
pub open spec fn squashed_format_name(s: Seq<char>) -> Seq<char> {
    remove_seq(lower_seq(trim_seq(s)), '-', '_')
}

/// The custom format that a name denotes, if any.
pub open spec fn custom_format_named(s: Seq<char>) -> Option<CustomFormat> {
    let n = squashed_format_name(s);
    if n == "jsonlanguagemap"@ {
        Some(CustomFormat::JSONLanguageMap)
    } else if n == "jsonarraylanguagemap"@ {
        Some(CustomFormat::JSONArrayLanguageMap)
    } else if n == "yamllanguagemap"@ {
        Some(CustomFormat::YAMLLanguageMap)
    } else {
        None
    }
}

/// The message for a name that denotes no custom format.
pub open spec fn unknown_custom_format_message(s: Seq<char>) -> Seq<char> {
    "Unknown custom format: '"@ + s
        + "'. Supported formats: json-language-map, json-array-language-map, yaml-language-map"@
}

/// The standard format that a format hint denotes, ignoring ASCII case.
pub open spec fn standard_format_named(s: Seq<char>) -> Option<StandardFormat> {
    let n = lower_seq(s);
    if n == "strings"@ {
        Some(StandardFormat::Strings)
    } else if n == "android"@ || n == "androidstrings"@ {
        Some(StandardFormat::AndroidStrings)
    } else if n == "xcstrings"@ {
        Some(StandardFormat::Xcstrings)
    } else if n == "csv"@ {
        Some(StandardFormat::Csv)
    } else if n == "tsv"@ {
        Some(StandardFormat::Tsv)
    } else {
        None
    }
}

impl CustomFormat {
    /// Reads a custom format name; case, surrounding whitespace, `-` and `_`
    /// do not matter.
    pub fn from_str(s: &str) -> (r: Result<CustomFormat, String>)
        ensures
            match custom_format_named(s@) {
                Some(f) => r == Ok::<CustomFormat, String>(f),
                None => r matches Err(e) && e@ == unknown_custom_format_message(s@),
            },
    {
        let t = trim(s);
        let l = to_ascii_lowercase(t.as_str());
        let n = remove_chars(l.as_str(), '-', '_');
        if str_eq(n.as_str(), "jsonlanguagemap") {
            Ok(CustomFormat::JSONLanguageMap)
        } else if str_eq(n.as_str(), "jsonarraylanguagemap") {
            Ok(CustomFormat::JSONArrayLanguageMap)
        } else if str_eq(n.as_str(), "yamllanguagemap") {
            Ok(CustomFormat::YAMLLanguageMap)
        } else {
            let mut e = owned("Unknown custom format: '");
            push_str(&mut e, s);
            push_str(
                &mut e,
                "'. Supported formats: json-language-map, json-array-language-map, yaml-language-map",
            );
            Err(e)
        }
    }
}

/// Parse a custom format from a string, with helpful error messages.
pub fn parse_custom_format(s: &str) -> (r: Result<CustomFormat, String>)
    ensures
        match custom_format_named(s@) {
            Some(f) => r == Ok::<CustomFormat, String>(f),
            None => r matches Err(e) && e@ == unknown_custom_format_message(s@),
        },
{
    CustomFormat::from_str(s)
}

/// The supported custom formats, for help messages.
pub fn get_supported_custom_formats() -> (r: &'static str)
    ensures
        r@ == "json-language-map, json-array-language-map, yaml-language-map"@,
{
    "json-language-map, json-array-language-map, yaml-language-map"
}

/// The standard format that an input or output format hint names, if any.
pub fn standard_format_from_hint(hint: &str) -> (r: Option<StandardFormat>)
    ensures
        r == standard_format_named(hint@),
{
    let n = to_ascii_lowercase(hint);
    if str_eq(n.as_str(), "strings") {
        Some(StandardFormat::Strings)
    } else if str_eq(n.as_str(), "android") || str_eq(n.as_str(), "androidstrings") {
        Some(StandardFormat::AndroidStrings)
    } else if str_eq(n.as_str(), "xcstrings") {
        Some(StandardFormat::Xcstrings)
    } else if str_eq(n.as_str(), "csv") {
        Some(StandardFormat::Csv)
    } else if str_eq(n.as_str(), "tsv") {
        Some(StandardFormat::Tsv)
    } else {
        None
    }
}

/// Formats that hold several languages in one file.
pub open spec fn multi_language(f: StandardFormat) -> bool {
    f == StandardFormat::Xcstrings || f == StandardFormat::Csv || f == StandardFormat::Tsv
}

/// Whether a format holds several languages in one file.
pub fn is_multi_language_format(format: StandardFormat) -> (r: bool)
    ensures
        r == multi_language(format),
{
    match format {
        StandardFormat::Xcstrings | StandardFormat::Csv | StandardFormat::Tsv => true,
        _ => false,
    }
}

/// The standard format that a file name's ending announces, if any.
pub open spec fn standard_format_of_name(p: Seq<char>) -> Option<StandardFormat> {
    if ends_with_seq(p, ".strings"@) {
        Some(StandardFormat::Strings)
    } else if ends_with_seq(p, ".xml"@) {
        Some(StandardFormat::AndroidStrings)
    } else if ends_with_seq(p, ".xcstrings"@) {
        Some(StandardFormat::Xcstrings)
    } else if ends_with_seq(p, ".csv"@) {
        Some(StandardFormat::Csv)
    } else if ends_with_seq(p, ".tsv"@) {
        Some(StandardFormat::Tsv)
    } else {
        None
    }
}

/// The standard format that a file name's ending announces, if any.
pub fn standard_format_of_path(input: &str) -> (r: Option<StandardFormat>)
    ensures
        r == standard_format_of_name(input@),
{
    if ends_with(input, ".strings") {
        Some(StandardFormat::Strings)
    } else if ends_with(input, ".xml") {
        Some(StandardFormat::AndroidStrings)
    } else if ends_with(input, ".xcstrings") {
        Some(StandardFormat::Xcstrings)
    } else if ends_with(input, ".csv") {
        Some(StandardFormat::Csv)
    } else if ends_with(input, ".tsv") {
        Some(StandardFormat::Tsv)
    } else {
        None
    }
}

/// File names that may hold a custom format: `.json`, `.yaml`, `.yml`,
/// `.langcodec`.
pub open spec fn custom_candidate_name(p: Seq<char>) -> bool {
    ends_with_seq(p, ".json"@) || ends_with_seq(p, ".yaml"@) || ends_with_seq(p, ".yml"@)
        || ends_with_seq(p, ".langcodec"@)
}

/// Whether a file name may hold a custom format.
pub fn is_custom_candidate(input: &str) -> (r: bool)
    ensures
        r == custom_candidate_name(input@),
{
    ends_with(input, ".json") || ends_with(input, ".yaml") || ends_with(input, ".yml") || ends_with(
        input,
        ".langcodec",
    )
}

/// The part of `s` after its last `c` (all of `s` when there is none).
pub open spec fn after_last(s: Seq<char>, c: char) -> Seq<char>
    decreases s.len(),
{
    if s.len() == 0 {
        s
    } else if s.last() == c {
        Seq::empty()
    } else {
        after_last(s.drop_last(), c).push(s.last())
    }
}

/// The part of `s` before its first `c` (all of `s` when there is none).
pub open spec fn before_first(s: Seq<char>, c: char) -> Seq<char> {
    crate::lang::prefix_before(s, c)
}

/// The language that a file name like `en.strings` or `sample_fr.xml` spells:
/// the file name's stem when it is two lower-case ASCII letters, otherwise the
/// text after the stem's last `_` when it has one.
pub open spec fn lang_in_file_name(p: Seq<char>) -> Option<Seq<char>> {
    let stem = before_first(after_last(p, '/'), '.');
    if stem.len() == 2 && is_lower_ascii(stem[0]) && is_lower_ascii(stem[1]) {
        Some(stem)
    } else if crate::text::has_char(stem, '_') {
        Some(after_last(stem, '_'))
    } else {
        None
    }
}

/// The index just after the last `c` in `v`, or 0 when there is none; `v`
/// from there on is `after_last(v, c)`.
pub fn after_last_start(v: &Vec<char>, c: char) -> (k: usize)
    ensures
        k <= v.len(),
        v@.subrange(k as int, v.len() as int) == after_last(v@, c),
        k > 0 <==> crate::text::has_char(v@, c),
{
    let n = v.len();
    let mut j: usize = n;
    proof {
        assert(v@.subrange(n as int, n as int) =~= Seq::<char>::empty());
        assert(v@.subrange(0, n as int) =~= v@);
        assert(after_last(v@, c) + Seq::<char>::empty() =~= after_last(v@, c));
    }
    while j > 0 && v[j - 1] != c
        invariant
            n == v.len(),
            j <= n,
            forall|k: int| j <= k < n ==> v@[k] != c,
            after_last(v@, c) == after_last(v@.subrange(0, j as int), c) + v@.subrange(
                j as int,
                n as int,
            ),
        decreases j,
    {
        proof {
            let pre = v@.subrange(0, j as int);
            assert(pre.drop_last() =~= v@.subrange(0, j - 1));
            assert(after_last(pre, c) == after_last(v@.subrange(0, j - 1), c).push(v@[j - 1]));
            assert(after_last(v@.subrange(0, j - 1), c).push(v@[j - 1]) + v@.subrange(
                j as int,
                n as int,
            ) =~= after_last(v@.subrange(0, j - 1), c) + v@.subrange(j - 1, n as int));
        }
        j = j - 1;
    }
    proof {
        let pre = v@.subrange(0, j as int);
        if j > 0 {
            assert(after_last(pre, c) =~= Seq::<char>::empty());
            assert(v@[j - 1] == c);
        } else {
            assert(pre =~= Seq::<char>::empty());
            assert forall|k: int| 0 <= k < n implies v@[k] != c by {}
        }
        assert(Seq::<char>::empty() + v@.subrange(j as int, n as int) =~= v@.subrange(
            j as int,
            n as int,
        ));
    }
    j
}

/// The part of `s` after its last `c` (`s.split(c).next_back()`).
pub fn after_last_char(s: &str, c: char) -> (r: String)
    ensures
        r@ == after_last(s@, c),
{
    let v = chars_of(s);
    let k = after_last_start(&v, c);
    string_of_range(&v, k, v.len())
}

/// The language spelled in a file name, if any (see `lang_in_file_name`).
pub fn lang_from_filename(input: &str) -> (r: Option<String>)
    ensures
        match r {
            Some(s) => lang_in_file_name(input@) == Some(s@),
            None => lang_in_file_name(input@) is None,
        },
{
    let name = after_last_char(input, '/');
    let stem = crate::lang::prefix_before_char(name.as_str(), '.');
    let v = chars_of(stem.as_str());
    if v.len() == 2 && 'a' <= v[0] && v[0] <= 'z' && 'a' <= v[1] && v[1] <= 'z' {
        Some(stem)
    } else if crate::text::contains_char(stem.as_str(), '_') {
        Some(after_last_char(stem.as_str(), '_'))
    } else {
        None
    }
}

/// Whether `serde_json` reads `text` as a JSON value.
pub uninterp spec fn json_value_parses(text: Seq<char>) -> bool;

/// The number of members when `serde_json` reads `text` as a JSON object
/// (a map from strings to values); none when it cannot.
pub uninterp spec fn json_object_members(text: Seq<char>) -> Option<nat>;

/// Whether `serde_json` reads `text` as a JSON array.
pub uninterp spec fn json_array_parses(text: Seq<char>) -> bool;

/// Whether `serde_yaml` reads `text` as a YAML value.
pub uninterp spec fn yaml_value_parses(text: Seq<char>) -> bool;

/// `serde_json::from_str::<serde_json::Value>(text).is_ok()`.
#[verifier::external_body]
fn parses_as_json(text: &str) -> (r: bool)
    ensures
        r == json_value_parses(text@),
{
    serde_json::from_str::<serde_json::Value>(text).is_ok()
}

/// The member count of `text` read as `HashMap<String, serde_json::Value>`.
#[verifier::external_body]
fn json_object_size(text: &str) -> (r: Option<usize>)
    ensures
        match r {
            Some(n) => json_object_members(text@) == Some(n as nat),
            None => json_object_members(text@) is None,
        },
{
    serde_json::from_str::<std::collections::HashMap<String, serde_json::Value>>(text).ok().map(|m| m.len())
}

/// `serde_json::from_str::<Vec<serde_json::Value>>(text).is_ok()`.
#[verifier::external_body]
fn parses_as_json_array(text: &str) -> (r: bool)
    ensures
        r == json_array_parses(text@),
{
    serde_json::from_str::<Vec<serde_json::Value>>(text).is_ok()
}

/// `serde_yaml::from_str::<serde_yaml::Value>(text).is_ok()`.
#[verifier::external_body]
fn parses_as_yaml(text: &str) -> (r: bool)
    ensures
        r == yaml_value_parses(text@),
{
    serde_yaml::from_str::<serde_yaml::Value>(text).is_ok()
}

/// The custom format a file's extension and content reveal: a `.json` file
/// holding a non-empty object is a language map, one holding an array a
/// language map array; a `.yaml` or `.yml` file holding YAML is a YAML
/// language map. The extension is compared without regard to case.
pub open spec fn detected_custom_format(path: Seq<char>, content: Seq<char>) -> Option<CustomFormat> {
    let ext = match path_extension(path) {
        Some(e) => lower_seq(e),
        None => Seq::empty(),
    };
    if ext == "json"@ {
        if !json_value_parses(content) {
            None
        } else if json_object_members(content) matches Some(n) && n > 0 {
            Some(CustomFormat::JSONLanguageMap)
        } else if json_array_parses(content) {
            Some(CustomFormat::JSONArrayLanguageMap)
        } else {
            None
        }
    } else if (ext == "yaml"@ || ext == "yml"@) && yaml_value_parses(content) {
        Some(CustomFormat::YAMLLanguageMap)
    } else {
        None
    }
}

/// Detects the custom format of a file from its extension and content (see
/// `detected_custom_format`).
pub fn detect_custom_format(file_path: &str, file_content: &str) -> (r: Option<CustomFormat>)
    ensures
        r == detected_custom_format(file_path@, file_content@),
{
    let ext = match extension_of(file_path) {
        Some(e) => to_ascii_lowercase(e.as_str()),
        None => String::new(),
    };
    proof {
        assert(ext@ == match path_extension(file_path@) {
            Some(e) => lower_seq(e),
            None => Seq::<char>::empty(),
        });
    }
    if str_eq(ext.as_str(), "json") {
        if !parses_as_json(file_content) {
            return None;
        }
        if let Some(n) = json_object_size(file_content) {
            if n > 0 {
                return Some(CustomFormat::JSONLanguageMap);
            }
        }
        if parses_as_json_array(file_content) {
            return Some(CustomFormat::JSONArrayLanguageMap);
        }
        None
    } else if (str_eq(ext.as_str(), "yaml") || str_eq(ext.as_str(), "yml")) && parses_as_yaml(file_content) {
        Some(CustomFormat::YAMLLanguageMap)
    } else {
        None
    }
}

} // verus!
