//! The convert command's decisions: which route a conversion takes, which
//! formats the hints name, the metadata an xcstrings output gets, and which
//! languages a `.langcodec` output keeps.
use crate::formats::{
    custom_candidate_name, custom_format_named, is_custom_candidate, lang_from_filename, lang_in_file_name,
    parse_custom_format, standard_format_from_hint, standard_format_named, standard_format_of_name,
    standard_format_of_path, unknown_custom_format_message, CustomFormat, StandardFormat,
};
use crate::model::{assoc_get, assoc_lookup, assoc_set, keys_distinct, opt_view, pairs_view, resources_view, Resource, ResourceView};
use crate::text::{
    ends_with, ends_with_seq, join, join_seq, lower_seq, owned, push_str, str_eq, strings_view,
    to_ascii_lowercase, trim, trim_seq,
};
use vstd::prelude::*;

verus! {

/// How the convert command was asked to convert.
#[derive(Debug, Clone)]
pub struct ConvertOptions {
    pub input_format: Option<String>,
    pub output_format: Option<String>,
    pub source_language: Option<String>,
    pub version: Option<String>,
    pub exclude_lang: Vec<String>,
    pub include_lang: Vec<String>,
}

/// The output is an xcstrings catalog: by its extension or by the requested
/// output format, whatever its case.
pub open spec fn targets_xcstrings(output: Seq<char>, output_format: Option<Seq<char>>) -> bool {
    ends_with_seq(output, ".xcstrings"@) || (output_format is Some && lower_seq(output_format->0)
        == "xcstrings"@)
}

/// Whether the conversion writes an xcstrings catalog (see
/// `targets_xcstrings`).
pub fn wants_xcstrings(output: &str, output_format: &Option<String>) -> (r: bool)
    ensures
        r == targets_xcstrings(output@, opt_view(*output_format)),
{
    if ends_with(output, ".xcstrings") {
        return true;
    }
    match output_format {
        Some(f) => str_eq(to_ascii_lowercase(f.as_str()).as_str(), "xcstrings"),
        None => false,
    }
}

/// The source language an xcstrings output declares: the requested one when
/// it has text, else that of the first resource when it has text, else
/// `en`.
pub open spec fn xcstrings_source_language(requested: Option<Seq<char>>, resources: Seq<ResourceView>) -> Seq<
    char,
> {
    if requested is Some && trim_seq(requested->0).len() > 0 {
        requested->0
    } else if resources.len() > 0 && assoc_get(resources[0].metadata.custom, "source_language"@) is Some
        && trim_seq(assoc_get(resources[0].metadata.custom, "source_language"@)->0).len() > 0 {
        assoc_get(resources[0].metadata.custom, "source_language"@)->0
    } else {
        "en"@
    }
}

/// The source language an xcstrings output declares (see
/// `xcstrings_source_language`).
pub fn resolve_source_language(options: &ConvertOptions, resources: &Vec<Resource>) -> (r: String)
    ensures
        r@ == xcstrings_source_language(opt_view(options.source_language), resources_view(resources@)),
{
    if let Some(s) = &options.source_language {
        if trim(s.as_str()).as_str().unicode_len() > 0 {
            return s.clone();
        }
    }
    if resources.len() > 0 {
        if let Some(v) = assoc_lookup(&resources[0].metadata.custom, "source_language") {
            if trim(v.as_str()).as_str().unicode_len() > 0 {
                return v;
            }
        }
    }
    owned("en")
}

/// The format version an xcstrings output declares: the requested one,
/// else that of the first resource, else `1.0`.
pub open spec fn xcstrings_version(requested: Option<Seq<char>>, resources: Seq<ResourceView>) -> Seq<char> {
    if requested is Some {
        requested->0
    } else if resources.len() > 0 && assoc_get(resources[0].metadata.custom, "version"@) is Some {
        assoc_get(resources[0].metadata.custom, "version"@)->0
    } else {
        "1.0"@
    }
}

/// The format version an xcstrings output declares (see
/// `xcstrings_version`).
pub fn resolve_version(options: &ConvertOptions, resources: &Vec<Resource>) -> (r: String)
    ensures
        r@ == xcstrings_version(opt_view(options.version), resources_view(resources@)),
{
    if let Some(v) = &options.version {
        return v.clone();
    }
    if resources.len() > 0 {
        if let Some(v) = assoc_lookup(&resources[0].metadata.custom, "version") {
            return v;
        }
    }
    owned("1.0")
}

/// Sets the source language and version in the metadata of every resource,
/// so that the xcstrings writer sees them alike.
pub fn apply_xcstrings_metadata(resources: &mut Vec<Resource>, source_language: &str, version: &str)
    ensures
        final(resources).len() == old(resources).len(),
        forall|i: int|
            0 <= i < final(resources).len() ==> {
                let r = #[trigger] resources_view(final(resources)@)[i];
                let o = resources_view(old(resources)@)[i];
                &&& r.entries == o.entries
                &&& r.metadata.language == o.metadata.language
                &&& r.metadata.domain == o.metadata.domain
                &&& assoc_get(r.metadata.custom, "source_language"@) == Some(source_language@)
                &&& assoc_get(r.metadata.custom, "version"@) == Some(version@)
                &&& forall|k: Seq<char>|
                    k != "source_language"@ && k != "version"@ ==> assoc_get(r.metadata.custom, k)
                        == assoc_get(o.metadata.custom, k)
                &&& keys_distinct(o.metadata.custom) ==> keys_distinct(r.metadata.custom)
            },
{
    let ghost r0 = resources_view(resources@);
    let mut i: usize = 0;
    while i < resources.len()
        invariant
            i <= resources.len(),
            resources.len() == r0.len(),
            forall|k: int| i <= k < resources.len() ==> #[trigger] resources_view(resources@)[k] == r0[k],
            forall|j: int|
                0 <= j < i ==> {
                    let r = #[trigger] resources_view(resources@)[j];
                    let o = r0[j];
                    &&& r.entries == o.entries
                    &&& r.metadata.language == o.metadata.language
                    &&& r.metadata.domain == o.metadata.domain
                    &&& assoc_get(r.metadata.custom, "source_language"@) == Some(source_language@)
                    &&& assoc_get(r.metadata.custom, "version"@) == Some(version@)
                    &&& forall|k: Seq<char>|
                        k != "source_language"@ && k != "version"@ ==> assoc_get(r.metadata.custom, k)
                            == assoc_get(o.metadata.custom, k)
                    &&& keys_distinct(o.metadata.custom) ==> keys_distinct(r.metadata.custom)
                },
        decreases resources.len() - i,
    {
        let ghost before = resources@;
        let mut custom = crate::model::dup_pairs(&resources[i].metadata.custom);
        let ghost c0 = pairs_view(custom@);
        assoc_set(&mut custom, "source_language", source_language);
        let ghost c1 = pairs_view(custom@);
        assoc_set(&mut custom, "version", version);
        proof {
            reveal_strlit("source_language");
            reveal_strlit("version");
            assert("source_language"@ != "version"@) by {
                assert("source_language"@.len() != "version"@.len());
            }
        }
        let ghost cv = custom@;
        resources[i].metadata.custom = custom;
        proof {
            assert(resources@[i as int].metadata.custom@ == cv);
            assert(resources@[i as int].metadata.language == before[i as int].metadata.language);
            assert(resources@[i as int].metadata.domain == before[i as int].metadata.domain);
            assert(resources@[i as int].entries == before[i as int].entries);
            assert(resources_view(before)[i as int] == r0[i as int]);
            assert(c0 == r0[i as int].metadata.custom);
            let rr = resources_view(resources@)[i as int];
            assert(rr.metadata.custom == pairs_view(cv));
            assert(assoc_get(rr.metadata.custom, "source_language"@) == Some(source_language@));
            assert forall|k: int| 0 <= k < resources.len() && k != i implies resources@[k] == before[k] by {}
            assert forall|k: int| 0 <= k < resources.len() && k != i implies #[trigger] resources_view(resources@)[k] == resources_view(before)[k] by {
                assert(resources@[k] == before[k]);
            }
        }
        i = i + 1;
    }
}

/// Whether the languages in `langs` kept `l`.
pub open spec fn listed(langs: Seq<Seq<char>>, l: Seq<char>) -> bool {
    langs.contains(l)
}

/// Whether a resource of language `l` is kept: it is among the included
/// languages when some are given, and not among the excluded ones.
pub open spec fn keeps_language(kept: Seq<Seq<char>>, dropped: Seq<Seq<char>>, l: Seq<char>) -> bool {
    (kept.len() == 0 || listed(kept, l)) && !(dropped.len() > 0 && listed(dropped, l))
}

fn list_has(v: &Vec<String>, s: &str) -> (r: bool)
    ensures
        r == listed(strings_view(v@), s@),
{
    let mut i: usize = 0;
    while i < v.len()
        invariant
            i <= v.len(),
            forall|k: int| 0 <= k < i ==> v@[k]@ != s@,
        decreases v.len() - i,
    {
        if str_eq(v[i].as_str(), s) {
            proof {
                assert(strings_view(v@)[i as int] == s@);
            }
            return true;
        }
        i = i + 1;
    }
    proof {
        assert forall|k: int| 0 <= k < strings_view(v@).len() implies strings_view(v@)[k] != s@ by {
            assert(strings_view(v@)[k] == v@[k]@);
        }
    }
    false
}

/// The resources whose language is kept (see `keeps_language`), in order.
pub fn filter_languages(resources: Vec<Resource>, kept: &Vec<String>, dropped: &Vec<String>) -> (r: Vec<Resource>)
    ensures
        resources_view(r@) == resources_view(resources@).filter(
            |res: ResourceView| keeps_language(strings_view(kept@), strings_view(dropped@), res.metadata.language),
        ),
{
    let ghost rv = resources_view(resources@);
    let ghost p = |res: ResourceView| keeps_language(strings_view(kept@), strings_view(dropped@), res.metadata.language);
    let mut out: Vec<Resource> = Vec::new();
    let mut i: usize = 0;
    proof {
        reveal(Seq::filter);
        assert(rv.take(0) =~= Seq::<ResourceView>::empty());
    }
    while i < resources.len()
        invariant
            i <= resources.len(),
            rv == resources_view(resources@),
            p == (|res: ResourceView| keeps_language(strings_view(kept@), strings_view(dropped@), res.metadata.language)),
            resources_view(out@) == rv.take(i as int).filter(p),
        decreases resources.len() - i,
    {
        proof {
            assert(rv.take(i + 1) =~= rv.take(i as int).push(rv[i as int]));
            rv.take(i as int).lemma_filter_push(rv[i as int], p);
        }
        let l = resources[i].metadata.language.as_str();
        let keep = (kept.len() == 0 || list_has(kept, l)) && !(dropped.len() > 0 && list_has(dropped, l));
        if keep {
            let ghost o0 = out@;
            out.push(resources[i].duplicate());
            proof {
                assert(resources_view(out@) =~= resources_view(o0).push(rv[i as int]));
            }
        }
        i = i + 1;
    }
    proof {
        assert(rv.take(i as int) =~= rv);
    }
    out
}

/// The note on language filtering that the messages carry: which languages
/// are included and excluded, or nothing without a filter.
pub open spec fn filter_note(kept: Seq<Seq<char>>, dropped: Seq<Seq<char>>) -> Seq<char> {
    if kept.len() > 0 || dropped.len() > 0 {
        let parts = (if kept.len() > 0 {
            seq!["including: "@ + join_seq(kept, ", "@)]
        } else {
            Seq::empty()
        }) + (if dropped.len() > 0 {
            seq!["excluding: "@ + join_seq(dropped, ", "@)]
        } else {
            Seq::empty()
        });
        " with language filtering ("@ + join_seq(parts, ", "@) + ")"@
    } else {
        Seq::empty()
    }
}

/// The note on language filtering (see `filter_note`).
pub fn language_filter_message(kept: &Vec<String>, dropped: &Vec<String>) -> (r: String)
    ensures
        r@ == filter_note(strings_view(kept@), strings_view(dropped@)),
{
    if kept.len() == 0 && dropped.len() == 0 {
        return String::new();
    }
    let mut parts: Vec<String> = Vec::new();
    if kept.len() > 0 {
        let mut p = owned("including: ");
        push_str(&mut p, join(kept, ", ").as_str());
        parts.push(p);
    }
    let ghost p1 = strings_view(parts@);
    if dropped.len() > 0 {
        let mut p = owned("excluding: ");
        push_str(&mut p, join(dropped, ", ").as_str());
        parts.push(p);
    }
    proof {
        assert(strings_view(parts@) =~= (if kept.len() > 0 {
            seq!["including: "@ + join_seq(strings_view(kept@), ", "@)]
        } else {
            Seq::empty()
        }) + (if dropped.len() > 0 {
            seq!["excluding: "@ + join_seq(strings_view(dropped@), ", "@)]
        } else {
            Seq::empty()
        }));
    }
    let mut r = owned(" with language filtering (");
    push_str(&mut r, join(&parts, ", ").as_str());
    push_str(&mut r, ")");
    r
}

/// The route a conversion takes.
#[derive(Debug, Clone, Copy, PartialEq, Eq, Structural)]
pub enum ConvertRoute {
    /// Read the resources and write an xcstrings catalog with its metadata.
    Xcstrings,
    /// Read the resources and write them, filtered, as a `.langcodec` array.
    Langcodec,
    /// Strict: convert with the explicit input and output formats only.
    StrictExplicit,
    /// Strict: convert the custom format without fallback.
    StrictCustom,
    /// Strict: convert by the standard formats of the extensions only.
    StrictStandard,
    /// Try the standard formats of the extensions first, then fall back.
    Standard,
}

/// The route of a conversion: xcstrings output first, then `.langcodec`
/// output, then in strict mode explicit formats, custom inputs or
/// extensions, otherwise standard detection with fallbacks.
pub open spec fn route_of(
    input: Seq<char>,
    output: Seq<char>,
    input_format: Option<Seq<char>>,
    output_format: Option<Seq<char>>,
    strict: bool,
) -> ConvertRoute {
    if targets_xcstrings(output, output_format) {
        ConvertRoute::Xcstrings
    } else if ends_with_seq(output, ".langcodec"@) {
        ConvertRoute::Langcodec
    } else if strict && input_format is Some && output_format is Some {
        ConvertRoute::StrictExplicit
    } else if strict && custom_candidate_name(input) {
        ConvertRoute::StrictCustom
    } else if strict {
        ConvertRoute::StrictStandard
    } else {
        ConvertRoute::Standard
    }
}

/// The route of a conversion (see `route_of`).
pub fn convert_route(input: &str, output: &str, options: &ConvertOptions, strict: bool) -> (r: ConvertRoute)
    ensures
        r == route_of(input@, output@, opt_view(options.input_format), opt_view(options.output_format), strict),
{
    if wants_xcstrings(output, &options.output_format) {
        ConvertRoute::Xcstrings
    } else if ends_with(output, ".langcodec") {
        ConvertRoute::Langcodec
    } else if strict && options.input_format.is_some() && options.output_format.is_some() {
        ConvertRoute::StrictExplicit
    } else if strict && is_custom_candidate(input) {
        ConvertRoute::StrictCustom
    } else if strict {
        ConvertRoute::StrictStandard
    } else {
        ConvertRoute::Standard
    }
}

/// What follows a failed standard detection on a non-strict conversion.
#[derive(Debug, Clone, Copy, PartialEq, Eq, Structural)]
pub enum FallbackRoute {
    /// A JSON input without a format hint: detect again, then try the custom
    /// JSON formats, reporting the standard error if both fail.
    JsonRetryThenCustom,
    /// Another custom input: convert the custom format.
    Custom,
    /// Both formats given: convert with them.
    Explicit,
    /// Nothing else to try.
    GiveUp,
}

/// The fallback after standard detection failed (see `FallbackRoute`).
pub open spec fn fallback_of(input: Seq<char>, input_format: Option<Seq<char>>, output_format: Option<Seq<char>>) -> FallbackRoute {
    if custom_candidate_name(input) {
        if ends_with_seq(input, ".json"@) && input_format is None {
            FallbackRoute::JsonRetryThenCustom
        } else {
            FallbackRoute::Custom
        }
    } else if input_format is Some && output_format is Some {
        FallbackRoute::Explicit
    } else {
        FallbackRoute::GiveUp
    }
}

/// The fallback after standard detection failed (see `fallback_of`).
pub fn fallback_route(input: &str, options: &ConvertOptions) -> (r: FallbackRoute)
    ensures
        r == fallback_of(input@, opt_view(options.input_format), opt_view(options.output_format)),
{
    if is_custom_candidate(input) {
        if ends_with(input, ".json") && options.input_format.is_none() {
            FallbackRoute::JsonRetryThenCustom
        } else {
            FallbackRoute::Custom
        }
    } else if options.input_format.is_some() && options.output_format.is_some() {
        FallbackRoute::Explicit
    } else {
        FallbackRoute::GiveUp
    }
}

/// The standard format that an explicit format name stands for, or the
/// error that names the side (`input` or `output`) and the name.
pub fn explicit_format(name: &str, side: &str) -> (r: Result<StandardFormat, String>)
    ensures
        match standard_format_named(name@) {
            Some(f) => r == Ok::<StandardFormat, String>(f),
            None => r matches Err(e) && e@ == "Unsupported "@ + side@ + " format: '"@ + name@
                + "'. Supported formats: strings, android, xcstrings, csv, tsv"@,
        },
{
    match standard_format_from_hint(name) {
        Some(f) => Ok(f),
        None => {
            let mut e = owned("Unsupported ");
            push_str(&mut e, side);
            push_str(&mut e, " format: '");
            push_str(&mut e, name);
            push_str(&mut e, "'. Supported formats: strings, android, xcstrings, csv, tsv");
            Err(e)
        },
    }
}

/// The error for an input that no format can read.
pub fn unsupported_input_message(input: &str) -> (r: String)
    ensures
        r@ == "Unsupported input format or file extension: '"@ + input@
            + "'. Supported formats: .strings, .xml, .xcstrings, .csv, .tsv, .json, .yaml, .yml, .langcodec"@,
{
    let mut e = owned("Unsupported input format or file extension: '");
    push_str(&mut e, input);
    push_str(&mut e, "'. Supported formats: .strings, .xml, .xcstrings, .csv, .tsv, .json, .yaml, .yml, .langcodec");
    e
}

/// What a failed conversion explains after its first lines: the formats it
/// can read and write.
pub open spec fn supported_formats_help() -> Seq<Seq<char>> {
    seq![
        "Supported input formats:"@,
        "- .strings (Apple strings files)"@,
        "- .xml (Android strings files)"@,
        "- .xcstrings (Apple xcstrings files)"@,
        "- .csv (CSV files)"@,
        "- .tsv (TSV files)"@,
        "- .langcodec (Resource JSON array)"@,
        "- .json (JSON key-value pairs or Resource format)"@,
        "- .yaml/.yml (YAML language map format)"@,
        ""@,
        "Supported output formats:"@,
        "- .strings (Apple strings files)"@,
        "- .xml (Android strings files)"@,
        "- .xcstrings (Apple xcstrings files)"@,
        "- .csv (CSV files)"@,
        "- .tsv (TSV files)"@,
        "- .langcodec (Resource JSON array)"@,
        ""@,
        "For JSON files, the command will try both standard Resource format and key-value pairs."@,
        "For YAML files, the command will try YAML language map format."@,
        "Custom formats: json-language-map, json-array-language-map, yaml-language-map"@
    ]
}

/// The explanation printed when no strategy could convert `input` to
/// `output`: the strategies tried (the custom one that the input's
/// extension calls for, if any) and the supported formats.
pub open spec fn conversion_error_text(input: Seq<char>, output: Seq<char>) -> Seq<Seq<char>> {
    seq![
        "Error: Could not convert '"@ + input + "' to '"@ + output + "'"@,
        ""@,
        "Tried the following strategies:"@,
        "1. Standard format detection from file extensions"@,
    ] + (if ends_with_seq(input, ".json"@) {
        seq!["2. Custom JSON format conversion"@]
    } else {
        Seq::empty()
    }) + (if ends_with_seq(input, ".yaml"@) || ends_with_seq(input, ".yml"@) {
        seq!["2. Custom YAML format conversion"@]
    } else {
        Seq::empty()
    }) + (if ends_with_seq(input, ".langcodec"@) {
        seq!["2. Custom langcodec Resource array format conversion"@]
    } else {
        Seq::empty()
    }) + seq![""@] + supported_formats_help()
}

/// The explanation of a failed conversion (see `conversion_error_text`).
pub fn conversion_error_lines(input: &str, output: &str) -> (r: Vec<String>)
    ensures
        strings_view(r@) == conversion_error_text(input@, output@),
{
    let mut first = owned("Error: Could not convert '");
    push_str(&mut first, input);
    push_str(&mut first, "' to '");
    push_str(&mut first, output);
    push_str(&mut first, "'");
    let mut r: Vec<String> = Vec::new();
    r.push(first);
    r.push(owned(""));
    r.push(owned("Tried the following strategies:"));
    r.push(owned("1. Standard format detection from file extensions"));
    let ghost s0 = strings_view(r@);
    if ends_with(input, ".json") {
        r.push(owned("2. Custom JSON format conversion"));
    }
    let ghost s1 = strings_view(r@);
    if ends_with(input, ".yaml") || ends_with(input, ".yml") {
        r.push(owned("2. Custom YAML format conversion"));
    }
    let ghost s2 = strings_view(r@);
    if ends_with(input, ".langcodec") {
        r.push(owned("2. Custom langcodec Resource array format conversion"));
    }
    let ghost s3 = strings_view(r@);
    r.push(owned(""));
    let ghost s4 = strings_view(r@);
    r.push(owned("Supported input formats:"));
    r.push(owned("- .strings (Apple strings files)"));
    r.push(owned("- .xml (Android strings files)"));
    r.push(owned("- .xcstrings (Apple xcstrings files)"));
    r.push(owned("- .csv (CSV files)"));
    r.push(owned("- .tsv (TSV files)"));
    r.push(owned("- .langcodec (Resource JSON array)"));
    r.push(owned("- .json (JSON key-value pairs or Resource format)"));
    r.push(owned("- .yaml/.yml (YAML language map format)"));
    r.push(owned(""));
    r.push(owned("Supported output formats:"));
    r.push(owned("- .strings (Apple strings files)"));
    r.push(owned("- .xml (Android strings files)"));
    r.push(owned("- .xcstrings (Apple xcstrings files)"));
    r.push(owned("- .csv (CSV files)"));
    r.push(owned("- .tsv (TSV files)"));
    r.push(owned("- .langcodec (Resource JSON array)"));
    r.push(owned(""));
    r.push(owned("For JSON files, the command will try both standard Resource format and key-value pairs."));
    r.push(owned("For YAML files, the command will try YAML language map format."));
    r.push(owned("Custom formats: json-language-map, json-array-language-map, yaml-language-map"));
    proof {
        let j: Seq<Seq<char>> = if ends_with_seq(input@, ".json"@) {
            seq!["2. Custom JSON format conversion"@]
        } else {
            Seq::empty()
        };
        let y: Seq<Seq<char>> = if ends_with_seq(input@, ".yaml"@) || ends_with_seq(input@, ".yml"@) {
            seq!["2. Custom YAML format conversion"@]
        } else {
            Seq::empty()
        };
        let l: Seq<Seq<char>> = if ends_with_seq(input@, ".langcodec"@) {
            seq!["2. Custom langcodec Resource array format conversion"@]
        } else {
            Seq::empty()
        };
        assert(s1 =~= s0 + j);
        assert(s2 =~= s0 + j + y);
        assert(s3 =~= s0 + j + y + l);
        assert(s4 =~= s0 + j + y + l + seq![""@]);
        assert(strings_view(r@) =~= s4 + supported_formats_help());
    }
    r
}

/// One way of reading an input file.
#[derive(Debug, Clone)]
pub enum ReadKind {
    /// A standard format chosen by the file's extension.
    Extension,
    /// A standard format named explicitly, with a language where given.
    Typed(StandardFormat, Option<String>),
    /// A custom format, named or detected from the content.
    Custom(Option<CustomFormat>),
    /// A `.langcodec` resource array.
    Langcodec,
}

/// One step of reading an input: how to read it; on failure, whether to
/// stop with an error (its text, then the failure's) or go on; on success,
/// whether the read is done; and whether a failure is reported as a
/// failed detection.
#[derive(Debug, Clone)]
pub struct ReadAttempt {
    pub kind: ReadKind,
    pub stop_prefix: Option<String>,
    pub keep: bool,
    pub report: bool,
}

/// The steps of reading an input, then the error the read ends with when
/// no step ended it.
#[derive(Debug, Clone)]
pub struct ReadPlan {
    pub attempts: Vec<ReadAttempt>,
    pub fallback_error: String,
}

pub enum ReadKindView {
    Extension,
    Typed(StandardFormat, Option<Seq<char>>),
    Custom(Option<CustomFormat>),
    Langcodec,
}

pub struct ReadAttemptView {
    pub kind: ReadKindView,
    pub stop_prefix: Option<Seq<char>>,
    pub keep: bool,
    pub report: bool,
}

pub open spec fn kind_view(k: ReadKind) -> ReadKindView {
    match k {
        ReadKind::Extension => ReadKindView::Extension,
        ReadKind::Typed(f, l) => ReadKindView::Typed(f, opt_view(l)),
        ReadKind::Custom(c) => ReadKindView::Custom(c),
        ReadKind::Langcodec => ReadKindView::Langcodec,
    }
}

pub open spec fn attempt_view(a: ReadAttempt) -> ReadAttemptView {
    ReadAttemptView { kind: kind_view(a.kind), stop_prefix: opt_view(a.stop_prefix), keep: a.keep, report: a.report }
}

pub open spec fn attempt(kind: ReadKindView, stop_prefix: Option<Seq<char>>, keep: bool, report: bool) -> ReadAttemptView {
    ReadAttemptView { kind, stop_prefix, keep, report }
}

/// The error for an input of no supported kind.
pub open spec fn unsupported_input_error(input: Seq<char>) -> Seq<char> {
    "Unsupported input format or file extension: '"@ + input
        + "'. Supported formats: .strings, .xml, .xcstrings, .csv, .tsv, .json, .yaml, .yml, .langcodec"@
}

/// The error prefix of a read with the language taken from the file name.
pub open spec fn language_read_prefix(lang: Seq<char>) -> Seq<char> {
    "Failed to read input with language '"@ + lang + "': "@
}

/// The custom-format step for a file whose name allows one: a `.langcodec`
/// array or a detected custom format, stopping with its error.
pub open spec fn custom_steps(input: Seq<char>) -> Seq<ReadAttemptView> {
    if custom_candidate_name(input) {
        seq![attempt(
            if ends_with_seq(input, ".langcodec"@) { ReadKindView::Langcodec } else { ReadKindView::Custom(None) },
            Some(Seq::empty()),
            true,
            false,
        )]
    } else {
        Seq::empty()
    }
}

/// How an input is read, given the format hint and strictness: in strict
/// mode the hint, else the extension, decides one way; otherwise the
/// extension is tried first, then the format with the language in the file
/// name, then the custom formats.
pub open spec fn read_plan_spec(input: Seq<char>, hint: Option<Seq<char>>, strict: bool) -> (Seq<ReadAttemptView>, Seq<char>) {
    let unsupported = unsupported_input_error(input);
    let lang = lang_in_file_name(input);
    if strict {
        match hint {
            Some(h) => match standard_format_named(h) {
                Some(f) => (
                    seq![attempt(ReadKindView::Typed(f, None), Some("Failed to read input with explicit format: "@), true, false)],
                    unsupported,
                ),
                None => match custom_format_named(h) {
                    Some(c) => (seq![attempt(ReadKindView::Custom(Some(c)), Some(Seq::empty()), true, false)], unsupported),
                    None => (Seq::empty(), unknown_custom_format_message(h)),
                },
            },
            None => if standard_format_of_name(input) is Some {
                (seq![attempt(ReadKindView::Extension, Some("Failed to read input: "@), true, false)], unsupported)
            } else {
                (custom_steps(input), unsupported)
            },
        }
    } else if hint is Some && standard_format_named(hint->0) is Some {
        let f = standard_format_named(hint->0)->0;
        match lang {
            Some(l) => (
                seq![
                    attempt(ReadKindView::Extension, None, true, false),
                    attempt(ReadKindView::Typed(f, Some(l)), Some(language_read_prefix(l)), true, false),
                ],
                unsupported,
            ),
            None => (seq![attempt(ReadKindView::Extension, Some("Failed to read input: "@), true, false)], unsupported),
        }
    } else {
        match lang {
            Some(l) => match standard_format_of_name(input) {
                Some(f) => (
                    seq![
                        attempt(ReadKindView::Extension, None, true, false),
                        attempt(ReadKindView::Typed(f, Some(l)), Some(language_read_prefix(l)), false, false),
                    ] + custom_steps(input),
                    unsupported,
                ),
                None => (
                    seq![attempt(ReadKindView::Extension, None, true, false)],
                    "Unsupported file extension for input: "@ + input,
                ),
            },
            None => (seq![attempt(ReadKindView::Extension, None, true, true)] + custom_steps(input), unsupported),
        }
    }
}

fn step(kind: ReadKind, stop_prefix: Option<String>, keep: bool, report: bool) -> (r: ReadAttempt)
    ensures
        r.kind == kind,
        r.stop_prefix == stop_prefix,
        r.keep == keep,
        r.report == report,
{
    ReadAttempt { kind, stop_prefix, keep, report }
}

fn push_custom_steps(attempts: &mut Vec<ReadAttempt>, input: &str)
    ensures
        final(attempts)@.map_values(|a: ReadAttempt| attempt_view(a)) == old(attempts)@.map_values(
            |a: ReadAttempt| attempt_view(a),
        ) + custom_steps(input@),
{
    let ghost before = attempts@;
    if is_custom_candidate(input) {
        let kind = if ends_with(input, ".langcodec") {
            ReadKind::Langcodec
        } else {
            ReadKind::Custom(None)
        };
        attempts.push(step(kind, Some(String::new()), true, false));
        proof {
            assert(attempts@.map_values(|a: ReadAttempt| attempt_view(a)) =~= before.map_values(
                |a: ReadAttempt| attempt_view(a),
            ) + custom_steps(input@));
        }
    } else {
        proof {
            assert(attempts@.map_values(|a: ReadAttempt| attempt_view(a)) =~= before.map_values(
                |a: ReadAttempt| attempt_view(a),
            ) + custom_steps(input@));
        }
    }
}

/// The steps of reading `input` (see `read_plan_spec`).
pub fn read_plan(input: &str, hint: &Option<String>, strict: bool) -> (r: ReadPlan)
    ensures
        (r.attempts@.map_values(|a: ReadAttempt| attempt_view(a)), r.fallback_error@) == read_plan_spec(
            input@,
            opt_view(*hint),
            strict,
        ),
{
    let mut unsupported = owned("Unsupported input format or file extension: '");
    push_str(&mut unsupported, input);
    push_str(
        &mut unsupported,
        "'. Supported formats: .strings, .xml, .xcstrings, .csv, .tsv, .json, .yaml, .yml, .langcodec",
    );
    let mut attempts: Vec<ReadAttempt> = Vec::new();
    let lang = lang_from_filename(input);
    let std_hint: Option<StandardFormat> = match hint {
        Some(h) => standard_format_from_hint(h.as_str()),
        None => None,
    };
    if strict {
        if let Some(h) = hint {
            if let Some(f) = std_hint {
                attempts.push(step(ReadKind::Typed(f, None), Some(owned("Failed to read input with explicit format: ")), true, false));
            } else {
                match parse_custom_format(h.as_str()) {
                    Ok(c) => {
                        attempts.push(step(ReadKind::Custom(Some(c)), Some(String::new()), true, false));
                    },
                    Err(e) => {
                        unsupported = e;
                    },
                }
            }
        } else if standard_format_of_path(input).is_some() {
            attempts.push(step(ReadKind::Extension, Some(owned("Failed to read input: ")), true, false));
        } else {
            push_custom_steps(&mut attempts, input);
        }
    } else if let Some(f) = std_hint {
        match lang {
            Some(l) => {
                let mut prefix = owned("Failed to read input with language '");
                push_str(&mut prefix, l.as_str());
                push_str(&mut prefix, "': ");
                attempts.push(step(ReadKind::Extension, None, true, false));
                attempts.push(step(ReadKind::Typed(f, Some(l)), Some(prefix), true, false));
            },
            None => {
                attempts.push(step(ReadKind::Extension, Some(owned("Failed to read input: ")), true, false));
            },
        }
    } else {
        match lang {
            Some(l) => match standard_format_of_path(input) {
                Some(f) => {
                    let mut prefix = owned("Failed to read input with language '");
                    push_str(&mut prefix, l.as_str());
                    push_str(&mut prefix, "': ");
                    attempts.push(step(ReadKind::Extension, None, true, false));
                    attempts.push(step(ReadKind::Typed(f, Some(l)), Some(prefix), false, false));
                    push_custom_steps(&mut attempts, input);
                },
                None => {
                    attempts.push(step(ReadKind::Extension, None, true, false));
                    unsupported = owned("Unsupported file extension for input: ");
                    push_str(&mut unsupported, input);
                },
            },
            None => {
                attempts.push(step(ReadKind::Extension, None, true, true));
                push_custom_steps(&mut attempts, input);
            },
        }
    }
    let r = ReadPlan { attempts, fallback_error: unsupported };
    proof {
        let (sa, se) = read_plan_spec(input@, opt_view(*hint), strict);
        assert(r.attempts@.map_values(|a: ReadAttempt| attempt_view(a)) =~= sa);
    }
    r
}

/// The error a failed step stops the read with, if it stops it: its text,
/// then the failure's.
pub fn attempt_error(a: &ReadAttempt, err: &str) -> (r: Option<String>)
    ensures
        match a.stop_prefix {
            Some(p) => r matches Some(e) && e@ == p@ + err@,
            None => r is None,
        },
{
    match &a.stop_prefix {
        Some(p) => {
            let mut e = owned(p.as_str());
            push_str(&mut e, err);
            Some(e)
        },
        None => None,
    }
}


/// The language filter of a conversion: no kept resource has an excluded
/// language, whatever the include list is; when an include list is given,
/// every kept resource has an included language; and every resource whose
/// language passes both lists is kept, so with no include list every
/// resource whose language is not excluded is kept.
pub proof fn law_language_filter(rs: Seq<ResourceView>, kept: Seq<Seq<char>>, dropped: Seq<Seq<char>>)
    ensures
        ({
            let out = rs.filter(|r: ResourceView| keeps_language(kept, dropped, r.metadata.language));
            &&& forall|i: int| 0 <= i < out.len() ==> !dropped.contains(#[trigger] out[i].metadata.language)
            &&& forall|i: int| 0 <= i < out.len() && kept.len() > 0 ==> kept.contains(#[trigger] out[i].metadata.language)
            &&& forall|i: int|
                0 <= i < rs.len() && !dropped.contains(#[trigger] rs[i].metadata.language) && (kept.len() == 0
                    || kept.contains(rs[i].metadata.language)) ==> out.contains(rs[i])
        }),
{
    let p = |r: ResourceView| keeps_language(kept, dropped, r.metadata.language);
    let out = rs.filter(p);
    assert forall|i: int| 0 <= i < out.len() implies !dropped.contains(#[trigger] out[i].metadata.language) && (
    kept.len() > 0 ==> kept.contains(out[i].metadata.language)) by {
        rs.lemma_filter_pred(p, i);
        if dropped.contains(out[i].metadata.language) {
            assert(dropped.len() > 0);
        }
    }
    assert forall|i: int|
        0 <= i < rs.len() && !dropped.contains(#[trigger] rs[i].metadata.language) && (kept.len() == 0
            || kept.contains(rs[i].metadata.language)) implies out.contains(rs[i]) by {
        rs.lemma_filter_contains(p, i);
    }
}

} // verus!
