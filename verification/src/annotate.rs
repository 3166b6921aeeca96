//! The annotate command: which catalog entries get a generated translator
//! comment, what the model is asked, how its reply is read, and how the
//! comments are written back, leaving comments written by people alone.
use crate::ai::{model_choice, provider_choice, resolve_model, resolve_provider, same_outcome, KeyPresence, ProviderKind};
use crate::config::{config_relative, resolve_config_relative_path, AnnotateConfig, CliConfig, LoadedConfig};
use crate::paths::{absolutize_path, is_absolute_path, joined_path, parent_path, path_is_dir, path_parent, path_starts_with};
use crate::lang::{lang_same, lang_matches_exact, valid_lang_code, validate_language_code};
use crate::model::{opt_view, resources_view, Entry, EntryView, PluralCategory, Resource, ResourceView, Translation, TranslationView};
use crate::paths::{display_path, path_has_prefix, stripped_path};
use crate::text::{decimal, decimal_string, owned, push_str, str_eq, strings_view, trim, trim_seq};
use crate::sorted::{alist_get, alist_lookup, alist_put, keys_of, seq_lt, strictly_sorted};
use crate::sync::value_in_entries;
use crate::validation::result_is;
use vstd::prelude::*;

verus! {

/// What the annotate command was asked to do.
#[derive(Debug, Clone)]
pub struct AnnotateOptions {
    pub input: Option<String>,
    pub source_roots: Vec<String>,
    pub output: Option<String>,
    pub source_lang: Option<String>,
    pub provider: Option<String>,
    pub model: Option<String>,
    pub concurrency: Option<usize>,
    pub config: Option<String>,
    pub dry_run: bool,
    pub check: bool,
}

/// One entry of an xcstrings catalog, as far as comments go.
#[derive(Debug, Clone)]
pub struct CatalogItem {
    pub comment: Option<String>,
    pub is_comment_auto_generated: Option<bool>,
}

/// A comment written by a person: present and not marked as generated.
pub open spec fn manual_comment(item: CatalogItem) -> bool {
    item.comment is Some && item.is_comment_auto_generated != Some(true)
}

/// Whether the entry's comment was written by a person and must be kept.
pub fn should_preserve_manual_comment(item: &CatalogItem) -> (r: bool)
    ensures
        r == manual_comment(*item),
{
    item.comment.is_some() && !matches!(item.is_comment_auto_generated, Some(true))
}

/// A value as text for the prompt: the text of a singular value, the first
/// form of a plural one, the key itself otherwise.
pub open spec fn value_text(v: TranslationView, key: Seq<char>) -> Seq<char> {
    match v {
        TranslationView::Empty => key,
        TranslationView::Singular(t) => t,
        TranslationView::Plural(_, forms) => if forms.len() > 0 {
            forms[0].1
        } else {
            key
        },
    }
}

/// A value as text for the prompt (see `value_text`).
pub fn translation_to_text(value: &Translation, fallback_key: &str) -> (r: String)
    ensures
        r@ == value_text(value@, fallback_key@),
{
    match value {
        Translation::Empty => owned(fallback_key),
        Translation::Singular(text) => text.clone(),
        Translation::Plural(p) => {
            if p.forms.len() > 0 {
                p.forms[0].1.clone()
            } else {
                owned(fallback_key)
            }
        },
    }
}

/// A model's annotation of one entry.
#[derive(Debug, Clone)]
pub struct AnnotationResponse {
    pub comment: String,
    pub confidence: String,
}

/// What the annotation workers have reported so far: the requests
/// finished, how many gave a comment and how many none, the first error,
/// and each finished key's annotation in key order.
#[derive(Debug, Clone)]
pub struct AnnotateTally {
    pub completed: usize,
    pub generated: usize,
    pub unmatched: usize,
    pub first_error: Option<String>,
    pub results: Vec<(String, Option<AnnotationResponse>)>,
}

impl AnnotateTally {
    /// Nothing reported yet.
    pub fn new() -> (r: Self)
        ensures
            r.completed == 0,
            r.generated == 0,
            r.unmatched == 0,
            r.first_error is None,
            r.results@.len() == 0,
    {
        AnnotateTally { completed: 0, generated: 0, unmatched: 0, first_error: None, results: Vec::new() }
    }
}

/// Counts one finished request for `key`: an annotation or none is kept
/// under the key (replacing an earlier one) and counted as generated or
/// unmatched; an error is kept when it is the first.
pub fn record_annotation(t: &mut AnnotateTally, key: String, item: Result<Option<AnnotationResponse>, String>)
    requires
        strictly_sorted(keys_of(old(t).results@)),
        old(t).completed < usize::MAX,
        old(t).generated < usize::MAX,
        old(t).unmatched < usize::MAX,
    ensures
        strictly_sorted(keys_of(final(t).results@)),
        final(t).completed == old(t).completed + 1,
        match item {
            Ok(Some(a)) => {
                &&& final(t).generated == old(t).generated + 1
                &&& final(t).unmatched == old(t).unmatched
                &&& final(t).first_error == old(t).first_error
                &&& alist_get(final(t).results@, key@) == Some(Some(a))
                &&& forall|q: Seq<char>| q != key@ ==> alist_get(final(t).results@, q) == alist_get(old(t).results@, q)
            },
            Ok(None) => {
                &&& final(t).generated == old(t).generated
                &&& final(t).unmatched == old(t).unmatched + 1
                &&& final(t).first_error == old(t).first_error
                &&& alist_get(final(t).results@, key@) == Some(None::<AnnotationResponse>)
                &&& forall|q: Seq<char>| q != key@ ==> alist_get(final(t).results@, q) == alist_get(old(t).results@, q)
            },
            Err(e) => {
                &&& final(t).generated == old(t).generated
                &&& final(t).unmatched == old(t).unmatched
                &&& final(t).results@ == old(t).results@
                &&& final(t).first_error == match old(t).first_error {
                    Some(x) => Some(x),
                    None => Some(e),
                }
            },
        },
{
    t.completed = t.completed + 1;
    match item {
        Ok(annotation) => {
            if annotation.is_some() {
                t.generated = t.generated + 1;
            } else {
                t.unmatched = t.unmatched + 1;
            }
            alist_put(&mut t.results, key, annotation);
        },
        Err(e) => {
            if t.first_error.is_none() {
                t.first_error = Some(e);
            }
        },
    }
}

/// Keeps `e` as the error of the run unless one came first (a worker that
/// could not finish).
pub fn note_annotation_failure(t: &mut AnnotateTally, e: String)
    ensures
        final(t).completed == old(t).completed,
        final(t).generated == old(t).generated,
        final(t).unmatched == old(t).unmatched,
        final(t).results@ == old(t).results@,
        final(t).first_error == match old(t).first_error {
            Some(x) => Some(x),
            None => Some(e),
        },
{
    if t.first_error.is_none() {
        t.first_error = Some(e);
    }
}

/// The outcome of the annotation requests: the first error, or the
/// annotations by key.
pub fn finish_tally(t: AnnotateTally) -> (r: Result<Vec<(String, Option<AnnotationResponse>)>, String>)
    ensures
        match t.first_error {
            Some(e) => r == Err::<Vec<(String, Option<AnnotationResponse>)>, String>(e),
            None => r matches Ok(v) && v@ == t.results@,
        },
{
    match t.first_error {
        Some(e) => Err(e),
        None => Ok(t.results),
    }
}

/// One entry to annotate.
#[derive(Debug, Clone)]
pub struct AnnotationRequest {
    pub key: String,
    pub source_lang: String,
    pub source_value: String,
    pub existing_comment: Option<String>,
    pub source_roots: Vec<String>,
}

/// The lines listing the source roots in the prompt.
pub open spec fn roots_text(roots: Seq<Seq<char>>) -> Seq<char>
    decreases roots.len(),
{
    if roots.len() == 0 {
        Seq::empty()
    } else {
        roots_text(roots.drop_last()) + "- "@ + roots.last() + "\n"@
    }
}

/// The prompt for one entry: the key, the source language and value, the
/// earlier generated comment when there is one, the source roots, and the
/// instructions for the search and the reply.
pub open spec fn annotation_prompt_text(r: AnnotationRequest) -> Seq<char> {
    "Write one translator-facing comment for this xcstrings entry.\n\nKey: "@ + r.key@
        + "\nSource language: "@ + r.source_lang@ + "\nSource value: "@ + r.source_value@ + "\n"@
        + (match r.existing_comment {
        Some(c) => "\nExisting auto-generated comment:\n"@ + c@ + "\n"@,
        None => Seq::empty(),
    }) + "\nSource roots you may inspect with the files tool:\n"@ + roots_text(
        strings_view(r.source_roots@),
    )
        + "\nUse the shell tool for fast code search, preferably with rg, within these roots before drafting when the usage is not already obvious. Then use files reads for only the most relevant hits. Avoid broad repeated searches or directory listings.\n"@
        + "\nRequirements:\n- Keep the comment concise and useful for translators.\n- Prefer describing UI role or user-facing context.\n- If confidence is low, mention the concrete code usage you found instead of guessing product meaning.\n- Use as few tool calls as practical; usually one rg search plus a small number of targeted file reads is enough.\n- Do not mention internal file paths unless they clarify usage.\n- Return JSON only: {\"comment\":\"...\",\"confidence\":\"high|medium|low\"}.\n"@
}

/// The prompt for one entry (see `annotation_prompt_text`).
pub fn build_annotation_prompt(request: &AnnotationRequest) -> (r: String)
    ensures
        r@ == annotation_prompt_text(*request),
{
    let mut prompt = owned("Write one translator-facing comment for this xcstrings entry.\n\nKey: ");
    push_str(&mut prompt, request.key.as_str());
    push_str(&mut prompt, "\nSource language: ");
    push_str(&mut prompt, request.source_lang.as_str());
    push_str(&mut prompt, "\nSource value: ");
    push_str(&mut prompt, request.source_value.as_str());
    push_str(&mut prompt, "\n");
    let ghost head = prompt@;
    if let Some(existing_comment) = &request.existing_comment {
        push_str(&mut prompt, "\nExisting auto-generated comment:\n");
        push_str(&mut prompt, existing_comment.as_str());
        push_str(&mut prompt, "\n");
    }
    let ghost with_comment = prompt@;
    proof {
        match &request.existing_comment {
            Some(c) => {
                assert(with_comment =~= head + ("\nExisting auto-generated comment:\n"@ + c@ + "\n"@));
            },
            None => {
                assert(with_comment =~= head + Seq::<char>::empty());
            },
        }
    }
    push_str(&mut prompt, "\nSource roots you may inspect with the files tool:\n");
    let ghost before_roots = prompt@;
    let ghost rv = strings_view(request.source_roots@);
    let mut i: usize = 0;
    proof {
        assert(rv.take(0) =~= Seq::<Seq<char>>::empty());
        assert(before_roots + roots_text(rv.take(0)) =~= before_roots);
    }
    while i < request.source_roots.len()
        invariant
            i <= request.source_roots.len(),
            rv == strings_view(request.source_roots@),
            prompt@ == before_roots + roots_text(rv.take(i as int)),
        decreases request.source_roots.len() - i,
    {
        push_str(&mut prompt, "- ");
        push_str(&mut prompt, request.source_roots[i].as_str());
        push_str(&mut prompt, "\n");
        proof {
            assert(rv.take(i + 1).drop_last() =~= rv.take(i as int));
            assert(prompt@ =~= before_roots + roots_text(rv.take(i + 1)));
        }
        i = i + 1;
    }
    proof {
        assert(rv.take(i as int) =~= rv);
    }
    push_str(
        &mut prompt,
        "\nUse the shell tool for fast code search, preferably with rg, within these roots before drafting when the usage is not already obvious. Then use files reads for only the most relevant hits. Avoid broad repeated searches or directory listings.\n",
    );
    push_str(
        &mut prompt,
        "\nRequirements:\n- Keep the comment concise and useful for translators.\n- Prefer describing UI role or user-facing context.\n- If confidence is low, mention the concrete code usage you found instead of guessing product meaning.\n- Use as few tool calls as practical; usually one rg search plus a small number of targeted file reads is enough.\n- Do not mention internal file paths unless they clarify usage.\n- Return JSON only: {\"comment\":\"...\",\"confidence\":\"high|medium|low\"}.\n",
    );
    proof {
        assert(prompt@ =~= annotation_prompt_text(*request));
    }
    prompt
}

/// An annotation is kept only when its comment has text once trimmed.
pub fn validate_annotation_response(payload: AnnotationResponse) -> (r: Result<AnnotationResponse, String>)
    ensures
        trim_seq(payload.comment@).len() == 0 ==> (r matches Err(e) && e@
            == "Model returned an empty annotation comment"@),
        trim_seq(payload.comment@).len() != 0 ==> (r matches Ok(p) && p.comment@ == payload.comment@
            && p.confidence@ == payload.confidence@),
{
    if trim(payload.comment.as_str()).as_str().unicode_len() == 0 {
        return Err(owned("Model returned an empty annotation comment"));
    }
    Ok(payload)
}

/// The comment and confidence of the JSON object that `text` holds, as
/// `serde_json` reads it; none when `text` is not such an object.
pub uninterp spec fn json_annotation(text: Seq<char>) -> Option<(Seq<char>, Seq<char>)>;

/// Reads `text` with `serde_json::from_str` as a JSON value and returns the
/// strings under its `comment` and `confidence` keys. The contract names
/// the result and says nothing of its content: that is `serde_json`'s
/// parser. This reads a JSON object only, where a derived deserializer
/// would also take a two-element array.
#[verifier::external_body]
fn read_annotation_json(text: &str) -> (r: Option<(String, String)>)
    ensures
        match r {
            Some((c, f)) => json_annotation(text@) == Some((c@, f@)),
            None => json_annotation(text@) is None,
        },
{
    let v = serde_json::from_str::<serde_json::Value>(text).ok()?;
    let comment = v.get("comment")?.as_str()?.to_string();
    let confidence = v.get("confidence")?.as_str()?.to_string();
    Some((comment, confidence))
}

/// What a model's reply gives, knowing what its trimmed text and its fenced
/// body read as: an empty reply is an error; otherwise the annotation of
/// the text, else that of the body, each refused when its comment is blank;
/// else an error that quotes the reply.
pub open spec fn annotation_outcome(
    text: Seq<char>,
    direct: Option<(Seq<char>, Seq<char>)>,
    fenced: Option<(Seq<char>, Seq<char>)>,
) -> Result<(Seq<char>, Seq<char>), Seq<char>> {
    let t = trim_seq(text);
    let checked = |p: (Seq<char>, Seq<char>)|
        if trim_seq(p.0).len() == 0 {
            Err("Model returned an empty annotation comment"@)
        } else {
            Ok(p)
        };
    if t.len() == 0 {
        Err("Model returned an empty annotation response"@)
    } else if direct is Some {
        checked(direct->0)
    } else if fenced is Some {
        checked(fenced->0)
    } else {
        Err("Model response was not valid annotation JSON: "@ + t)
    }
}

/// The outcome of an annotation, by view.
pub open spec fn annotation_result_is(
    r: Result<AnnotationResponse, String>,
    s: Result<(Seq<char>, Seq<char>), Seq<char>>,
) -> bool {
    match s {
        Ok(p) => r matches Ok(a) && a.comment@ == p.0 && a.confidence@ == p.1,
        Err(e) => r matches Err(x) && x@ == e,
    }
}

/// Decides what a reply gives (see `annotation_outcome`) from what its
/// trimmed text (`direct`) and its fenced body (`fenced`) read as.
pub fn annotation_from_reply(
    text: &str,
    direct: Option<(String, String)>,
    fenced: Option<(String, String)>,
) -> (r: Result<AnnotationResponse, String>)
    ensures
        annotation_result_is(
            r,
            annotation_outcome(
                text@,
                match direct {
                    Some((c, f)) => Some((c@, f@)),
                    None => None,
                },
                match fenced {
                    Some((c, f)) => Some((c@, f@)),
                    None => None,
                },
            ),
        ),
{
    let trimmed = trim(text);
    if trimmed.as_str().unicode_len() == 0 {
        return Err(owned("Model returned an empty annotation response"));
    }
    if let Some((comment, confidence)) = direct {
        return validate_annotation_response(AnnotationResponse { comment, confidence });
    }
    if let Some((comment, confidence)) = fenced {
        return validate_annotation_response(AnnotationResponse { comment, confidence });
    }
    let mut e = owned("Model response was not valid annotation JSON: ");
    push_str(&mut e, trimmed.as_str());
    Err(e)
}

/// Reads a model's reply to an annotation request: the JSON object of the
/// trimmed reply, else that of its fenced body (see `annotation_outcome`).
pub fn parse_annotation_response(text: &str) -> (r: Result<AnnotationResponse, String>)
    ensures
        annotation_result_is(
            r,
            annotation_outcome(
                text@,
                json_annotation(trim_seq(text@)),
                match crate::translate::json_body(trim_seq(text@)) {
                    Some(b) => json_annotation(b),
                    None => None,
                },
            ),
        ),
{
    let trimmed = trim(text);
    if trimmed.as_str().unicode_len() == 0 {
        return annotation_from_reply(text, None, None);
    }
    let direct = read_annotation_json(trimmed.as_str());
    let fenced = match crate::translate::extract_json_body(trimmed.as_str()) {
        Some(body) => read_annotation_json(body.as_str()),
        None => None,
    };
    annotation_from_reply(text, direct, fenced)
}

/// The position of the first resource whose language is the requested one
/// after normalization.
pub open spec fn first_same_lang(rs: Seq<ResourceView>, lang: Seq<char>) -> Option<int>
    decreases rs.len(),
{
    if rs.len() == 0 {
        None
    } else if lang_same(rs[0].metadata.language, lang) {
        Some(0)
    } else {
        match first_same_lang(rs.drop_first(), lang) {
            Some(i) => Some(i + 1),
            None => None,
        }
    }
}

proof fn lemma_first_same_lang(rs: Seq<ResourceView>, lang: Seq<char>, i: int)
    requires
        0 <= i <= rs.len(),
        forall|k: int| 0 <= k < i ==> !lang_same(#[trigger] rs[k].metadata.language, lang),
    ensures
        i < rs.len() && lang_same(rs[i].metadata.language, lang) ==> first_same_lang(rs, lang) == Some(i),
        i == rs.len() ==> first_same_lang(rs, lang) is None,
    decreases rs.len(),
{
    if rs.len() > 0 && i > 0 {
        assert forall|k: int| 0 <= k < i - 1 implies !lang_same(#[trigger] rs.drop_first()[k].metadata.language, lang) by {
            assert(rs.drop_first()[k] == rs[k + 1]);
        }
        lemma_first_same_lang(rs.drop_first(), lang, i - 1);
    }
}

/// The source text of each key: in the first resource of the source
/// language, the text of the last entry with that key.
pub open spec fn source_text(rs: Seq<ResourceView>, lang: Seq<char>, k: Seq<char>) -> Option<Seq<char>> {
    match first_same_lang(rs, lang) {
        None => None,
        Some(i) => match value_in_entries(rs[i].entries, k) {
            Some(v) => Some(value_text(v, k)),
            None => None,
        },
    }
}

/// The source text of each key, by key (see `source_text`).
pub fn source_value_map(resources: &Vec<Resource>, source_lang: &str) -> (r: Vec<(String, String)>)
    ensures
        strictly_sorted(keys_of(r@)),
        forall|k: Seq<char>|
            #![trigger alist_get(r@, k)]
            match source_text(resources_view(resources@), source_lang@, k) {
                Some(t) => alist_get(r@, k) matches Some(x) && x@ == t,
                None => alist_get(r@, k) is None,
            },
{
    let ghost rv = resources_view(resources@);
    let mut out: Vec<(String, String)> = Vec::new();
    proof {
        assert(keys_of(out@) =~= Seq::empty());
    }
    let mut i: usize = 0;
    while i < resources.len() && !lang_matches_exact(resources[i].metadata.language.as_str(), source_lang)
        invariant
            i <= resources.len(),
            rv == resources_view(resources@),
            forall|k: int| 0 <= k < i ==> !lang_same(#[trigger] rv[k].metadata.language, source_lang@),
        decreases resources.len() - i,
    {
        i = i + 1;
    }
    proof {
        lemma_first_same_lang(rv, source_lang@, i as int);
    }
    if i == resources.len() {
        return out;
    }
    let es = &resources[i].entries;
    let ghost ev = rv[i as int].entries;
    let mut j: usize = 0;
    proof {
        assert(ev.take(0) =~= Seq::<EntryView>::empty());
    }
    while j < es.len()
        invariant
            j <= es.len(),
            i < resources.len(),
            es == &resources@[i as int].entries,
            ev == rv[i as int].entries,
            rv == resources_view(resources@),
            first_same_lang(rv, source_lang@) == Some(i as int),
            ev == crate::model::entries_view(es@),
            strictly_sorted(keys_of(out@)),
            forall|k: Seq<char>|
                #![trigger alist_get(out@, k)]
                match value_in_entries(ev.take(j as int), k) {
                    Some(v) => alist_get(out@, k) matches Some(x) && x@ == value_text(v, k),
                    None => alist_get(out@, k) is None,
                },
        decreases es.len() - j,
    {
        let ghost o0 = out@;
        let text = translation_to_text(&es[j].value, es[j].id.as_str());
        alist_put(&mut out, es[j].id.clone(), text);
        proof {
            assert(ev.take(j + 1).drop_last() =~= ev.take(j as int));
            assert(ev.take(j + 1).last() == es@[j as int]@);
            assert forall|k: Seq<char>| #![trigger alist_get(out@, k)]
                match value_in_entries(ev.take(j + 1), k) {
                    Some(v) => alist_get(out@, k) matches Some(x) && x@ == value_text(v, k),
                    None => alist_get(out@, k) is None,
                } by {
                if k != es@[j as int].id@ {
                    assert(alist_get(out@, k) == alist_get(o0, k));
                }
            }
        }
        j = j + 1;
    }
    proof {
        assert(ev.take(j as int) =~= ev);
    }
    out
}

/// An xcstrings catalog, as far as comments go: its source language and its
/// entries by key, each key once.
#[derive(Debug, Clone)]
pub struct Catalog {
    pub source_language: String,
    pub strings: Vec<(String, CatalogItem)>,
}

/// The keys of a catalog are distinct.
pub open spec fn catalog_wf(c: Catalog) -> bool {
    forall|i: int, j: int|
        0 <= i < c.strings.len() && 0 <= j < c.strings.len() && i != j ==> (#[trigger] c.strings@[i]).0@
            != (#[trigger] c.strings@[j]).0@
}

/// Whether the catalog has key `k` with an entry whose comment may be
/// generated.
pub open spec fn annotatable(c: Catalog, k: Seq<char>) -> bool {
    exists|i: int|
        0 <= i < c.strings.len() && (#[trigger] c.strings@[i]).0@ == k && !manual_comment(c.strings@[i].1)
}

/// `r` is the request for key `k` of the catalog.
pub open spec fn request_for(
    r: AnnotationRequest,
    c: Catalog,
    source_lang: Seq<char>,
    source_values: Seq<(String, String)>,
    roots: Seq<Seq<char>>,
    workspace_root: Seq<char>,
) -> bool {
    &&& exists|i: int|
        0 <= i < c.strings.len() && (#[trigger] c.strings@[i]).0@ == r.key@ && opt_view(r.existing_comment)
            == opt_view(c.strings@[i].1.comment)
    &&& r.source_lang@ == source_lang
    &&& r.source_value@ == match alist_get(source_values, r.key@) {
        Some(v) => v@,
        None => r.key@,
    }
    &&& strings_view(r.source_roots@) == roots.map_values(
        |p: Seq<char>| shown_root(p, workspace_root),
    )
}

/// A path as the prompt shows it: relative to the workspace root when it
/// lies under it.
pub open spec fn shown_root(p: Seq<char>, workspace_root: Seq<char>) -> Seq<char> {
    if path_has_prefix(p, workspace_root) {
        stripped_path(p, workspace_root)
    } else {
        p
    }
}

/// The keys of the requests, in order.
pub open spec fn request_keys(v: Seq<AnnotationRequest>) -> Seq<Seq<char>> {
    v.map_values(|r: AnnotationRequest| r.key@)
}

/// The source roots as the prompt shows them: relative to the workspace
/// root when they lie under it.
pub fn displayed_roots(source_roots: &Vec<String>, workspace_root: &str) -> (r: Vec<String>)
    ensures
        strings_view(r@) == strings_view(source_roots@).map_values(
            |p: Seq<char>| shown_root(p, workspace_root@),
        ),
{
    let ghost f = |p: Seq<char>| shown_root(p, workspace_root@);
    let mut out: Vec<String> = Vec::new();
    let mut i: usize = 0;
    while i < source_roots.len()
        invariant
            i <= source_roots.len(),
            out.len() == i,
            f == (|p: Seq<char>| shown_root(p, workspace_root@)),
            strings_view(out@) == strings_view(source_roots@).take(i as int).map_values(f),
        decreases source_roots.len() - i,
    {
        let ghost o0 = out@;
        let shown = display_path(workspace_root, source_roots[i].as_str());
        proof {
            assert(shown@ == f(source_roots@[i as int]@));
        }
        out.push(shown);
        proof {
            assert(strings_view(out@) =~= strings_view(o0).push(out@[i as int]@));
            assert(strings_view(source_roots@).take(i + 1).map_values(f) =~= strings_view(source_roots@).take(
                i as int,
            ).map_values(f).push(f(source_roots@[i as int]@)));
        }
        i = i + 1;
    }
    proof {
        assert(strings_view(source_roots@).take(i as int) =~= strings_view(source_roots@));
    }
    out
}

/// The requests for the entries whose comment may be generated, in key
/// order: each with its source text (the key itself when the source has
/// none), its earlier comment and the source roots as the prompt shows
/// them.
pub fn build_annotation_requests(
    catalog: &Catalog,
    source_lang: &str,
    source_values: &Vec<(String, String)>,
    source_roots: &Vec<String>,
    workspace_root: &str,
) -> (r: Vec<AnnotationRequest>)
    requires
        catalog_wf(*catalog),
        strictly_sorted(keys_of(source_values@)),
    ensures
        strictly_sorted(request_keys(r@)),
        forall|k: Seq<char>|
            #![trigger request_keys(r@).contains(k)]
            request_keys(r@).contains(k) <==> annotatable(*catalog, k),
        forall|n: int|
            0 <= n < r.len() ==> request_for(
                #[trigger] r@[n],
                *catalog,
                source_lang@,
                source_values@,
                strings_view(source_roots@),
                workspace_root@,
            ),
{
    let strings = &catalog.strings;
    let mut order: Vec<(String, usize)> = Vec::new();
    let mut i: usize = 0;
    proof {
        assert(keys_of(order@) =~= Seq::empty());
    }
    while i < strings.len()
        invariant
            i <= strings.len(),
            strings == &catalog.strings,
            catalog_wf(*catalog),
            strictly_sorted(keys_of(order@)),
            forall|k: Seq<char>|
                #![trigger alist_get(order@, k)]
                alist_get(order@, k) matches Some(x) ==> x < i && strings@[x as int].0@ == k,
            forall|m: int| 0 <= m < i ==> #[trigger] alist_get(order@, strings@[m].0@) is Some,
        decreases strings.len() - i,
    {
        let ghost o0 = order@;
        alist_put(&mut order, strings[i].0.clone(), i);
        proof {
            assert forall|m: int| 0 <= m < i + 1 implies #[trigger] alist_get(order@, strings@[m].0@) is Some by {
                if m < i && strings@[m].0@ != strings@[i as int].0@ {
                    assert(alist_get(order@, strings@[m].0@) == alist_get(o0, strings@[m].0@));
                }
            }
        }
        i = i + 1;
    }
    let roots = displayed_roots(source_roots, workspace_root);
    let mut out: Vec<AnnotationRequest> = Vec::new();
    let mut m: usize = 0;
    while m < order.len()
        invariant
            m <= order.len(),
            strings == &catalog.strings,
            catalog_wf(*catalog),
            strictly_sorted(keys_of(source_values@)),
            strictly_sorted(keys_of(order@)),
            forall|k: Seq<char>|
                #![trigger alist_get(order@, k)]
                alist_get(order@, k) matches Some(x) ==> x < strings.len() && strings@[x as int].0@ == k,
            forall|q: int| 0 <= q < strings.len() ==> #[trigger] alist_get(order@, strings@[q].0@) is Some,
            strings_view(roots@) == strings_view(source_roots@).map_values(
                |p: Seq<char>| shown_root(p, workspace_root@),
            ),
            strictly_sorted(request_keys(out@)),
            forall|n: int|
                0 <= n < out.len() ==> (m < order.len() ==> seq_lt(#[trigger] request_keys(out@)[n], order@[m as int].0@)),
            forall|k: Seq<char>|
                #![trigger request_keys(out@).contains(k)]
                request_keys(out@).contains(k) <==> (keys_of(order@.take(m as int)).contains(k)
                    && annotatable(*catalog, k)),
            forall|n: int|
                0 <= n < out.len() ==> request_for(
                    #[trigger] out@[n],
                    *catalog,
                    source_lang@,
                    source_values@,
                    strings_view(source_roots@),
                    workspace_root@,
                ),
        decreases order.len() - m,
    {
        let key = &order[m].0;
        let idx = order[m].1;
        let ghost kv = key@;
        proof {
            crate::sorted::lemma_alist_get_at(order@, m as int);
            assert(strings@[idx as int].0@ == kv);
            assert(annotatable(*catalog, kv) <==> !manual_comment(strings@[idx as int].1)) by {
                if annotatable(*catalog, kv) {
                    let q = choose|q: int| 0 <= q < strings.len() && (#[trigger] strings@[q]).0@ == kv && !manual_comment(strings@[q].1);
                    if q != idx {
                        assert(strings@[q].0@ != strings@[idx as int].0@);
                    }
                }
            }
            assert(keys_of(order@.take(m + 1)) =~= keys_of(order@.take(m as int)).push(kv));
        }
        let item = &strings[idx].1;
        let ghost out0 = out@;
        if !should_preserve_manual_comment(item) {
            let source_value = match alist_lookup(source_values, key.as_str()) {
                Some(p) => source_values[p].1.clone(),
                None => key.clone(),
            };
            let mut rs: Vec<String> = Vec::new();
            let mut q: usize = 0;
            while q < roots.len()
                invariant
                    q <= roots.len(),
                    strings_view(rs@) == strings_view(roots@).take(q as int),
                decreases roots.len() - q,
            {
                let ghost r0 = rs@;
                rs.push(roots[q].clone());
                proof {
                    assert(strings_view(rs@) =~= strings_view(r0).push(roots@[q as int]@));
                    assert(strings_view(roots@).take(q + 1) =~= strings_view(roots@).take(q as int).push(roots@[q as int]@));
                }
                q = q + 1;
            }
            proof {
                assert(strings_view(roots@).take(q as int) =~= strings_view(roots@));
            }
            let req = AnnotationRequest {
                key: key.clone(),
                source_lang: owned(source_lang),
                source_value,
                existing_comment: crate::model::dup_opt(&item.comment),
                source_roots: rs,
            };
            proof {
                assert(0 <= idx < strings.len() && strings@[idx as int].0@ == req.key@ && opt_view(req.existing_comment) == opt_view(strings@[idx as int].1.comment));
            }
            out.push(req);
            proof {
                assert(request_keys(out@) =~= request_keys(out0).push(kv));
                assert forall|n: int| 0 <= n < out.len() implies request_for(
                    #[trigger] out@[n],
                    *catalog,
                    source_lang@,
                    source_values@,
                    strings_view(source_roots@),
                    workspace_root@,
                ) by {
                    if n < out0.len() {
                        assert(out@[n] == out0[n]);
                    }
                }
                assert forall|a: int, b: int| 0 <= a < b < out.len() implies seq_lt(
                    #[trigger] request_keys(out@)[a],
                    #[trigger] request_keys(out@)[b],
                ) by {
                    if b == out0.len() {
                        assert(request_keys(out@)[b] == kv);
                        assert(request_keys(out@)[a] == request_keys(out0)[a]);
                    } else {
                        assert(request_keys(out@)[a] == request_keys(out0)[a]);
                        assert(request_keys(out@)[b] == request_keys(out0)[b]);
                    }
                }
            }
        }
        proof {
            broadcast use vstd::seq_lib::group_seq_properties;
            if m + 1 < order.len() {
                assert(seq_lt(keys_of(order@)[m as int], keys_of(order@)[m + 1]));
                assert forall|n: int| 0 <= n < out.len() implies seq_lt(#[trigger] request_keys(out@)[n], order@[m + 1].0@) by {
                    if n < out0.len() {
                        assert(request_keys(out@)[n] == request_keys(out0)[n]);
                        crate::sorted::lemma_lt_trans(request_keys(out0)[n], kv, order@[m + 1].0@);
                    }
                }
            }
            assert forall|k: Seq<char>| #![trigger request_keys(out@).contains(k)]
                request_keys(out@).contains(k) <==> (keys_of(order@.take(m + 1)).contains(k) && annotatable(*catalog, k)) by {
                if out.len() > out0.len() {
                    assert(request_keys(out@) =~= request_keys(out0).push(kv));
                } else {
                    assert(out@ == out0);
                }
            }
        }
        m = m + 1;
    }
    proof {
        assert(order@.take(m as int) =~= order@);
        assert forall|k: Seq<char>| #![trigger request_keys(out@).contains(k)]
            request_keys(out@).contains(k) <==> annotatable(*catalog, k) by {
            if annotatable(*catalog, k) {
                let q = choose|q: int| 0 <= q < strings.len() && (#[trigger] strings@[q]).0@ == k && !manual_comment(strings@[q].1);
                assert(alist_get(order@, strings@[q].0@) is Some);
                crate::sorted::lemma_alist_get_contains(order@, k);
            }
        }
    }
    out
}

/// The comment state of an item, by view.
pub open spec fn item_view(item: CatalogItem) -> (Option<Seq<char>>, Option<bool>) {
    (opt_view(item.comment), item.is_comment_auto_generated)
}

/// What the results say for one key: a comment, that none was generated,
/// or nothing.
pub open spec fn result_for(results: Seq<(String, Option<AnnotationResponse>)>, k: Seq<char>) -> Option<
    Option<Seq<char>>,
> {
    match alist_get(results, k) {
        Some(Some(a)) => Some(Some(a.comment@)),
        Some(None) => Some(None),
        None => None,
    }
}

/// Whether writing the results changes the item under key `k`: its comment
/// is not a person's, a comment was generated, and the item does not already
/// hold it marked as generated.
pub open spec fn item_changes(item: CatalogItem, k: Seq<char>, results: Seq<(String, Option<AnnotationResponse>)>) -> bool {
    !manual_comment(item) && match result_for(results, k) {
        Some(Some(c)) => opt_view(item.comment) != Some(c) || item.is_comment_auto_generated != Some(true),
        _ => false,
    }
}

/// Whether the item under key `k` is one for which no comment was generated.
pub open spec fn item_unmatched(item: CatalogItem, k: Seq<char>, results: Seq<(String, Option<AnnotationResponse>)>) -> bool {
    !manual_comment(item) && result_for(results, k) == Some(None::<Seq<char>>)
}

/// The item after the results are written.
pub open spec fn annotated_view(item: CatalogItem, k: Seq<char>, results: Seq<(String, Option<AnnotationResponse>)>) -> (
    Option<Seq<char>>,
    Option<bool>,
) {
    if item_changes(item, k, results) {
        (result_for(results, k)->0, Some(true))
    } else {
        item_view(item)
    }
}

/// Writes the generated comments into the catalog: every entry whose
/// comment is not a person's and for which a comment came back gets it,
/// marked as generated. Returns how many entries changed and for how many
/// no comment was generated.
pub fn apply_annotations(catalog: &mut Catalog, results: &Vec<(String, Option<AnnotationResponse>)>) -> (r: (
    usize,
    usize,
))
    requires
        strictly_sorted(keys_of(results@)),
    ensures
        final(catalog).source_language@ == old(catalog).source_language@,
        final(catalog).strings.len() == old(catalog).strings.len(),
        forall|i: int|
            0 <= i < final(catalog).strings.len() ==> {
                &&& (#[trigger] final(catalog).strings@[i]).0@ == old(catalog).strings@[i].0@
                &&& item_view(final(catalog).strings@[i].1) == annotated_view(
                    old(catalog).strings@[i].1,
                    old(catalog).strings@[i].0@,
                    results@,
                )
            },
        r.0 == old(catalog).strings@.filter(
            |p: (String, CatalogItem)| item_changes(p.1, p.0@, results@),
        ).len(),
        r.1 == old(catalog).strings@.filter(
            |p: (String, CatalogItem)| item_unmatched(p.1, p.0@, results@),
        ).len(),
{
    let ghost s0 = catalog.strings@;
    let mut changed: usize = 0;
    let mut unmatched: usize = 0;
    let mut i: usize = 0;
    proof {
        reveal(Seq::filter);
        assert(s0.take(0) =~= Seq::<(String, CatalogItem)>::empty());
    }
    while i < catalog.strings.len()
        invariant
            i <= catalog.strings.len(),
            catalog.strings.len() == s0.len(),
            catalog.source_language@ == old(catalog).source_language@,
            s0 == old(catalog).strings@,
            strictly_sorted(keys_of(results@)),
            forall|k: int|
                0 <= k < i ==> {
                    &&& (#[trigger] catalog.strings@[k]).0@ == s0[k].0@
                    &&& item_view(catalog.strings@[k].1) == annotated_view(s0[k].1, s0[k].0@, results@)
                },
            forall|k: int| i <= k < catalog.strings.len() ==> #[trigger] catalog.strings@[k] == s0[k],
            changed == s0.take(i as int).filter(
                |p: (String, CatalogItem)| item_changes(p.1, p.0@, results@),
            ).len(),
            unmatched == s0.take(i as int).filter(
                |p: (String, CatalogItem)| item_unmatched(p.1, p.0@, results@),
            ).len(),
            changed <= i,
            unmatched <= i,
        decreases catalog.strings.len() - i,
    {
        let ghost e = s0[i as int];
        proof {
            assert(s0.take(i + 1) =~= s0.take(i as int).push(e));
            s0.take(i as int).lemma_filter_push(e, |p: (String, CatalogItem)| item_changes(p.1, p.0@, results@));
            s0.take(i as int).lemma_filter_push(e, |p: (String, CatalogItem)| item_unmatched(p.1, p.0@, results@));
        }
        let ghost before = catalog.strings@;
        if !should_preserve_manual_comment(&catalog.strings[i].1) {
            match alist_lookup(results, catalog.strings[i].0.as_str()) {
                Some(p) => match &results[p].1 {
                    Some(a) => {
                        let same = match &catalog.strings[i].1.comment {
                            Some(c) => str_eq(c.as_str(), a.comment.as_str()),
                            None => false,
                        };
                        let auto = matches!(catalog.strings[i].1.is_comment_auto_generated, Some(true));
                        if !same || !auto {
                            catalog.strings[i].1.comment = Some(a.comment.clone());
                            catalog.strings[i].1.is_comment_auto_generated = Some(true);
                            changed = changed + 1;
                        }
                    },
                    None => {
                        unmatched = unmatched + 1;
                    },
                },
                None => {},
            }
        }
        proof {
            assert forall|k: int| 0 <= k < catalog.strings.len() && k != i implies catalog.strings@[k] == before[k] by {}
        }
        i = i + 1;
    }
    proof {
        assert(s0.take(i as int) =~= s0);
    }
    (changed, unmatched)
}

/// What the annotate command reports once the comments are written into the
/// catalog, and whether the catalog is to be saved.
#[derive(Debug)]
pub struct AnnotateReport {
    pub lines: Vec<String>,
    pub write: bool,
    pub result: Result<(), String>,
}

/// The line about entries without a generated comment, when there are any.
pub open spec fn skipped_lines(unmatched: nat) -> Seq<Seq<char>> {
    if unmatched > 0 {
        seq!["Skipped "@ + decimal(unmatched) + " entry(s) without generated comments"@]
    } else {
        Seq::empty()
    }
}

/// The end of an annotate run: in check mode any change is an error that
/// writes nothing; a dry run says what would change; no change says so;
/// otherwise the catalog is written and the change reported.
pub fn annotate_report(changed: usize, unmatched: usize, check: bool, dry_run: bool, output: &str) -> (r: AnnotateReport)
    ensures
        check && changed > 0 ==> {
            &&& strings_view(r.lines@) == seq!["would change: "@ + output@]
            &&& !r.write
            &&& r.result matches Err(e) && e@ == "would change: "@ + output@
        },
        !(check && changed > 0) && dry_run ==> {
            &&& strings_view(r.lines@) == seq![
                "DRY-RUN: would update "@ + decimal(changed as nat) + " comment(s) in "@ + output@,
            ] + skipped_lines(unmatched as nat)
            &&& !r.write
            &&& r.result is Ok
        },
        !(check && changed > 0) && !dry_run && changed == 0 ==> {
            &&& strings_view(r.lines@) == seq!["No comment updates were necessary."@] + skipped_lines(
                unmatched as nat,
            )
            &&& !r.write
            &&& r.result is Ok
        },
        !(check && changed > 0) && !dry_run && changed > 0 ==> {
            &&& strings_view(r.lines@) == seq![
                "Updated "@ + decimal(changed as nat) + " comment(s) in "@ + output@,
            ] + skipped_lines(unmatched as nat)
            &&& r.write
            &&& r.result is Ok
        },
{
    let mut lines: Vec<String> = Vec::new();
    if check && changed > 0 {
        let mut l = owned("would change: ");
        push_str(&mut l, output);
        lines.push(l);
        let mut e = owned("would change: ");
        push_str(&mut e, output);
        proof {
            assert(strings_view(lines@) =~= seq!["would change: "@ + output@]);
        }
        return AnnotateReport { lines, write: false, result: Err(e) };
    }
    let first = if dry_run {
        let mut l = owned("DRY-RUN: would update ");
        push_str(&mut l, decimal_string(changed).as_str());
        push_str(&mut l, " comment(s) in ");
        push_str(&mut l, output);
        l
    } else if changed == 0 {
        owned("No comment updates were necessary.")
    } else {
        let mut l = owned("Updated ");
        push_str(&mut l, decimal_string(changed).as_str());
        push_str(&mut l, " comment(s) in ");
        push_str(&mut l, output);
        l
    };
    let ghost fv = first@;
    lines.push(first);
    if unmatched > 0 {
        let mut l = owned("Skipped ");
        push_str(&mut l, decimal_string(unmatched).as_str());
        push_str(&mut l, " entry(s) without generated comments");
        lines.push(l);
    }
    proof {
        assert(strings_view(lines@) =~= seq![fv] + skipped_lines(unmatched as nat));
    }
    AnnotateReport { lines, write: !dry_run && changed > 0, result: Ok(()) }
}

/// The progress message that opens the generation.
pub open spec fn start_message(total: nat, concurrency: nat) -> Seq<char> {
    "Generating translator comments for "@ + decimal(total) + (if total == 1 {
        " entry"@
    } else {
        " entries"@
    }) + " with "@ + decimal(concurrency) + " worker(s)..."@
}

/// The progress message that opens the generation.
pub fn start_annotation_message(total: usize, concurrency: usize) -> (r: String)
    ensures
        r@ == start_message(total as nat, concurrency as nat),
{
    let mut m = owned("Generating translator comments for ");
    push_str(&mut m, decimal_string(total).as_str());
    if total == 1 {
        push_str(&mut m, " entry");
    } else {
        push_str(&mut m, " entries");
    }
    push_str(&mut m, " with ");
    push_str(&mut m, decimal_string(concurrency).as_str());
    push_str(&mut m, " worker(s)...");
    m
}

/// The message when a worker takes an entry.
pub fn worker_started_message(worker_id: usize, key: &str, candidate_count: usize, top_candidate: Option<&str>) -> (r: String)
    ensures
        r@ == "Worker "@ + decimal(worker_id as nat) + " started key="@ + key@ + " shortlist="@
            + decimal(candidate_count as nat) + match top_candidate {
            Some(t) => " top="@ + t@,
            None => Seq::empty(),
        },
{
    let mut m = owned("Worker ");
    push_str(&mut m, decimal_string(worker_id).as_str());
    push_str(&mut m, " started key=");
    push_str(&mut m, key);
    push_str(&mut m, " shortlist=");
    push_str(&mut m, decimal_string(candidate_count).as_str());
    let ghost head = m@;
    if let Some(path) = top_candidate {
        push_str(&mut m, " top=");
        push_str(&mut m, path);
    }
    proof {
        match top_candidate {
            Some(t) => assert(m@ =~= head + (" top="@ + t@)),
            None => assert(m@ =~= head + Seq::<char>::empty()),
        }
    }
    m
}

/// How a finished request is reported: generated, skipped when no comment
/// came back, failed on an error.
pub open spec fn result_word(result: Result<Option<AnnotationResponse>, String>) -> Seq<char> {
    match result {
        Ok(Some(_)) => "generated"@,
        Ok(None) => "skipped"@,
        Err(_) => "failed"@,
    }
}

/// The message when a worker finishes an entry.
pub fn worker_finished_message(worker_id: usize, key: &str, result: &Result<Option<AnnotationResponse>, String>) -> (r: String)
    ensures
        r@ == "Worker "@ + decimal(worker_id as nat) + " finished key="@ + key@ + " result="@ + result_word(*result),
{
    let status = match result {
        Ok(Some(_)) => "generated",
        Ok(None) => "skipped",
        Err(_) => "failed",
    };
    let mut m = owned("Worker ");
    push_str(&mut m, decimal_string(worker_id).as_str());
    push_str(&mut m, " finished key=");
    push_str(&mut m, key);
    push_str(&mut m, " result=");
    push_str(&mut m, status);
    m
}

/// The progress line after each finished entry.
pub fn annotation_progress_message(completed: usize, total: usize, generated: usize, unmatched: usize) -> (r: String)
    ensures
        r@ == "Annotate progress: "@ + decimal(completed as nat) + "/"@ + decimal(total as nat)
            + " processed generated="@ + decimal(generated as nat) + " skipped="@ + decimal(
            unmatched as nat,
        ),
{
    let mut m = owned("Annotate progress: ");
    push_str(&mut m, decimal_string(completed).as_str());
    push_str(&mut m, "/");
    push_str(&mut m, decimal_string(total).as_str());
    push_str(&mut m, " processed generated=");
    push_str(&mut m, decimal_string(generated).as_str());
    push_str(&mut m, " skipped=");
    push_str(&mut m, decimal_string(unmatched).as_str());
    m
}

/// The catalogs to annotate: the command line's input, else the
/// configuration's input, else its inputs, each resolved against the
/// configuration's directory; none when nothing names one.
pub open spec fn config_inputs(
    cli: Option<Seq<char>>,
    cfg: Option<AnnotateConfig>,
    config_dir: Option<Seq<char>>,
) -> Seq<Seq<char>> {
    if cli is Some {
        seq![cli->0]
    } else if cfg is Some && cfg->0.input is Some {
        seq![config_relative(config_dir, cfg->0.input->0@)]
    } else if cfg is Some && cfg->0.inputs is Some {
        strings_view(cfg->0.inputs->0@).map_values(|p: Seq<char>| config_relative(config_dir, p))
    } else {
        Seq::empty()
    }
}

fn opt_str(o: &Option<String>) -> (r: Option<&str>)
    ensures
        match r {
            Some(s) => o matches Some(t) && s@ == t@,
            None => o is None,
        },
{
    match o {
        Some(s) => Some(s.as_str()),
        None => None,
    }
}

/// Resolves each path against the configuration's directory.
fn resolve_all(paths: &Vec<String>, config_dir: Option<&str>) -> (r: Vec<String>)
    ensures
        strings_view(r@) == strings_view(paths@).map_values(
            |p: Seq<char>| config_relative(
                match config_dir {
                    Some(d) => Some(d@),
                    None => None,
                },
                p,
            ),
        ),
{
    let ghost d = match config_dir {
        Some(d) => Some(d@),
        None => None,
    };
    let mut out: Vec<String> = Vec::new();
    let mut i: usize = 0;
    while i < paths.len()
        invariant
            i <= paths.len(),
            out.len() == i,
            d == match config_dir {
                Some(d) => Some(d@),
                None => None,
            },
            strings_view(out@) == strings_view(paths@).take(i as int).map_values(
                |p: Seq<char>| config_relative(d, p),
            ),
        decreases paths.len() - i,
    {
        let ghost o0 = out@;
        let x = resolve_config_relative_path(config_dir, paths[i].as_str());
        out.push(x);
        proof {
            assert(strings_view(out@) =~= strings_view(o0).push(out@[i as int]@));
            assert(strings_view(paths@).take(i + 1).map_values(|p: Seq<char>| config_relative(d, p)) =~= strings_view(
                paths@,
            ).take(i as int).map_values(|p: Seq<char>| config_relative(d, p)).push(
                config_relative(d, paths@[i as int]@),
            ));
        }
        i = i + 1;
    }
    proof {
        assert(strings_view(paths@).take(i as int) =~= strings_view(paths@));
    }
    out
}

/// The catalogs to annotate (see `config_inputs`).
pub fn resolve_config_inputs(
    opts: &AnnotateOptions,
    cfg: Option<&AnnotateConfig>,
    config_dir: Option<&str>,
) -> (r: Result<Vec<String>, String>)
    ensures
        r matches Ok(v) && strings_view(v@) == config_inputs(
            opt_view(opts.input),
            match cfg {
                Some(c) => Some(*c),
                None => None,
            },
            match config_dir {
                Some(d) => Some(d@),
                None => None,
            },
        ),
{
    if let Some(input) = &opts.input {
        let mut v: Vec<String> = Vec::new();
        v.push(input.clone());
        proof {
            assert(strings_view(v@) =~= seq![input@]);
        }
        return Ok(v);
    }
    if let Some(c) = cfg {
        if let Some(input) = &c.input {
            let mut v: Vec<String> = Vec::new();
            v.push(resolve_config_relative_path(config_dir, input.as_str()));
            proof {
                assert(strings_view(v@) =~= seq![v@[0]@]);
            }
            return Ok(v);
        }
        if let Some(inputs) = &c.inputs {
            return Ok(resolve_all(inputs, config_dir));
        }
    }
    let v: Vec<String> = Vec::new();
    proof {
        assert(strings_view(v@) =~= Seq::empty());
    }
    Ok(v)
}

/// The options of one annotate run once the command line, the configuration
/// and the environment have been combined.
#[derive(Debug, Clone)]
pub struct ResolvedAnnotateOptions {
    pub input: String,
    pub output: String,
    pub source_roots: Vec<String>,
    pub source_lang: Option<String>,
    pub provider: ProviderKind,
    pub model: String,
    pub concurrency: usize,
    pub dry_run: bool,
    pub check: bool,
}

/// A path made absolute against the working directory.
pub open spec fn abs_path(p: Seq<char>, cwd: Seq<char>) -> Seq<char> {
    if is_absolute_path(p) {
        p
    } else {
        joined_path(cwd, p)
    }
}

/// The catalog of an annotate run: the command line's, else the
/// configuration's, made absolute.
pub open spec fn annotate_input(
    opts: AnnotateOptions,
    cfg: Option<AnnotateConfig>,
    dir: Option<Seq<char>>,
    cwd: Seq<char>,
) -> Option<Seq<char>> {
    if opts.input is Some {
        Some(abs_path(opts.input->0@, cwd))
    } else if cfg is Some && cfg->0.input is Some {
        Some(abs_path(config_relative(dir, cfg->0.input->0@), cwd))
    } else {
        None
    }
}

/// The source roots of an annotate run: the command line's, else the
/// configuration's, made absolute.
pub open spec fn annotate_roots(
    opts: AnnotateOptions,
    cfg: Option<AnnotateConfig>,
    dir: Option<Seq<char>>,
    cwd: Seq<char>,
) -> Seq<Seq<char>> {
    if opts.source_roots.len() > 0 {
        strings_view(opts.source_roots@).map_values(|p: Seq<char>| abs_path(p, cwd))
    } else if cfg is Some && cfg->0.source_roots is Some {
        strings_view(cfg->0.source_roots->0@).map_values(
            |p: Seq<char>| abs_path(config_relative(dir, p), cwd),
        )
    } else {
        Seq::empty()
    }
}

/// The rest of the settings of an annotate run once its catalog is known
/// and its source roots exist: the output (the catalog itself by default),
/// the concurrency, the provider and model (from the command line, else the
/// shared `[ai]` section, else the provider sections and the environment),
/// and the source language; or the first error among them.
pub open spec fn annotate_settings(
    opts: AnnotateOptions,
    config: Option<LoadedConfig>,
    dir: Option<Seq<char>>,
    input: Seq<char>,
    cwd: Seq<char>,
    keys: KeyPresence,
    env_model: Option<Seq<char>>,
) -> Result<(Seq<char>, usize, ProviderKind, Seq<char>, Option<Seq<char>>), Seq<char>> {
    let cfg = match config {
        Some(c) => Some(c.data.annotate),
        None => None,
    };
    let data = match config {
        Some(c) => Some(c.data),
        None => None,
    };
    let output = if opts.output is Some {
        abs_path(opts.output->0@, cwd)
    } else if cfg is Some && cfg->0.output is Some {
        abs_path(config_relative(dir, cfg->0.output->0@), cwd)
    } else {
        input
    };
    let conc: usize = match opts.concurrency {
        Some(n) => n,
        None => match cfg {
            Some(c) => match c.concurrency {
                Some(n) => n,
                None => 4,
            },
            None => 4,
        },
    };
    if conc == 0 {
        Err("Concurrency must be greater than zero"@)
    } else {
        let shared_provider = match data {
            Some(d) => opt_view(d.ai.provider),
            None => None,
        };
        let shared_model = match data {
            Some(d) => opt_view(d.ai.model),
            None => None,
        };
        match provider_choice(opt_view(opts.provider), data, shared_provider, keys) {
            Err(e) => Err(e),
            Ok(p) => match model_choice(opt_view(opts.model), data, p, shared_model, env_model) {
                Err(e) => Err(e),
                Ok(m) => {
                    let source_lang = if opts.source_lang is Some {
                        opt_view(opts.source_lang)
                    } else {
                        match cfg {
                            Some(c) => opt_view(c.source_lang),
                            None => None,
                        }
                    };
                    if source_lang is Some && !valid_lang_code(source_lang->0) {
                        Err(crate::translate::lang_code_error(source_lang->0))
                    } else {
                        Ok((output, conc, p, m, source_lang))
                    }
                },
            },
        }
    }
}

/// Makes each path absolute against the working directory.
fn absolutize_all(paths: &Vec<String>, config_dir: Option<&str>, relative: bool, cwd: &str) -> (r: Vec<String>)
    ensures
        strings_view(r@) == strings_view(paths@).map_values(
            |p: Seq<char>|
                if relative {
                    abs_path(
                        config_relative(
                            match config_dir {
                                Some(d) => Some(d@),
                                None => None,
                            },
                            p,
                        ),
                        cwd@,
                    )
                } else {
                    abs_path(p, cwd@)
                },
        ),
{
    let ghost d = match config_dir {
        Some(d) => Some(d@),
        None => None,
    };
    let ghost f = |p: Seq<char>|
        if relative {
            abs_path(config_relative(d, p), cwd@)
        } else {
            abs_path(p, cwd@)
        };
    let mut out: Vec<String> = Vec::new();
    let mut i: usize = 0;
    while i < paths.len()
        invariant
            i <= paths.len(),
            out.len() == i,
            d == match config_dir {
                Some(d) => Some(d@),
                None => None,
            },
            f == (|p: Seq<char>|
                if relative {
                    abs_path(config_relative(d, p), cwd@)
                } else {
                    abs_path(p, cwd@)
                }),
            strings_view(out@) == strings_view(paths@).take(i as int).map_values(f),
        decreases paths.len() - i,
    {
        let ghost o0 = out@;
        let x = if relative {
            let rel = resolve_config_relative_path(config_dir, paths[i].as_str());
            absolutize_path(rel.as_str(), cwd)
        } else {
            absolutize_path(paths[i].as_str(), cwd)
        };
        proof {
            assert(x@ == f(paths@[i as int]@));
        }
        out.push(x);
        proof {
            assert(strings_view(out@) =~= strings_view(o0).push(out@[i as int]@));
            assert(strings_view(paths@).take(i + 1).map_values(f) =~= strings_view(paths@).take(i as int).map_values(f).push(
                f(paths@[i as int]@),
            ));
        }
        i = i + 1;
    }
    proof {
        assert(strings_view(paths@).take(i as int) =~= strings_view(paths@));
    }
    out
}

/// The outcome of checking the first `n` source roots, given for each root
/// whether the disk showed it as a directory: the first root that was not
/// gives the error.
pub open spec fn roots_check_upto(roots: Seq<Seq<char>>, probes: Seq<bool>, n: int) -> Result<(), Seq<char>>
    decreases n,
{
    if n <= 0 {
        Ok(())
    } else {
        match roots_check_upto(roots, probes, n - 1) {
            Err(e) => Err(e),
            Ok(_) => if probes[n - 1] {
                Ok(())
            } else {
                Err("Source root does not exist or is not a directory: "@ + roots[n - 1])
            },
        }
    }
}

/// The outcome of checking every source root against the probes.
pub open spec fn roots_check(roots: Seq<Seq<char>>, probes: Seq<bool>) -> Result<(), Seq<char>> {
    roots_check_upto(roots, probes, roots.len() as int)
}

/// Checks the source roots once the disk has answered, `is_dir[k]` for
/// `roots[k]`: `Ok` when every root is a directory, otherwise the error for
/// the first one that is not.
pub fn check_source_roots(roots: &Vec<String>, is_dir: &Vec<bool>) -> (r: Result<(), String>)
    requires
        roots.len() == is_dir.len(),
    ensures
        result_is(r, roots_check(strings_view(roots@), is_dir@)),
        r is Ok <==> forall|k: int| 0 <= k < is_dir.len() ==> #[trigger] is_dir@[k],
{
    let ghost rv = strings_view(roots@);
    let mut k: usize = 0;
    while k < roots.len()
        invariant
            k <= roots.len(),
            roots.len() == is_dir.len(),
            rv == strings_view(roots@),
            roots_check_upto(rv, is_dir@, k as int) == Ok::<(), Seq<char>>(()),
            forall|j: int| 0 <= j < k ==> #[trigger] is_dir@[j],
        decreases roots.len() - k,
    {
        if !is_dir[k] {
            let mut e = owned("Source root does not exist or is not a directory: ");
            push_str(&mut e, roots[k].as_str());
            proof {
                assert(rv[k as int] == roots@[k as int]@);
                lemma_roots_check_stays(rv, is_dir@, k as int + 1, rv.len() as int);
            }
            return Err(e);
        }
        k = k + 1;
    }
    Ok(())
}

/// Once a root fails, checking more roots keeps that error.
proof fn lemma_roots_check_stays(roots: Seq<Seq<char>>, probes: Seq<bool>, n: int, m: int)
    requires
        0 <= n <= m,
        roots_check_upto(roots, probes, n) is Err,
    ensures
        roots_check_upto(roots, probes, m) == roots_check_upto(roots, probes, n),
    decreases m - n,
{
    if n < m {
        lemma_roots_check_stays(roots, probes, n, m - 1);
    }
}

/// The outcome of resolving the options of one annotate run, given what the
/// disk said of each source root (`probes`): the catalog and the source
/// roots are required; then the first source root that is not a directory
/// gives the error; then the first error of `annotate_settings`; success
/// carries the catalog, the roots and the settings.
pub open spec fn annotate_resolution_probed(
    r: Result<ResolvedAnnotateOptions, String>,
    opts: AnnotateOptions,
    config: Option<LoadedConfig>,
    cwd: Seq<char>,
    keys: KeyPresence,
    env_model: Option<Seq<char>>,
    probes: Seq<bool>,
) -> bool {
    let cfg = match config {
        Some(c) => Some(c.data.annotate),
        None => None,
    };
    let dir = match config {
        Some(c) => parent_path(c.path@),
        None => None,
    };
    let input = annotate_input(opts, cfg, dir, cwd);
    let roots = annotate_roots(opts, cfg, dir, cwd);
    if input is None {
        r matches Err(e) && e@
            == "--input is required unless annotate.input or annotate.inputs is set in langcodec.toml"@
    } else if roots.len() == 0 {
        r matches Err(e) && e@
            == "--source-root is required unless annotate.source_roots is set in langcodec.toml"@
    } else if probes.len() != roots.len() {
        false
    } else if roots_check(roots, probes) is Err {
        r matches Err(e) && e@ == roots_check(roots, probes)->Err_0
    } else {
        let settings = annotate_settings(opts, config, dir, input->0, cwd, keys, env_model);
        match r {
            Ok(o) => settings matches Ok(t) && {
                &&& o.input@ == input->0
                &&& strings_view(o.source_roots@) == roots
                &&& o.output@ == t.0
                &&& o.concurrency == t.1
                &&& o.provider == t.2
                &&& o.model@ == t.3
                &&& opt_view(o.source_lang) == t.4
                &&& o.dry_run == opts.dry_run
                &&& o.check == opts.check
            },
            Err(e) => settings matches Err(x) && e@ == x,
        }
    }
}

/// The outcome of resolving the options of one annotate run for some answer
/// of the disk on the source roots (see `annotate_resolution_probed`).
pub open spec fn annotate_resolution(
    r: Result<ResolvedAnnotateOptions, String>,
    opts: AnnotateOptions,
    config: Option<LoadedConfig>,
    cwd: Seq<char>,
    keys: KeyPresence,
    env_model: Option<Seq<char>>,
) -> bool {
    exists|p: Seq<bool>| #[trigger] annotate_resolution_probed(r, opts, config, cwd, keys, env_model, p)
}

/// `e` is the error for the first source root that the disk did not show
/// as a directory, for some answer of the disk.
pub open spec fn bad_root_error(e: Seq<char>, roots: Seq<Seq<char>>) -> bool {
    exists|p: Seq<bool>|
        p.len() == roots.len() && #[trigger] roots_check(roots, p) == Err::<(), Seq<char>>(e)
}

/// Combines the command line, the configuration and the environment into
/// the options of one annotate run: the catalog and the source roots are
/// required, every source root must be a directory (as the disk says when
/// asked), and the rest follows `annotate_settings`. `cwd` is the working
/// directory, `keys` which API keys are set, `env_model` what
/// `MENTRA_MODEL` holds.
pub fn resolve_annotate_options(
    opts: &AnnotateOptions,
    config: Option<&LoadedConfig>,
    cwd: &str,
    keys: &KeyPresence,
    env_model: Option<String>,
) -> (r: Result<ResolvedAnnotateOptions, String>)
    ensures
        annotate_resolution(
            r,
            *opts,
            match config {
                Some(c) => Some(*c),
                None => None,
            },
            cwd@,
            *keys,
            opt_view(env_model),
        ),
{
    let cfg: Option<&AnnotateConfig> = match config {
        Some(c) => Some(&c.data.annotate),
        None => None,
    };
    let dir_owned: Option<String> = match config {
        Some(c) => c.config_dir(),
        None => None,
    };
    let config_dir: Option<&str> = opt_str(&dir_owned);
    let ghost cfgv = match config {
        Some(c) => Some(c.data.annotate),
        None => None,
    };
    let ghost dirv = match config {
        Some(c) => parent_path(c.path@),
        None => None,
    };
    assert(match config_dir {
        Some(d) => Some(d@),
        None => None,
    } == dirv);
    let input = if let Some(input) = &opts.input {
        absolutize_path(input.as_str(), cwd)
    } else if let Some(input) = match cfg {
        Some(c) => opt_str(&c.input),
        None => None,
    } {
        let rel = resolve_config_relative_path(config_dir, input);
        absolutize_path(rel.as_str(), cwd)
    } else {
        let e = owned("--input is required unless annotate.input or annotate.inputs is set in langcodec.toml");
        proof {
            assert(annotate_resolution_probed(
                Err(e),
                *opts,
                match config {
                    Some(c) => Some(*c),
                    None => None,
                },
                cwd@,
                *keys,
                opt_view(env_model),
                Seq::<bool>::empty(),
            ));
        }
        return Err(e);
    };
    let source_roots: Vec<String> = if opts.source_roots.len() > 0 {
        absolutize_all(&opts.source_roots, config_dir, false, cwd)
    } else {
        match cfg {
            Some(c) => match &c.source_roots {
                Some(roots) => absolutize_all(roots, config_dir, true, cwd),
                None => Vec::new(),
            },
            None => Vec::new(),
        }
    };
    proof {
        if opts.source_roots.len() == 0 && !(cfg is Some && cfg->0.source_roots is Some) {
            assert(strings_view(source_roots@) =~= Seq::empty());
        }
        assert(annotate_input(*opts, cfgv, dirv, cwd@) == Some(input@));
        assert(strings_view(source_roots@) =~= annotate_roots(*opts, cfgv, dirv, cwd@));
    }
    if source_roots.len() == 0 {
        let e = owned("--source-root is required unless annotate.source_roots is set in langcodec.toml");
        proof {
            assert(annotate_resolution_probed(
                Err(e),
                *opts,
                match config {
                    Some(c) => Some(*c),
                    None => None,
                },
                cwd@,
                *keys,
                opt_view(env_model),
                Seq::<bool>::empty(),
            ));
        }
        return Err(e);
    }
    let mut probes: Vec<bool> = Vec::new();
    let mut k: usize = 0;
    while k < source_roots.len()
        invariant
            k <= source_roots.len(),
            probes.len() == k,
        decreases source_roots.len() - k,
    {
        probes.push(path_is_dir(source_roots[k].as_str()));
        k = k + 1;
    }
    let ghost pv = probes@;
    if let Err(e) = check_source_roots(&source_roots, &probes) {
        proof {
            assert(annotate_resolution_probed(
                Err(e),
                *opts,
                match config {
                    Some(c) => Some(*c),
                    None => None,
                },
                cwd@,
                *keys,
                opt_view(env_model),
                pv,
            ));
        }
        return Err(e);
    }
    let r = finish_annotate_options(opts, config, cwd, keys, env_model, input, source_roots, Ghost(pv));
    proof {
        assert(annotate_resolution_probed(
            r,
            *opts,
            match config {
                Some(c) => Some(*c),
                None => None,
            },
            cwd@,
            *keys,
            opt_view(env_model),
            pv,
        ));
    }
    r
}

/// The settings of an annotate run once its catalog and source roots are
/// known and every root passed its probe.
fn finish_annotate_options(
    opts: &AnnotateOptions,
    config: Option<&LoadedConfig>,
    cwd: &str,
    keys: &KeyPresence,
    env_model: Option<String>,
    input: String,
    source_roots: Vec<String>,
    Ghost(probes): Ghost<Seq<bool>>,
) -> (r: Result<ResolvedAnnotateOptions, String>)
    requires
        ({
            let cfg = match config {
                Some(c) => Some(c.data.annotate),
                None => None,
            };
            let dir = match config {
                Some(c) => parent_path(c.path@),
                None => None,
            };
            &&& annotate_input(*opts, cfg, dir, cwd@) == Some(input@)
            &&& strings_view(source_roots@) == annotate_roots(*opts, cfg, dir, cwd@)
            &&& source_roots.len() > 0
            &&& probes.len() == source_roots.len()
            &&& roots_check(strings_view(source_roots@), probes) is Ok
        }),
    ensures
        annotate_resolution_probed(
            r,
            *opts,
            match config {
                Some(c) => Some(*c),
                None => None,
            },
            cwd@,
            *keys,
            opt_view(env_model),
            probes,
        ),
{
    let cfg: Option<&AnnotateConfig> = match config {
        Some(c) => Some(&c.data.annotate),
        None => None,
    };
    let dir_owned: Option<String> = match config {
        Some(c) => c.config_dir(),
        None => None,
    };
    let config_dir: Option<&str> = opt_str(&dir_owned);
    let output = if let Some(output) = &opts.output {
        absolutize_path(output.as_str(), cwd)
    } else if let Some(output) = match cfg {
        Some(c) => opt_str(&c.output),
        None => None,
    } {
        let rel = resolve_config_relative_path(config_dir, output);
        absolutize_path(rel.as_str(), cwd)
    } else {
        input.clone()
    };
    let concurrency: usize = match opts.concurrency {
        Some(n) => n,
        None => match cfg {
            Some(c) => match c.concurrency {
                Some(n) => n,
                None => 4,
            },
            None => 4,
        },
    };
    if concurrency == 0 {
        return Err(owned("Concurrency must be greater than zero"));
    }
    let data: Option<&CliConfig> = match config {
        Some(c) => Some(&c.data),
        None => None,
    };
    let shared_provider: Option<&str> = match data {
        Some(d) => d.shared_provider(),
        None => None,
    };
    let shared_model: Option<&str> = match data {
        Some(d) => d.shared_model(),
        None => None,
    };
    let provider = resolve_provider(opt_str(&opts.provider), data, shared_provider, keys)?;
    let model = resolve_model(opt_str(&opts.model), data, &provider, shared_model, env_model)?;
    let source_lang: Option<String> = match &opts.source_lang {
        Some(l) => Some(l.clone()),
        None => match cfg {
            Some(c) => crate::model::dup_opt(&c.source_lang),
            None => None,
        },
    };
    if let Some(lang) = &source_lang {
        validate_language_code(lang.as_str())?;
    }
    Ok(
        ResolvedAnnotateOptions {
            input,
            output,
            source_roots,
            source_lang,
            provider,
            model,
            concurrency,
            dry_run: opts.dry_run,
            check: opts.check,
        },
    )
}

pub(crate) fn copy_strings(v: &Vec<String>) -> (r: Vec<String>)
    ensures
        strings_view(r@) == strings_view(v@),
{
    let mut out: Vec<String> = Vec::new();
    let mut i: usize = 0;
    while i < v.len()
        invariant
            i <= v.len(),
            strings_view(out@) == strings_view(v@).take(i as int),
        decreases v.len() - i,
    {
        let ghost o0 = out@;
        out.push(v[i].clone());
        proof {
            assert(strings_view(out@) =~= strings_view(o0).push(v@[i as int]@));
            assert(strings_view(v@).take(i + 1) =~= strings_view(v@).take(i as int).push(v@[i as int]@));
        }
        i = i + 1;
    }
    proof {
        assert(strings_view(v@).take(i as int) =~= strings_view(v@));
    }
    out
}

/// The output shared by all runs: the command line's, else the
/// configuration's resolved against its directory.
pub open spec fn shared_output(opts: AnnotateOptions, cfg: Option<AnnotateConfig>, dir: Option<Seq<char>>) -> Option<
    Seq<char>,
> {
    if opts.output is Some {
        Some(opts.output->0@)
    } else if cfg is Some && cfg->0.output is Some {
        Some(config_relative(dir, cfg->0.output->0@))
    } else {
        None
    }
}

/// The settings of an annotate run other than its output do not depend on
/// the catalog or the output named: options that agree on provider, model,
/// concurrency and source language succeed and fail alike.
proof fn lemma_settings_independent(
    o1: AnnotateOptions,
    o2: AnnotateOptions,
    config: Option<LoadedConfig>,
    dir: Option<Seq<char>>,
    in1: Seq<char>,
    in2: Seq<char>,
    cwd: Seq<char>,
    keys: KeyPresence,
    env_model: Option<Seq<char>>,
)
    requires
        o1.concurrency == o2.concurrency,
        opt_view(o1.provider) == opt_view(o2.provider),
        opt_view(o1.model) == opt_view(o2.model),
        opt_view(o1.source_lang) == opt_view(o2.source_lang),
    ensures
        ({
            let a = annotate_settings(o1, config, dir, in1, cwd, keys, env_model);
            let b = annotate_settings(o2, config, dir, in2, cwd, keys, env_model);
            &&& a is Ok <==> b is Ok
            &&& a matches Err(x) ==> b == Err::<(Seq<char>, usize, ProviderKind, Seq<char>, Option<Seq<char>>), Seq<char>>(x)
            &&& a matches Ok(t) ==> {
                &&& b->Ok_0.1 == t.1
                &&& b->Ok_0.2 == t.2
                &&& b->Ok_0.3 == t.3
                &&& b->Ok_0.4 == t.4
            }
        }),
{
}

/// The annotate runs the command asks for, one per catalog (see
/// `config_inputs`), each resolved by `resolve_annotate_options` with that
/// catalog and the shared output. Naming both one input and several in the
/// configuration, naming no catalog, and a shared output for several
/// catalogs are errors.
pub fn expand_annotate_invocations(
    opts: &AnnotateOptions,
    config: Option<&LoadedConfig>,
    cwd: &str,
    keys: &KeyPresence,
    env_model: Option<String>,
) -> (r: Result<Vec<ResolvedAnnotateOptions>, String>)
    ensures
        ({
            let cfg = match config {
                Some(c) => Some(c.data.annotate),
                None => None,
            };
            let dir = match config {
                Some(c) => parent_path(c.path@),
                None => None,
            };
            let inputs = config_inputs(opt_view(opts.input), cfg, dir);
            let output = shared_output(*opts, cfg, dir);
            if cfg is Some && cfg->0.input is Some && cfg->0.inputs is Some {
                r matches Err(e) && e@ == "Config annotate.input and annotate.inputs cannot both be set"@
            } else if inputs.len() == 0 {
                r matches Err(e) && e@
                    == "--input is required unless annotate.input or annotate.inputs is set in langcodec.toml"@
            } else if inputs.len() > 1 && output is Some {
                r matches Err(e) && e@
                    == "annotate.inputs cannot be combined with annotate.output or CLI --output; use in-place annotation for multiple inputs"@
            } else {
                let lc = match config {
                    Some(c) => Some(*c),
                    None => None,
                };
                let roots = annotate_roots(*opts, cfg, dir, cwd@);
                let settings = annotate_settings(*opts, lc, dir, abs_path(inputs[0], cwd@), cwd@, *keys, opt_view(env_model));
                &&& r matches Ok(v) ==> v.len() == inputs.len() && settings is Ok && forall|i: int|
                    0 <= i < v.len() ==> {
                        &&& (#[trigger] v@[i]).input@ == abs_path(inputs[i], cwd@)
                        &&& v@[i].output@ == match output {
                            Some(o) => abs_path(o, cwd@),
                            None => v@[i].input@,
                        }
                        &&& strings_view(v@[i].source_roots@) == roots
                        &&& v@[i].concurrency == settings->Ok_0.1
                        &&& v@[i].provider == settings->Ok_0.2
                        &&& v@[i].model@ == settings->Ok_0.3
                        &&& opt_view(v@[i].source_lang) == settings->Ok_0.4
                        &&& v@[i].dry_run == opts.dry_run
                        &&& v@[i].check == opts.check
                    }
                &&& r matches Err(e) ==> {
                    ||| (roots.len() == 0 && e@
                        == "--source-root is required unless annotate.source_roots is set in langcodec.toml"@)
                    ||| (settings matches Err(x) && e@ == x)
                    ||| bad_root_error(e@, roots)
                }
                &&& (roots.len() > 0 && settings is Ok) ==> (r is Ok || bad_root_error(r->Err_0@, roots))
            }
        }),
{
    let cfg: Option<&AnnotateConfig> = match config {
        Some(c) => Some(&c.data.annotate),
        None => None,
    };
    let dir_owned: Option<String> = match config {
        Some(c) => c.config_dir(),
        None => None,
    };
    let config_dir: Option<&str> = opt_str(&dir_owned);
    if let Some(c) = cfg {
        if c.input.is_some() && c.inputs.is_some() {
            return Err(owned("Config annotate.input and annotate.inputs cannot both be set"));
        }
    }
    let inputs = match resolve_config_inputs(opts, cfg, config_dir) {
        Ok(v) => v,
        Err(e) => {
            return Err(e);
        },
    };
    if inputs.len() == 0 {
        return Err(owned("--input is required unless annotate.input or annotate.inputs is set in langcodec.toml"));
    }
    let output: Option<String> = match &opts.output {
        Some(o) => Some(o.clone()),
        None => match cfg {
            Some(c) => match &c.output {
                Some(o) => Some(resolve_config_relative_path(config_dir, o.as_str())),
                None => None,
            },
            None => None,
        },
    };
    if inputs.len() > 1 && output.is_some() {
        return Err(
            owned(
                "annotate.inputs cannot be combined with annotate.output or CLI --output; use in-place annotation for multiple inputs",
            ),
        );
    }
    let ghost cfgv = match config {
        Some(c) => Some(c.data.annotate),
        None => None,
    };
    let ghost dirv = match config {
        Some(c) => parent_path(c.path@),
        None => None,
    };
    let ghost iv = strings_view(inputs@);
    proof {
        assert(shared_output(*opts, cfgv, dirv) == opt_view(output));
    }
    let ghost lcv = match config {
        Some(c) => Some(*c),
        None => None,
    };
    let ghost settings0 = annotate_settings(*opts, lcv, dirv, abs_path(iv[0], cwd@), cwd@, *keys, opt_view(env_model));
    let mut runs: Vec<ResolvedAnnotateOptions> = Vec::new();
    let mut i: usize = 0;
    while i < inputs.len()
        invariant
            i <= inputs.len(),
            runs.len() == i,
            iv == strings_view(inputs@),
            forall|k: int|
                0 <= k < runs.len() ==> {
                    &&& (#[trigger] runs@[k]).input@ == abs_path(iv[k], cwd@)
                    &&& runs@[k].output@ == match opt_view(output) {
                        Some(o) => abs_path(o, cwd@),
                        None => runs@[k].input@,
                    }
                    &&& strings_view(runs@[k].source_roots@) == annotate_roots(*opts, cfgv, dirv, cwd@)
                    &&& runs@[k].dry_run == opts.dry_run
                    &&& runs@[k].check == opts.check
                },
            cfgv == match config {
                Some(c) => Some(c.data.annotate),
                None => None,
            },
            dirv == match config {
                Some(c) => parent_path(c.path@),
                None => None,
            },
            shared_output(*opts, cfgv, dirv) == opt_view(output),
            iv == config_inputs(opt_view(opts.input), cfgv, dirv),
            lcv == match config {
                Some(c) => Some(*c),
                None => None,
            },
            settings0 == annotate_settings(*opts, lcv, dirv, abs_path(iv[0], cwd@), cwd@, *keys, opt_view(env_model)),
            runs.len() > 0 ==> settings0 is Ok,
            forall|k: int|
                0 <= k < runs.len() ==> {
                    &&& (#[trigger] runs@[k]).concurrency == settings0->Ok_0.1
                    &&& runs@[k].provider == settings0->Ok_0.2
                    &&& runs@[k].model@ == settings0->Ok_0.3
                    &&& opt_view(runs@[k].source_lang) == settings0->Ok_0.4
                },
            iv.len() > 0,
            !(cfgv is Some && cfgv->0.input is Some && cfgv->0.inputs is Some),
            !(iv.len() > 1 && opt_view(output) is Some),
        decreases inputs.len() - i,
    {
        let run_opts = AnnotateOptions {
            input: Some(inputs[i].clone()),
            source_roots: copy_strings(&opts.source_roots),
            output: crate::model::dup_opt(&output),
            source_lang: crate::model::dup_opt(&opts.source_lang),
            provider: crate::model::dup_opt(&opts.provider),
            model: crate::model::dup_opt(&opts.model),
            concurrency: opts.concurrency,
            config: crate::model::dup_opt(&opts.config),
            dry_run: opts.dry_run,
            check: opts.check,
        };
        let env_copy = crate::model::dup_opt(&env_model);
        let ghost ev = opt_view(env_copy);
        let resolved = match resolve_annotate_options(&run_opts, config, cwd, keys, env_copy) {
            Ok(x) => x,
            Err(e) => {
                proof {
                    assert(annotate_input(run_opts, cfgv, dirv, cwd@) == Some(abs_path(iv[i as int], cwd@)));
                    assert(annotate_roots(run_opts, cfgv, dirv, cwd@) =~= annotate_roots(*opts, cfgv, dirv, cwd@));
                    lemma_settings_independent(
                        run_opts,
                        *opts,
                        lcv,
                        dirv,
                        abs_path(iv[i as int], cwd@),
                        abs_path(iv[0], cwd@),
                        cwd@,
                        *keys,
                        ev,
                    );
                    match config {
                        Some(c) => {
                            assert(lcv == Some(*c));
                        },
                        None => {},
                    }
                }
                return Err(e);
            },
        };
        proof {
            lemma_settings_independent(
                run_opts,
                *opts,
                lcv,
                dirv,
                abs_path(iv[i as int], cwd@),
                abs_path(iv[0], cwd@),
                cwd@,
                *keys,
                ev,
            );
        }
        proof {
            let lc0 = match config {
                Some(c) => Some(*c),
                None => None,
            };
            let settings = annotate_settings(run_opts, lc0, dirv, abs_path(iv[i as int], cwd@), cwd@, *keys, ev);
            assert(settings is Ok);
            let t = settings->Ok_0;
            assert(resolved.output@ == t.0);
            assert(opt_view(output) is None ==> (opts.output is None && !(cfgv is Some && cfgv->0.output is Some)));
            assert(annotate_input(run_opts, cfgv, dirv, cwd@) == Some(abs_path(iv[i as int], cwd@)));
            assert(annotate_roots(run_opts, cfgv, dirv, cwd@) =~= annotate_roots(*opts, cfgv, dirv, cwd@));
            let lc = match config {
                Some(c) => Some(*c),
                None => None,
            };
            match config {
                Some(c) => {
                    assert(lc == Some(*c));
                },
                None => {},
            }
            assert(match lc {
                Some(c) => Some(c.data.annotate),
                None => None,
            } == cfgv);
            assert(match lc {
                Some(c) => parent_path(c.path@),
                None => None,
            } == dirv);
        }
        runs.push(resolved);
        i = i + 1;
    }
    Ok(runs)
}

/// Comments written by people are never replaced: writing the results
/// leaves such an entry exactly as it was, whatever came back.
pub proof fn law_manual_comments_are_kept(
    item: CatalogItem,
    k: Seq<char>,
    results: Seq<(String, Option<AnnotationResponse>)>,
)
    requires
        manual_comment(item),
    ensures
        annotated_view(item, k, results) == item_view(item),
        !item_changes(item, k, results),
        !item_unmatched(item, k, results),
{
}

/// Where the walk up from `next` towards an ancestor of `path` ends: `next`
/// itself when `path` lies under it, else the same from its parent; `None`
/// once no parent is left.
pub open spec fn climb_to_ancestor(path: Seq<char>, next: Seq<char>) -> Option<Seq<char>>
    decreases next.len(),
{
    if path_has_prefix(path, next) {
        Some(next)
    } else {
        match parent_path(next) {
            Some(q) => if q.len() < next.len() {
                climb_to_ancestor(path, q)
            } else {
                None
            },
            None => None,
        }
    }
}

/// The common ancestor of `paths[..n]`: the first path, climbed up until
/// each later path lies under it; `None` for no paths or when a climb runs
/// out of parents.
pub open spec fn common_ancestor_upto(paths: Seq<Seq<char>>, n: nat) -> Option<Seq<char>>
    decreases n,
{
    if n == 0 {
        None
    } else if n == 1 {
        Some(paths[0])
    } else {
        match common_ancestor_upto(paths, (n - 1) as nat) {
            Some(c) => climb_to_ancestor(paths[n - 1], c),
            None => None,
        }
    }
}

/// The views of the paths that are present, in order.
pub open spec fn present_paths(s: Seq<Option<String>>) -> Seq<Seq<char>>
    decreases s.len(),
{
    if s.len() == 0 {
        Seq::empty()
    } else {
        match s.last() {
            Some(p) => present_paths(s.drop_last()).push(p@),
            None => present_paths(s.drop_last()),
        }
    }
}

/// Climbs from `start` until `path` lies under it (see `climb_to_ancestor`).
fn climb(path: &str, start: String) -> (r: Option<String>)
    ensures
        opt_view(r) == climb_to_ancestor(path@, start@),
    decreases start@.len(),
{
    if path_starts_with(path, start.as_str()) {
        Some(start)
    } else {
        match path_parent(start.as_str()) {
            Some(q) => climb(path, q),
            None => None,
        }
    }
}

/// The deepest directory that all `paths` lie under, as found by climbing
/// up from the first (see `common_ancestor_upto`).
pub fn common_ancestor(paths: &Vec<String>) -> (r: Option<String>)
    ensures
        opt_view(r) == common_ancestor_upto(strings_view(paths@), paths.len() as nat),
{
    if paths.len() == 0 {
        return None;
    }
    let mut current = paths[0].clone();
    let mut i: usize = 1;
    while i < paths.len()
        invariant
            1 <= i <= paths.len(),
            common_ancestor_upto(strings_view(paths@), i as nat) == Some(current@),
        decreases paths.len() - i,
    {
        match climb(paths[i].as_str(), current) {
            Some(next) => {
                current = next;
            },
            None => {
                proof {
                    let w = strings_view(paths@);
                    assert(w[i as int] == paths@[i as int]@);
                    lemma_ancestor_stays_none(w, (i + 1) as nat, paths.len() as nat);
                }
                return None;
            },
        }
        proof {
            assert(strings_view(paths@)[i as int] == paths@[i as int]@);
        }
        i = i + 1;
    }
    Some(current)
}

proof fn lemma_ancestor_stays_none(paths: Seq<Seq<char>>, m: nat, n: nat)
    requires
        1 <= m <= n,
        common_ancestor_upto(paths, m) is None,
    ensures
        common_ancestor_upto(paths, n) is None,
    decreases n - m,
{
    if m < n {
        lemma_ancestor_stays_none(paths, m + 1, n);
    }
}

/// The directory that stands for `path` when the workspace root is looked
/// for: its canonical form (or the path itself when that fails and it is
/// absolute), taken as it is when it is a directory now and by its parent
/// otherwise. A relative path that cannot be made canonical gives none.
pub fn root_candidate(path: &str, canonical: Option<String>) -> (r: Option<String>)
    ensures
        match (match canonical {
            Some(c) => Some(c@),
            None => if is_absolute_path(path@) {
                Some(path@)
            } else {
                None
            },
        }) {
            Some(a) => opt_view(r) == Some(a) || opt_view(r) == parent_path(a),
            None => r is None,
        },
{
    let absolute = match canonical {
        Some(c) => c,
        None => {
            if crate::paths::is_absolute(path) {
                owned(path)
            } else {
                return None;
            }
        },
    };
    if path_is_dir(absolute.as_str()) {
        Some(absolute)
    } else {
        path_parent(absolute.as_str())
    }
}

/// The workspace root: the common ancestor of the candidates that are
/// present, or `fallback` when there is none.
pub fn workspace_root_of(candidates: &Vec<Option<String>>, fallback: &str) -> (r: String)
    ensures
        r@ == match common_ancestor_upto(present_paths(candidates@), present_paths(candidates@).len()) {
            Some(a) => a,
            None => fallback@,
        },
{
    let mut present: Vec<String> = Vec::new();
    let mut i: usize = 0;
    while i < candidates.len()
        invariant
            i <= candidates.len(),
            strings_view(present@) == present_paths(candidates@.take(i as int)),
        decreases candidates.len() - i,
    {
        let ghost before = present@;
        proof {
            assert(candidates@.take(i as int + 1).drop_last() == candidates@.take(i as int));
        }
        match &candidates[i] {
            Some(p) => {
                present.push(p.clone());
                proof {
                    assert(strings_view(present@) == strings_view(before).push(p@));
                }
            },
            None => {},
        }
        i = i + 1;
    }
    proof {
        assert(candidates@.take(candidates.len() as int) == candidates@);
    }
    match common_ancestor(&present) {
        Some(a) => a,
        None => owned(fallback),
    }
}

} // verus!
