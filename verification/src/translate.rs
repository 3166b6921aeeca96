//! The translate command: which options apply, which entries are sent for
//! translation and why the others are skipped, the prompt a request carries,
//! how a model's reply is read, and how the translations are written into
//! the target resources.
use crate::ai::{provider_named, same_outcome, unsupported_provider, KeyPresence, ProviderKind, present_providers, available_providers};
use crate::config::{config_relative, or_else, output_table, resolve_config_relative_path, LoadedConfig, TranslateConfig, TranslateOutputScope};
use crate::lang::{lang_match, lang_matches, valid_lang_code, validate_language_code};
use crate::model::{
    opt_view, resources_view, Entry, EntryStatus, EntryView, Metadata, Resource, ResourceView,
    Translation, TranslationView,
};
use crate::text::{
    comma_tokens, list_tokens, owned, push_str, replace_char, str_eq, strings_view, trim, trim_seq,
};
use crate::paths::{extension_of, path_extension};
use crate::sync::{pick_resource, pick_language_resource};
use crate::text::{decimal, decimal_string, ends_with, ends_with_seq, lower_seq, starts_with, starts_with_seq, to_ascii_lowercase, trim_start, trim_start_seq, chars_of, string_of_range};
use crate::view::{parse_statuses, status_token_norm, statuses_from_tokens};
use vstd::prelude::*;

verus! {

/// What the translate command was asked to do.
#[derive(Debug, Clone)]
pub struct TranslateOptions {
    pub source: String,
    pub target: Option<String>,
    pub output: Option<String>,
    pub source_lang: Option<String>,
    pub target_lang: Option<String>,
    pub status: Option<String>,
    pub provider: Option<String>,
    pub model: Option<String>,
    pub concurrency: Option<usize>,
    pub config: Option<String>,
    pub dry_run: bool,
    pub strict: bool,
}

/// What a translate run achieved.
#[derive(Debug, Clone)]
pub struct TranslateOutcome {
    pub translated: usize,
    pub skipped: usize,
    pub failed: usize,
    pub output_path: Option<String>,
}

/// The options of a translate run once the command line, the configuration
/// and the environment have been combined.
#[derive(Debug, Clone)]
pub struct ResolvedOptions {
    pub source: String,
    pub target: Option<String>,
    pub output: Option<String>,
    pub source_lang: Option<String>,
    pub target_lang: String,
    pub statuses: Vec<EntryStatus>,
    pub provider: ProviderKind,
    pub model: String,
    pub concurrency: usize,
    pub dry_run: bool,
    pub strict: bool,
}

/// The error that checking a language code gives.
pub open spec fn lang_code_error(l: Seq<char>) -> Seq<char> {
    if l.len() == 0 {
        "Language code cannot be empty"@
    } else {
        "Invalid language code format: "@ + l + ". Expected format: 'en' or 'en-US'"@
    }
}

/// The statuses to translate: those listed on the command line, else those
/// of the configuration, else `new` and `stale`; each once, in order of
/// first mention. The first name that is no status is an error.
pub open spec fn translate_statuses(cli: Option<Seq<char>>, cfg: Option<Seq<Seq<char>>>) -> Result<
    Seq<EntryStatus>,
    Seq<char>,
> {
    let raw = match cli {
        Some(s) => list_tokens(s),
        None => match cfg {
            Some(v) => v,
            None => seq!["new"@, "stale"@],
        },
    };
    match parse_statuses(raw) {
        Ok(v) => Ok(v),
        Err(tok) => Err(
            "Invalid translate status '"@ + tok + "': Unknown entry status: "@ + status_token_norm(
                tok,
            ),
        ),
    }
}

/// Reads the statuses to translate (see `translate_statuses`).
pub fn parse_status_filter(cli: Option<&str>, cfg: Option<&Vec<String>>) -> (r: Result<
    Vec<EntryStatus>,
    String,
>)
    ensures
        match translate_statuses(
            match cli {
                Some(s) => Some(s@),
                None => None,
            },
            match cfg {
                Some(v) => Some(strings_view(v@)),
                None => None,
            },
        ) {
            Ok(v) => r matches Ok(x) && x@ == v,
            Err(e) => r matches Err(x) && x@ == e,
        },
{
    let raw: Vec<String> = match cli {
        Some(s) => comma_tokens(s),
        None => match cfg {
            Some(v) => {
                let mut c: Vec<String> = Vec::new();
                let mut i: usize = 0;
                while i < v.len()
                    invariant
                        i <= v.len(),
                        strings_view(c@) == strings_view(v@).take(i as int),
                    decreases v.len() - i,
                {
                    let ghost c0 = c@;
                    c.push(v[i].clone());
                    proof {
                        assert(strings_view(c@) =~= strings_view(c0).push(v@[i as int]@));
                        assert(strings_view(v@).take(i + 1) =~= strings_view(v@).take(i as int).push(
                            v@[i as int]@,
                        ));
                    }
                    i = i + 1;
                }
                proof {
                    assert(strings_view(v@).take(i as int) =~= strings_view(v@));
                }
                c
            },
            None => {
                let mut c: Vec<String> = Vec::new();
                c.push(owned("new"));
                c.push(owned("stale"));
                proof {
                    assert(strings_view(c@) =~= seq!["new"@, "stale"@]);
                }
                c
            },
        },
    };
    match statuses_from_tokens(&raw) {
        Ok(v) => Ok(v),
        Err(i) => {
            let a = replace_char(raw[i].as_str(), '-', '_');
            let b = replace_char(a.as_str(), ' ', '_');
            let mut e = owned("Invalid translate status '");
            push_str(&mut e, raw[i].as_str());
            push_str(&mut e, "': Unknown entry status: ");
            push_str(&mut e, b.as_str());
            Err(e)
        },
    }
}

/// The provider for a translate run: the command line's, else the
/// configuration's, else the one provider whose API key is present.
pub open spec fn translate_provider_choice(
    cli: Option<Seq<char>>,
    cfg: Option<Seq<char>>,
    keys: KeyPresence,
) -> Result<ProviderKind, Seq<char>> {
    let from_name = |s: Seq<char>|
        match provider_named(s) {
            Some(k) => Ok(k),
            None => Err(unsupported_provider(s)),
        };
    if cli is Some {
        from_name(cli->0)
    } else if cfg is Some {
        from_name(cfg->0)
    } else if present_providers(keys).len() == 1 {
        Ok(present_providers(keys)[0])
    } else if present_providers(keys).len() == 0 {
        Err(
            "--provider is required (or set translate.provider in langcodec.toml or configure exactly one provider API key)"@,
        )
    } else {
        Err(
            "Multiple provider API keys are configured; specify --provider or translate.provider in langcodec.toml"@,
        )
    }
}

/// Chooses the provider of a translate run (see
/// `translate_provider_choice`); `keys` says which API keys the environment
/// holds.
pub fn resolve_provider(cli: Option<&str>, cfg: Option<&str>, keys: &KeyPresence) -> (r: Result<
    ProviderKind,
    String,
>)
    ensures
        same_outcome(
            r,
            translate_provider_choice(
                match cli {
                    Some(s) => Some(s@),
                    None => None,
                },
                match cfg {
                    Some(s) => Some(s@),
                    None => None,
                },
                *keys,
            ),
        ),
{
    if let Some(value) = cli {
        return ProviderKind::parse(value);
    }
    if let Some(value) = cfg {
        return ProviderKind::parse(value);
    }
    let mut available = available_providers(keys);
    if available.len() == 1 {
        Ok(available.remove(0))
    } else if available.len() == 0 {
        Err(
            owned(
                "--provider is required (or set translate.provider in langcodec.toml or configure exactly one provider API key)",
            ),
        )
    } else {
        Err(
            owned(
                "Multiple provider API keys are configured; specify --provider or translate.provider in langcodec.toml",
            ),
        )
    }
}

/// The target language that the configuration names: the first of its
/// target languages.
pub open spec fn cfg_target_lang(c: TranslateConfig) -> Option<Seq<char>> {
    let langs = match output_table(c) {
        Some(t) => match t.lang {
            Some(v) => Some(v),
            None => c.target_lang,
        },
        None => c.target_lang,
    };
    match langs {
        Some(v) => if v.len() > 0 {
            Some(v@[0]@)
        } else {
            None
        },
        None => None,
    }
}

/// The source language that the configuration names.
pub open spec fn cfg_source_lang(c: TranslateConfig) -> Option<Seq<char>> {
    or_else(opt_view(c.input.lang), opt_view(c.source_lang))
}

/// The statuses that the configuration lists.
pub open spec fn cfg_statuses(c: TranslateConfig) -> Option<Seq<Seq<char>>> {
    match or_else(c.input.status, c.status) {
        Some(v) => Some(strings_view(v@)),
        None => None,
    }
}

/// What the configuration says of one setting, when there is one.
pub open spec fn from_cfg<T>(cfg: Option<TranslateConfig>, f: spec_fn(TranslateConfig) -> Option<T>) -> Option<T> {
    match cfg {
        Some(c) => f(c),
        None => None,
    }
}

/// The settings of a translate run: source and target language, statuses,
/// provider, model and concurrency, each from the command line, else the
/// configuration, else its default; or the first error among: no target
/// language, a malformed target or source language, no usable provider, no
/// model, a concurrency of zero, an unknown status.
pub open spec fn translate_settings(
    opts: TranslateOptions,
    cfg: Option<TranslateConfig>,
    env_model: Option<Seq<char>>,
    keys: KeyPresence,
) -> Result<(Option<Seq<char>>, Seq<char>, Seq<EntryStatus>, ProviderKind, Seq<char>, usize), Seq<char>> {
    let source_lang = or_else(opt_view(opts.source_lang), from_cfg(cfg, |c: TranslateConfig| cfg_source_lang(c)));
    let target_lang = or_else(opt_view(opts.target_lang), from_cfg(cfg, |c: TranslateConfig| cfg_target_lang(c)));
    if target_lang is None {
        Err("--target-lang is required (or set translate.target_lang in langcodec.toml)"@)
    } else if !valid_lang_code(target_lang->0) {
        Err(lang_code_error(target_lang->0))
    } else if source_lang is Some && !valid_lang_code(source_lang->0) {
        Err(lang_code_error(source_lang->0))
    } else {
        match translate_provider_choice(
            opt_view(opts.provider),
            from_cfg(cfg, |c: TranslateConfig| opt_view(c.provider)),
            keys,
        ) {
            Err(e) => Err(e),
            Ok(p) => {
                let model = or_else(
                    or_else(opt_view(opts.model), from_cfg(cfg, |c: TranslateConfig| opt_view(c.model))),
                    env_model,
                );
                let conc: usize = match opts.concurrency {
                    Some(n) => n,
                    None => match from_cfg(cfg, |c: TranslateConfig| c.concurrency) {
                        Some(n) => n,
                        None => 4,
                    },
                };
                if model is None {
                    Err("--model is required (or set translate.model in langcodec.toml or MENTRA_MODEL)"@)
                } else if conc == 0 {
                    Err("Concurrency must be greater than zero"@)
                } else {
                    match translate_statuses(
                        opt_view(opts.status),
                        from_cfg(cfg, |c: TranslateConfig| cfg_statuses(c)),
                    ) {
                        Err(e) => Err(e),
                        Ok(st) => Ok((source_lang, target_lang->0, st, p, model->0, conc)),
                    }
                }
            },
        }
    }
}

fn str_of(o: &Option<String>) -> (r: Option<&str>)
    ensures
        match r {
            Some(s) => o matches Some(t) && s@ == t@,
            None => o is None,
        },
{
    match o {
        Some(s) => Some(s.as_str()),
        None => None,
    }
}

fn copy_opt(o: &Option<String>) -> (r: Option<String>)
    ensures
        opt_view(r) == opt_view(*o),
{
    match o {
        Some(s) => Some(s.clone()),
        None => None,
    }
}

/// Combines the command line, the configuration and the environment into
/// the settings of a translate run (see `translate_settings`); `env_model`
/// is what `MENTRA_MODEL` holds and `keys` which API keys are set.
pub fn resolve_options(
    opts: &TranslateOptions,
    config: Option<&LoadedConfig>,
    env_model: Option<String>,
    keys: &KeyPresence,
) -> (r: Result<ResolvedOptions, String>)
    ensures
        match translate_settings(
            *opts,
            match config {
                Some(c) => Some(c.data.translate),
                None => None,
            },
            opt_view(env_model),
            *keys,
        ) {
            Ok(t) => r matches Ok(o) && {
                &&& opt_view(o.source_lang) == t.0
                &&& o.target_lang@ == t.1
                &&& o.statuses@ == t.2
                &&& o.provider == t.3
                &&& o.model@ == t.4
                &&& o.concurrency == t.5
                &&& o.source@ == opts.source@
                &&& opt_view(o.target) == opt_view(opts.target)
                &&& opt_view(o.output) == opt_view(opts.output)
                &&& o.dry_run == opts.dry_run
                &&& o.strict == opts.strict
            },
            Err(e) => r matches Err(x) && x@ == e,
        },
{
    let ghost cfgv = match config {
        Some(c) => Some(c.data.translate),
        None => None,
    };
    let source_lang: Option<String> = match &opts.source_lang {
        Some(s) => Some(s.clone()),
        None => match config {
            Some(c) => match c.data.translate.resolved_source_lang() {
                Some(s) => Some(owned(s)),
                None => None,
            },
            None => None,
        },
    };
    let target_lang: Option<String> = match &opts.target_lang {
        Some(s) => Some(s.clone()),
        None => match config {
            Some(c) => match c.data.translate.resolved_target_langs() {
                Some(v) => if v.len() > 0 {
                    Some(v[0].clone())
                } else {
                    None
                },
                None => None,
            },
            None => None,
        },
    };
    let target_lang = match target_lang {
        Some(t) => t,
        None => {
            return Err(owned("--target-lang is required (or set translate.target_lang in langcodec.toml)"));
        },
    };
    validate_language_code(target_lang.as_str())?;
    if let Some(lang) = &source_lang {
        validate_language_code(lang.as_str())?;
    }
    let cfg_provider: Option<&str> = match config {
        Some(c) => str_of(&c.data.translate.provider),
        None => None,
    };
    let provider = resolve_provider(str_of(&opts.provider), cfg_provider, keys)?;
    let model: Option<String> = match &opts.model {
        Some(m) => Some(m.clone()),
        None => match config {
            Some(c) => match copy_opt(&c.data.translate.model) {
                Some(m) => Some(m),
                None => env_model,
            },
            None => env_model,
        },
    };
    let concurrency: usize = match opts.concurrency {
        Some(n) => n,
        None => match config {
            Some(c) => match c.data.translate.concurrency {
                Some(n) => n,
                None => 4,
            },
            None => 4,
        },
    };
    let model = match model {
        Some(m) => m,
        None => {
            return Err(owned("--model is required (or set translate.model in langcodec.toml or MENTRA_MODEL)"));
        },
    };
    if concurrency == 0 {
        return Err(owned("Concurrency must be greater than zero"));
    }
    let cfg_status: Option<&Vec<String>> = match config {
        Some(c) => c.data.translate.resolved_filter_status(),
        None => None,
    };
    let statuses = parse_status_filter(str_of(&opts.status), cfg_status)?;
    Ok(ResolvedOptions {
        source: opts.source.clone(),
        target: copy_opt(&opts.target),
        output: copy_opt(&opts.output),
        source_lang,
        target_lang,
        statuses,
        provider,
        model,
        concurrency,
        dry_run: opts.dry_run,
        strict: opts.strict,
    })
}

/// The position of the first resource of exactly language `lang`.
pub open spec fn first_lang(rs: Seq<ResourceView>, lang: Seq<char>) -> Option<int>
    decreases rs.len(),
{
    if rs.len() == 0 {
        None
    } else if rs[0].metadata.language == lang {
        Some(0)
    } else {
        match first_lang(rs.drop_first(), lang) {
            Some(i) => Some(i + 1),
            None => None,
        }
    }
}

/// The position of the first entry with id `key`.
pub open spec fn first_entry(es: Seq<EntryView>, key: Seq<char>) -> Option<int>
    decreases es.len(),
{
    if es.len() == 0 {
        None
    } else if es[0].id == key {
        Some(0)
    } else {
        match first_entry(es.drop_first(), key) {
            Some(i) => Some(i + 1),
            None => None,
        }
    }
}

proof fn lemma_first_lang(rs: Seq<ResourceView>, lang: Seq<char>, i: int)
    requires
        0 <= i <= rs.len(),
        forall|k: int| 0 <= k < i ==> #[trigger] rs[k].metadata.language != lang,
    ensures
        i < rs.len() && rs[i].metadata.language == lang ==> first_lang(rs, lang) == Some(i),
        i == rs.len() ==> first_lang(rs, lang) is None,
    decreases rs.len(),
{
    if rs.len() > 0 && i > 0 {
        assert forall|k: int| 0 <= k < i - 1 implies #[trigger] rs.drop_first()[k].metadata.language != lang by {
            assert(rs.drop_first()[k] == rs[k + 1]);
        }
        lemma_first_lang(rs.drop_first(), lang, i - 1);
    }
}

pub proof fn lemma_first_entry(es: Seq<EntryView>, key: Seq<char>, j: int)
    requires
        0 <= j <= es.len(),
        forall|k: int| 0 <= k < j ==> #[trigger] es[k].id != key,
    ensures
        j < es.len() && es[j].id == key ==> first_entry(es, key) == Some(j),
        j == es.len() ==> first_entry(es, key) is None,
    decreases es.len(),
{
    if es.len() > 0 && j > 0 {
        assert forall|k: int| 0 <= k < j - 1 implies #[trigger] es.drop_first()[k].id != key by {
            assert(es.drop_first()[k] == es[k + 1]);
        }
        lemma_first_entry(es.drop_first(), key, j - 1);
    }
}

/// Where the codec keeps the entry `key` of language `lang`: the first
/// entry with that id in the first resource of exactly that language.
pub open spec fn codec_find(rs: Seq<ResourceView>, key: Seq<char>, lang: Seq<char>) -> Option<(int, int)> {
    match first_lang(rs, lang) {
        Some(i) => match first_entry(rs[i].entries, key) {
            Some(j) => Some((i, j)),
            None => None,
        },
        None => None,
    }
}

/// The position of the first resource of exactly language `lang`.
pub fn find_language(rs: &Vec<Resource>, lang: &str) -> (r: Option<usize>)
    ensures
        match r {
            Some(i) => i < rs.len() && first_lang(resources_view(rs@), lang@) == Some(i as int),
            None => first_lang(resources_view(rs@), lang@) is None,
        },
{
    let ghost rv = resources_view(rs@);
    let mut i: usize = 0;
    while i < rs.len()
        invariant
            i <= rs.len(),
            rv == resources_view(rs@),
            forall|k: int| 0 <= k < i ==> #[trigger] rv[k].metadata.language != lang@,
        decreases rs.len() - i,
    {
        if str_eq(rs[i].metadata.language.as_str(), lang) {
            proof {
                lemma_first_lang(rv, lang@, i as int);
            }
            return Some(i);
        }
        i = i + 1;
    }
    proof {
        lemma_first_lang(rv, lang@, i as int);
    }
    None
}

/// The position of the entry with id `key` in the first resource of
/// exactly language `lang` (see `codec_find`).
pub fn find_entry(rs: &Vec<Resource>, key: &str, lang: &str) -> (r: Option<(usize, usize)>)
    ensures
        match r {
            Some((i, j)) => i < rs.len() && j < rs@[i as int].entries.len() && codec_find(
                resources_view(rs@),
                key@,
                lang@,
            ) == Some((i as int, j as int)),
            None => codec_find(resources_view(rs@), key@, lang@) is None,
        },
{
    let ghost rv = resources_view(rs@);
    match find_language(rs, lang) {
        None => None,
        Some(i) => {
            let es = &rs[i].entries;
            let ghost ev = rv[i as int].entries;
            let mut j: usize = 0;
            while j < es.len()
                invariant
                    j <= es.len(),
                    i < rs.len(),
                    es == &rs@[i as int].entries,
                    rv == resources_view(rs@),
                    first_lang(rv, lang@) == Some(i as int),
                    ev == rv[i as int].entries,
                    ev == crate::model::entries_view(es@),
                    forall|k: int| 0 <= k < j ==> #[trigger] ev[k].id != key@,
                decreases es.len() - j,
            {
                if str_eq(es[j].id.as_str(), key) {
                    proof {
                        assert(ev[j as int].id == key@);
                        lemma_first_entry(ev, key@, j as int);
                        assert(first_lang(rv, lang@) == Some(i as int));
                        assert(rv[i as int].entries == ev);
                    }
                    return Some((i, j));
                }
                j = j + 1;
            }
            proof {
                lemma_first_entry(ev, key@, j as int);
            }
            None
        },
    }
}

/// Why an entry of the source is or is not sent for translation.
#[derive(Debug, Clone, Copy, PartialEq, Eq, Structural)]
pub enum JobClass {
    Plural,
    EmptySource,
    DoNotTranslate,
    StatusFiltered,
    Queued,
}

/// Text that is empty once trimmed.
pub open spec fn blank(t: Seq<char>) -> bool {
    trim_seq(t).len() == 0
}

/// The status a target entry counts as: its own when the target format
/// records statuses, otherwise new when it holds no text and translated
/// when it does.
pub open spec fn effective_status(e: EntryView, explicit: bool) -> EntryStatus {
    if explicit {
        e.status
    } else {
        match e.value {
            TranslationView::Empty => EntryStatus::New,
            TranslationView::Singular(t) => if blank(t) {
                EntryStatus::New
            } else {
                EntryStatus::Translated
            },
            TranslationView::Plural(_, _) => EntryStatus::Translated,
        }
    }
}

/// The target's entry for `key` in language `lang`, if any.
pub open spec fn target_entry(target: Seq<ResourceView>, key: Seq<char>, lang: Seq<char>) -> Option<EntryView> {
    match codec_find(target, key, lang) {
        Some((i, j)) => Some(target[i].entries[j]),
        None => None,
    }
}

/// Why a source entry is or is not sent: plural and empty values are
/// skipped, as are entries marked do-not-translate on either side, and
/// entries whose target status (new when the target lacks them) is not
/// among the selected statuses; the rest are queued.
pub open spec fn job_class(
    e: EntryView,
    target: Seq<ResourceView>,
    lang: Seq<char>,
    statuses: Seq<EntryStatus>,
    explicit: bool,
) -> JobClass {
    match e.value {
        TranslationView::Plural(_, _) => JobClass::Plural,
        TranslationView::Empty => JobClass::EmptySource,
        TranslationView::Singular(t) => if blank(t) {
            JobClass::EmptySource
        } else {
            let te = target_entry(target, e.id, lang);
            if e.status == EntryStatus::DoNotTranslate || (te is Some && te->0.status
                == EntryStatus::DoNotTranslate) {
                JobClass::DoNotTranslate
            } else {
                let eff = match te {
                    Some(x) => effective_status(x, explicit),
                    None => EntryStatus::New,
                };
                if !statuses.contains(eff) {
                    JobClass::StatusFiltered
                } else {
                    JobClass::Queued
                }
            }
        },
    }
}

/// One value to translate.
#[derive(Debug, Clone)]
pub struct TranslationJob {
    pub key: String,
    pub source_lang: String,
    pub target_lang: String,
    pub source_value: String,
    pub source_comment: Option<String>,
    pub existing_comment: Option<String>,
}

/// The counts of a translate run.
#[derive(Debug, Clone)]
pub struct TranslationSummary {
    pub total_entries: usize,
    pub queued: usize,
    pub translated: usize,
    pub skipped_do_not_translate: usize,
    pub skipped_plural: usize,
    pub skipped_status: usize,
    pub skipped_empty_source: usize,
    pub failed: usize,
}

/// The status a target entry counts as (see `effective_status`).
pub fn effective_target_status(entry: &Entry, explicit_target_status: bool) -> (r: EntryStatus)
    ensures
        r == effective_status(entry@, explicit_target_status),
{
    if explicit_target_status {
        return entry.status;
    }
    match &entry.value {
        Translation::Empty => EntryStatus::New,
        Translation::Singular(text) => {
            if trim(text.as_str()).as_str().unicode_len() == 0 {
                EntryStatus::New
            } else {
                EntryStatus::Translated
            }
        },
        Translation::Plural(_) => EntryStatus::Translated,
    }
}

/// The number of entries of class `c`.
pub open spec fn class_count(
    es: Seq<EntryView>,
    target: Seq<ResourceView>,
    lang: Seq<char>,
    statuses: Seq<EntryStatus>,
    explicit: bool,
    c: JobClass,
) -> nat {
    es.filter(|e: EntryView| job_class(e, target, lang, statuses, explicit) == c).len()
}

/// The entries that are queued, in order.
pub open spec fn queued_entries(
    es: Seq<EntryView>,
    target: Seq<ResourceView>,
    lang: Seq<char>,
    statuses: Seq<EntryStatus>,
    explicit: bool,
) -> Seq<EntryView> {
    es.filter(|e: EntryView| job_class(e, target, lang, statuses, explicit) == JobClass::Queued)
}

/// `job` is the request for queued entry `e`: its key, the source and
/// target languages, its text and comment, and the comment the target
/// entry already has.
pub open spec fn job_for(
    job: TranslationJob,
    e: EntryView,
    source_lang: Seq<char>,
    target: Seq<ResourceView>,
    lang: Seq<char>,
) -> bool {
    &&& job.key@ == e.id
    &&& job.source_lang@ == source_lang
    &&& job.target_lang@ == lang
    &&& e.value == TranslationView::Singular(job.source_value@)
    &&& opt_view(job.source_comment) == e.comment
    &&& opt_view(job.existing_comment) == match target_entry(target, e.id, lang) {
        Some(x) => x.comment,
        None => None,
    }
}

/// Sorts the source entries into the jobs to send and the counts of those
/// skipped, by `job_class`.
pub fn build_jobs(
    source: &Resource,
    target_codec: &Vec<Resource>,
    target_lang: &str,
    statuses: &Vec<EntryStatus>,
    explicit_target_status: bool,
) -> (r: (Vec<TranslationJob>, TranslationSummary))
    ensures
        ({
            let es = source@.entries;
            let tv = resources_view(target_codec@);
            let cc = |c: JobClass|
                class_count(es, tv, target_lang@, statuses@, explicit_target_status, c);
            let q = queued_entries(es, tv, target_lang@, statuses@, explicit_target_status);
            &&& r.1.total_entries == es.len()
            &&& r.1.queued == cc(JobClass::Queued)
            &&& r.1.skipped_plural == cc(JobClass::Plural)
            &&& r.1.skipped_empty_source == cc(JobClass::EmptySource)
            &&& r.1.skipped_do_not_translate == cc(JobClass::DoNotTranslate)
            &&& r.1.skipped_status == cc(JobClass::StatusFiltered)
            &&& r.1.translated == 0
            &&& r.1.failed == 0
            &&& r.0.len() == q.len()
            &&& forall|k: int|
                0 <= k < r.0.len() ==> job_for(
                    #[trigger] r.0@[k],
                    q[k],
                    source@.metadata.language,
                    tv,
                    target_lang@,
                )
        }),
{
    let ghost es = source@.entries;
    let ghost tv = resources_view(target_codec@);
    let ghost tl = target_lang@;
    let ghost st = statuses@;
    let ghost ex = explicit_target_status;
    let mut jobs: Vec<TranslationJob> = Vec::new();
    let mut summary = TranslationSummary {
        total_entries: source.entries.len(),
        queued: 0,
        translated: 0,
        skipped_do_not_translate: 0,
        skipped_plural: 0,
        skipped_status: 0,
        skipped_empty_source: 0,
        failed: 0,
    };
    let mut i: usize = 0;
    proof {
        reveal(Seq::filter);
        assert(es.take(0) =~= Seq::<EntryView>::empty());
    }
    while i < source.entries.len()
        invariant
            i <= source.entries.len(),
            es == source@.entries,
            tv == resources_view(target_codec@),
            tl == target_lang@,
            st == statuses@,
            ex == explicit_target_status,
            summary.total_entries == es.len(),
            summary.translated == 0,
            summary.failed == 0,
            summary.queued == class_count(es.take(i as int), tv, tl, st, ex, JobClass::Queued),
            summary.skipped_plural == class_count(es.take(i as int), tv, tl, st, ex, JobClass::Plural),
            summary.skipped_empty_source == class_count(es.take(i as int), tv, tl, st, ex, JobClass::EmptySource),
            summary.skipped_do_not_translate == class_count(es.take(i as int), tv, tl, st, ex, JobClass::DoNotTranslate),
            summary.skipped_status == class_count(es.take(i as int), tv, tl, st, ex, JobClass::StatusFiltered),
            summary.queued + summary.skipped_plural + summary.skipped_empty_source
                + summary.skipped_do_not_translate + summary.skipped_status <= i,
            jobs.len() == queued_entries(es.take(i as int), tv, tl, st, ex).len(),
            forall|k: int|
                0 <= k < jobs.len() ==> job_for(
                    #[trigger] jobs@[k],
                    queued_entries(es.take(i as int), tv, tl, st, ex)[k],
                    source@.metadata.language,
                    tv,
                    tl,
                ),
        decreases source.entries.len() - i,
    {
        let entry = &source.entries[i];
        let ghost e = entry@;
        let ghost cls = job_class(e, tv, tl, st, ex);
        proof {
            assert(es[i as int] == e);
            assert(es.take(i + 1) =~= es.take(i as int).push(e));
            let pre = es.take(i as int);
            pre.lemma_filter_push(e, |x: EntryView| job_class(x, tv, tl, st, ex) == JobClass::Queued);
            pre.lemma_filter_push(e, |x: EntryView| job_class(x, tv, tl, st, ex) == JobClass::Plural);
            pre.lemma_filter_push(e, |x: EntryView| job_class(x, tv, tl, st, ex) == JobClass::EmptySource);
            pre.lemma_filter_push(e, |x: EntryView| job_class(x, tv, tl, st, ex) == JobClass::DoNotTranslate);
            pre.lemma_filter_push(e, |x: EntryView| job_class(x, tv, tl, st, ex) == JobClass::StatusFiltered);
        }
        match &entry.value {
            Translation::Plural(_) => {
                summary.skipped_plural = summary.skipped_plural + 1;
            },
            Translation::Empty => {
                summary.skipped_empty_source = summary.skipped_empty_source + 1;
            },
            Translation::Singular(text) => {
                if trim(text.as_str()).as_str().unicode_len() == 0 {
                    summary.skipped_empty_source = summary.skipped_empty_source + 1;
                } else {
                    let found = find_entry(target_codec, entry.id.as_str(), target_lang);
                    let target_dnt = match found {
                        Some((ti, tj)) => target_codec[ti].entries[tj].status == EntryStatus::DoNotTranslate,
                        None => false,
                    };
                    if entry.status == EntryStatus::DoNotTranslate || target_dnt {
                        summary.skipped_do_not_translate = summary.skipped_do_not_translate + 1;
                    } else {
                        let eff = match found {
                            Some((ti, tj)) => effective_target_status(&target_codec[ti].entries[tj], explicit_target_status),
                            None => EntryStatus::New,
                        };
                        let mut wanted = false;
                        let mut k: usize = 0;
                        while k < statuses.len()
                            invariant
                                k <= statuses.len(),
                                wanted == exists|m: int| 0 <= m < k && statuses@[m] == eff,
                            decreases statuses.len() - k,
                        {
                            if statuses[k] == eff {
                                wanted = true;
                            }
                            k = k + 1;
                        }
                        if !wanted {
                            summary.skipped_status = summary.skipped_status + 1;
                        } else {
                            let existing_comment = match found {
                                Some((ti, tj)) => crate::model::dup_opt(&target_codec[ti].entries[tj].comment),
                                None => None,
                            };
                            let job = TranslationJob {
                                key: entry.id.clone(),
                                source_lang: source.metadata.language.clone(),
                                target_lang: owned(target_lang),
                                source_value: text.clone(),
                                source_comment: crate::model::dup_opt(&entry.comment),
                                existing_comment,
                            };
                            let ghost j0 = jobs@;
                            jobs.push(job);
                            summary.queued = summary.queued + 1;
                            proof {
                                let qn = queued_entries(es.take(i + 1), tv, tl, st, ex);
                                let qo = queued_entries(es.take(i as int), tv, tl, st, ex);
                                assert(qn == qo.push(e));
                                assert forall|m: int| 0 <= m < jobs.len() implies job_for(
                                    #[trigger] jobs@[m],
                                    qn[m],
                                    source@.metadata.language,
                                    tv,
                                    tl,
                                ) by {
                                    if m < j0.len() {
                                        assert(jobs@[m] == j0[m]);
                                        assert(qn[m] == qo[m]);
                                    }
                                }
                            }
                        }
                    }
                }
            },
        }
        i = i + 1;
    }
    proof {
        assert(es.take(i as int) =~= es);
    }
    (jobs, summary)
}

/// All the entries skipped, whatever the reason.
pub open spec fn skipped_total(s: TranslationSummary) -> int {
    s.skipped_plural + s.skipped_do_not_translate + s.skipped_status + s.skipped_empty_source
}

/// The number of entries skipped, whatever the reason.
pub fn count_skipped(summary: &TranslationSummary) -> (r: usize)
    requires
        skipped_total(*summary) <= usize::MAX,
    ensures
        r == skipped_total(*summary),
{
    summary.skipped_plural + summary.skipped_do_not_translate + summary.skipped_status
        + summary.skipped_empty_source
}

/// The resource whose values go out for translation: the first whose language matches
/// the requested one, or the only resource when none is requested.
pub open spec fn source_choice(rs: Seq<ResourceView>, requested: Option<Seq<char>>) -> Result<int, Seq<char>> {
    match requested {
        Some(l) => match pick_resource(rs, l) {
            Some(i) => Ok(i),
            None => Err("Source language '"@ + l + "' not found"@),
        },
        None => if rs.len() == 1 {
            Ok(0)
        } else {
            Err("Multiple source languages present; specify --source-lang"@)
        },
    }
}

/// Picks the source resource (see `source_choice`) and returns its position.
pub fn select_source_resource(resources: &Vec<Resource>, requested_lang: &Option<String>) -> (r: Result<usize, String>)
    ensures
        match source_choice(resources_view(resources@), opt_view(*requested_lang)) {
            Ok(i) => r == Ok::<usize, String>(i as usize) && i < resources.len(),
            Err(e) => r matches Err(x) && x@ == e,
        },
{
    match requested_lang {
        Some(lang) => match pick_language_resource(resources, lang.as_str()) {
            Some(i) => Ok(i),
            None => {
                let mut e = owned("Source language '");
                push_str(&mut e, lang.as_str());
                push_str(&mut e, "' not found");
                Err(e)
            },
        },
        None => {
            if resources.len() == 1 {
                Ok(0)
            } else {
                Err(owned("Multiple source languages present; specify --source-lang"))
            }
        },
    }
}

/// The target language as the files spell it: the language of the first
/// target resource that matches the requested one, else the language
/// inferred from the output path when it matches, else as requested.
pub open spec fn target_language_choice(
    rs: Seq<ResourceView>,
    requested: Seq<char>,
    inferred: Option<Seq<char>>,
) -> Seq<char> {
    match pick_resource(rs, requested) {
        Some(i) => rs[i].metadata.language,
        None => if inferred is Some && lang_match(inferred->0, requested) {
            inferred->0
        } else {
            requested
        },
    }
}

/// Settles the spelling of the target language (see
/// `target_language_choice`).
pub fn resolve_target_language(
    codec: &Vec<Resource>,
    requested_lang: &str,
    inferred_from_output: Option<&str>,
) -> (r: String)
    ensures
        r@ == target_language_choice(
            resources_view(codec@),
            requested_lang@,
            match inferred_from_output {
                Some(s) => Some(s@),
                None => None,
            },
        ),
{
    match pick_language_resource(codec, requested_lang) {
        Some(i) => codec[i].metadata.language.clone(),
        None => match inferred_from_output {
            Some(inferred) => if lang_matches(inferred, requested_lang) {
                owned(inferred)
            } else {
                owned(requested_lang)
            },
            None => owned(requested_lang),
        },
    }
}

/// Whether the file at `path` records entry statuses: its extension is
/// `xcstrings`, whatever its case.
pub open spec fn explicit_status_path(path: Seq<char>) -> bool {
    match path_extension(path) {
        Some(e) => lower_seq(e) == "xcstrings"@,
        None => false,
    }
}

/// Whether the target file records entry statuses (see
/// `explicit_status_path`).
pub fn target_supports_explicit_status(path: &str) -> (r: bool)
    ensures
        r == explicit_status_path(path@),
{
    match extension_of(path) {
        Some(e) => {
            let l = to_ascii_lowercase(e.as_str());
            str_eq(l.as_str(), "xcstrings")
        },
        None => false,
    }
}

/// An empty resource of language `language`.
pub open spec fn empty_resource_view(language: Seq<char>) -> ResourceView {
    ResourceView {
        metadata: crate::model::MetadataView { language, domain: Seq::empty(), custom: Seq::empty() },
        entries: Seq::empty(),
    }
}

/// Adds an empty resource for `language` unless one of exactly that
/// language exists.
pub fn ensure_target_resource(codec: &mut Vec<Resource>, language: &str) -> (r: Result<(), String>)
    ensures
        r is Ok,
        resources_view(final(codec)@) == if first_lang(resources_view(old(codec)@), language@) is Some {
            resources_view(old(codec)@)
        } else {
            resources_view(old(codec)@).push(empty_resource_view(language@))
        },
{
    if find_language(codec, language).is_none() {
        let ghost c0 = codec@;
        codec.push(
            Resource {
                metadata: Metadata { language: owned(language), domain: String::new(), custom: Vec::new() },
                entries: Vec::new(),
            },
        );
        proof {
            let last = codec@[codec.len() - 1];
            assert(crate::model::pairs_view(last.metadata.custom@) =~= Seq::empty());
            assert(crate::model::entries_view(last.entries@) =~= Seq::empty());
            assert(last.metadata.domain@ =~= Seq::<char>::empty());
            assert(last@ =~= empty_resource_view(language@));
            assert(resources_view(codec@) =~= resources_view(c0).push(last@));
        }
    }
    Ok(())
}

/// Adds a resource with the metadata of `resource` (and its entries when
/// `clone_entries`) unless one of exactly `language` exists.
pub fn ensure_resource_exists(codec: &mut Vec<Resource>, resource: &Resource, language: &str, clone_entries: bool)
    ensures
        resources_view(final(codec)@) == if first_lang(resources_view(old(codec)@), language@) is Some {
            resources_view(old(codec)@)
        } else {
            resources_view(old(codec)@).push(
                ResourceView {
                    metadata: resource@.metadata,
                    entries: if clone_entries {
                        resource@.entries
                    } else {
                        Seq::empty()
                    },
                },
            )
        },
{
    if find_language(codec, language).is_some() {
        return;
    }
    let entries = if clone_entries {
        crate::model::dup_entries(&resource.entries)
    } else {
        Vec::new()
    };
    let ghost c0 = codec@;
    proof {
        if !clone_entries {
            assert(crate::model::entries_view(entries@) =~= Seq::empty());
        }
    }
    codec.push(Resource { metadata: resource.metadata.duplicate(), entries });
    proof {
        let last = codec@[codec.len() - 1];
        assert(last@ == ResourceView {
            metadata: resource@.metadata,
            entries: if clone_entries {
                resource@.entries
            } else {
                Seq::empty()
            },
        });
        assert(resources_view(codec@) =~= resources_view(c0).push(last@));
    }
}

/// `custom` with `(k, v)` added unless `k` is already there.
pub open spec fn put_if_absent(custom: Seq<(Seq<char>, Seq<char>)>, k: Seq<char>, v: Seq<char>) -> Seq<
    (Seq<char>, Seq<char>),
> {
    if crate::model::assoc_get(custom, k) is Some {
        custom
    } else {
        custom.push((k, v))
    }
}

/// A resource whose metadata names the source language and the format
/// version, unless it already does.
pub open spec fn with_xcstrings_metadata(r: ResourceView, source_language: Seq<char>) -> ResourceView {
    ResourceView {
        metadata: crate::model::MetadataView {
            language: r.metadata.language,
            domain: r.metadata.domain,
            custom: put_if_absent(
                put_if_absent(r.metadata.custom, "source_language"@, source_language),
                "version"@,
                "1.0"@,
            ),
        },
        entries: r.entries,
    }
}

/// Adding a pair only for an absent key keeps the keys distinct.
proof fn lemma_put_if_absent_distinct(custom: Seq<(Seq<char>, Seq<char>)>, k: Seq<char>, v: Seq<char>)
    requires
        crate::model::keys_distinct(custom),
    ensures
        crate::model::keys_distinct(put_if_absent(custom, k, v)),
{
    if crate::model::assoc_get(custom, k) is None {
        crate::model::lemma_push_absent_distinct(custom, k, v);
    }
}

/// Adds `(k, v)` to `custom` unless `k` is already there.
fn put_custom_if_absent(custom: &mut Vec<(String, String)>, k: &str, v: &str)
    ensures
        crate::model::pairs_view(final(custom)@) == put_if_absent(crate::model::pairs_view(old(custom)@), k@, v@),
{
    if crate::model::assoc_find(custom, k).is_none() {
        let ghost c0 = custom@;
        custom.push((owned(k), owned(v)));
        proof {
            assert(crate::model::pairs_view(custom@) =~= crate::model::pairs_view(c0).push((k@, v@)));
        }
    }
}

/// Makes every resource's metadata name the source language and the
/// format version, keeping values already there.
pub fn propagate_xcstrings_metadata(codec: &mut Vec<Resource>, source_language: &str)
    ensures
        resources_view(final(codec)@) == resources_view(old(codec)@).map_values(
            |r: ResourceView| with_xcstrings_metadata(r, source_language@),
        ),
        forall|i: int|
            0 <= i < final(codec).len() && crate::model::keys_distinct(resources_view(old(codec)@)[i].metadata.custom)
                ==> crate::model::keys_distinct(#[trigger] resources_view(final(codec)@)[i].metadata.custom),
{
    let ghost c0 = resources_view(codec@);
    let mut i: usize = 0;
    while i < codec.len()
        invariant
            i <= codec.len(),
            codec.len() == c0.len(),
            forall|k: int| 0 <= k < i ==> #[trigger] resources_view(codec@)[k] == with_xcstrings_metadata(c0[k], source_language@),
            forall|k: int| i <= k < codec.len() ==> #[trigger] resources_view(codec@)[k] == c0[k],
        decreases codec.len() - i,
    {
        let ghost before = codec@;
        let mut custom = crate::model::dup_pairs(&codec[i].metadata.custom);
        put_custom_if_absent(&mut custom, "source_language", source_language);
        put_custom_if_absent(&mut custom, "version", "1.0");
        let ghost cv = custom@;
        codec[i].metadata.custom = custom;
        proof {
            assert(codec@[i as int].metadata.custom@ == cv);
            assert(codec@[i as int].metadata.language == before[i as int].metadata.language);
            assert(codec@[i as int].metadata.domain == before[i as int].metadata.domain);
            assert(codec@[i as int].entries == before[i as int].entries);
            assert forall|k: int| 0 <= k < codec.len() && k != i implies codec@[k] == before[k] by {}
            assert(resources_view(before)[i as int] == c0[i as int]);
            assert(resources_view(codec@)[i as int].metadata.custom == crate::model::pairs_view(cv));
            assert(resources_view(codec@)[i as int] =~= with_xcstrings_metadata(c0[i as int], source_language@));
            assert forall|k: int| 0 <= k < codec.len() && k != i implies #[trigger] resources_view(codec@)[k] == resources_view(before)[k] by {
                assert(codec@[k] == before[k]);
            }
        }
        i = i + 1;
    }
    proof {
        assert(resources_view(codec@) =~= c0.map_values(|r: ResourceView| with_xcstrings_metadata(r, source_language@)));
        assert forall|i: int|
            0 <= i < codec.len() && crate::model::keys_distinct(c0[i].metadata.custom) implies crate::model::keys_distinct(
                #[trigger] resources_view(codec@)[i].metadata.custom,
            ) by {
            let c = c0[i].metadata.custom;
            lemma_put_if_absent_distinct(c, "source_language"@, source_language@);
            lemma_put_if_absent_distinct(put_if_absent(c, "source_language"@, source_language@), "version"@, "1.0"@);
        }
    }
}

/// An entry given a new translation, marked for review.
pub open spec fn reviewed_entry(e: EntryView, v: Seq<char>) -> EntryView {
    EntryView {
        id: e.id,
        value: TranslationView::Singular(v),
        comment: e.comment,
        status: EntryStatus::NeedsReview,
        custom: e.custom,
    }
}

/// The entry added for a translation the target lacked: marked for
/// review, with the target's comment or else the source's.
pub open spec fn added_entry(job: TranslationJob, v: Seq<char>) -> EntryView {
    EntryView {
        id: job.key@,
        value: TranslationView::Singular(v),
        comment: or_else(opt_view(job.existing_comment), opt_view(job.source_comment)),
        status: EntryStatus::NeedsReview,
        custom: Seq::empty(),
    }
}

/// A resource with other entries.
pub open spec fn with_entries(r: ResourceView, entries: Seq<EntryView>) -> ResourceView {
    ResourceView { metadata: r.metadata, entries }
}

/// The resources once the translation of one job, if any came back, is
/// written: into the target entry when there is one, as a new entry of
/// the first resource of the target language otherwise.
pub open spec fn apply_result(
    rs: Seq<ResourceView>,
    job: TranslationJob,
    lang: Seq<char>,
    results: Seq<(Seq<char>, Seq<char>)>,
) -> Seq<ResourceView> {
    match crate::model::assoc_get(results, job.key@) {
        None => rs,
        Some(v) => match codec_find(rs, job.key@, lang) {
            Some((i, j)) => rs.update(
                i,
                with_entries(rs[i], rs[i].entries.update(j, reviewed_entry(rs[i].entries[j], v))),
            ),
            None => match first_lang(rs, lang) {
                Some(i) => rs.update(i, with_entries(rs[i], rs[i].entries.push(added_entry(job, v)))),
                None => rs,
            },
        },
    }
}

/// The resources once the translations of all jobs are written, in order.
pub open spec fn apply_results(
    rs: Seq<ResourceView>,
    jobs: Seq<TranslationJob>,
    lang: Seq<char>,
    results: Seq<(Seq<char>, Seq<char>)>,
) -> Seq<ResourceView>
    decreases jobs.len(),
{
    if jobs.len() == 0 {
        rs
    } else {
        apply_result(apply_results(rs, jobs.drop_last(), lang, results), jobs.last(), lang, results)
    }
}

pub proof fn lemma_first_lang_same_languages(a: Seq<ResourceView>, b: Seq<ResourceView>, lang: Seq<char>)
    requires
        a.len() == b.len(),
        forall|k: int| 0 <= k < a.len() ==> #[trigger] a[k].metadata.language == b[k].metadata.language,
    ensures
        first_lang(a, lang) == first_lang(b, lang),
    decreases a.len(),
{
    if a.len() > 0 {
        assert forall|k: int| 0 <= k < a.len() - 1 implies #[trigger] a.drop_first()[k].metadata.language
            == b.drop_first()[k].metadata.language by {
            assert(a.drop_first()[k] == a[k + 1]);
            assert(b.drop_first()[k] == b[k + 1]);
        }
        lemma_first_lang_same_languages(a.drop_first(), b.drop_first(), lang);
    }
}

/// Writes the translations that came back (`results`, by key) into the
/// target resources, job by job (see `apply_results`). The target language
/// must have a resource.
pub fn apply_translation_results(
    codec: &mut Vec<Resource>,
    jobs: &Vec<TranslationJob>,
    target_lang: &str,
    results: &Vec<(String, String)>,
) -> (r: Result<(), String>)
    requires
        first_lang(resources_view(old(codec)@), target_lang@) is Some,
    ensures
        r is Ok,
        resources_view(final(codec)@) == apply_results(
            resources_view(old(codec)@),
            jobs@,
            target_lang@,
            crate::model::pairs_view(results@),
        ),
{
    let ghost rv0 = resources_view(codec@);
    let ghost res = crate::model::pairs_view(results@);
    let mut n: usize = 0;
    proof {
        assert(jobs@.take(0) =~= Seq::<TranslationJob>::empty());
    }
    while n < jobs.len()
        invariant
            n <= jobs.len(),
            res == crate::model::pairs_view(results@),
            first_lang(resources_view(codec@), target_lang@) is Some,
            resources_view(codec@) == apply_results(rv0, jobs@.take(n as int), target_lang@, res),
        decreases jobs.len() - n,
    {
        let job = &jobs[n];
        let ghost before = codec@;
        let ghost bv = resources_view(codec@);
        proof {
            assert(jobs@.take(n + 1).drop_last() =~= jobs@.take(n as int));
            assert(jobs@.take(n + 1).last() == *job);
        }
        match crate::model::assoc_lookup(results, job.key.as_str()) {
            None => {},
            Some(v) => {
                let ghost vv = v@;
                match find_entry(codec, job.key.as_str(), target_lang) {
                    Some((i, j)) => {
                        codec[i].entries[j].value = Translation::Singular(v);
                        codec[i].entries[j].status = EntryStatus::NeedsReview;
                        proof {
                            assert forall|k: int| 0 <= k < codec.len() && k != i implies codec@[k] == before[k] by {}
                            assert forall|m: int| 0 <= m < codec@[i as int].entries.len() && m != j implies codec@[i as int].entries@[m] == before[i as int].entries@[m] by {}
                            assert(crate::model::entries_view(codec@[i as int].entries@) =~= bv[i as int].entries.update(
                                j as int,
                                reviewed_entry(bv[i as int].entries[j as int], vv),
                            ));
                            assert(resources_view(codec@) =~= bv.update(
                                i as int,
                                with_entries(bv[i as int], bv[i as int].entries.update(
                                    j as int,
                                    reviewed_entry(bv[i as int].entries[j as int], vv),
                                )),
                            ));
                            lemma_first_lang_same_languages(resources_view(codec@), bv, target_lang@);
                        }
                    },
                    None => {
                        let i = match find_language(codec, target_lang) {
                            Some(i) => i,
                            None => {
                                proof {
                                    assert(false);
                                }
                                0
                            },
                        };
                        let comment = match &job.existing_comment {
                            Some(c) => Some(c.clone()),
                            None => crate::model::dup_opt(&job.source_comment),
                        };
                        let entry = Entry {
                            id: job.key.clone(),
                            value: Translation::Singular(v),
                            comment,
                            status: EntryStatus::NeedsReview,
                            custom: Vec::new(),
                        };
                        proof {
                            assert(crate::model::pairs_view(entry.custom@) =~= Seq::empty());
                            assert(entry@ == added_entry(*job, vv));
                        }
                        codec[i].entries.push(entry);
                        proof {
                            assert forall|k: int| 0 <= k < codec.len() && k != i implies codec@[k] == before[k] by {}
                            assert(crate::model::entries_view(codec@[i as int].entries@) =~= bv[i as int].entries.push(
                                added_entry(*job, vv),
                            ));
                            assert(resources_view(codec@) =~= bv.update(
                                i as int,
                                with_entries(bv[i as int], bv[i as int].entries.push(added_entry(*job, vv))),
                            ));
                            lemma_first_lang_same_languages(resources_view(codec@), bv, target_lang@);
                        }
                    },
                }
            },
        }
        n = n + 1;
    }
    proof {
        assert(jobs@.take(n as int) =~= jobs@);
    }
    Ok(())
}

/// One request to the translation model.
#[derive(Debug, Clone)]
pub struct BackendRequest {
    pub key: String,
    pub source_lang: String,
    pub target_lang: String,
    pub source_value: String,
    pub source_comment: Option<String>,
}

/// The prompt of a request: the languages, the key and the value, the
/// source comment when there is one, and the shape of the expected reply.
pub open spec fn prompt_text(r: BackendRequest) -> Seq<char> {
    "Translate the following localization value from "@ + r.source_lang@ + " to "@ + r.target_lang@
        + ".\nKey: "@ + r.key@ + "\nSource value:\n"@ + r.source_value@ + "\n"@ + (match r.source_comment {
        Some(c) => "\nComment:\n"@ + c@ + "\n"@,
        None => Seq::empty(),
    })
        + "\nReturn JSON only in this exact shape: {\"translation\":\"...\"}. Do not wrap in markdown fences unless necessary."@
}

/// The prompt of a request (see `prompt_text`).
pub fn build_prompt(request: &BackendRequest) -> (r: String)
    ensures
        r@ == prompt_text(*request),
{
    let mut prompt = owned("Translate the following localization value from ");
    push_str(&mut prompt, request.source_lang.as_str());
    push_str(&mut prompt, " to ");
    push_str(&mut prompt, request.target_lang.as_str());
    push_str(&mut prompt, ".\nKey: ");
    push_str(&mut prompt, request.key.as_str());
    push_str(&mut prompt, "\nSource value:\n");
    push_str(&mut prompt, request.source_value.as_str());
    push_str(&mut prompt, "\n");
    let ghost head = prompt@;
    if let Some(comment) = &request.source_comment {
        push_str(&mut prompt, "\nComment:\n");
        push_str(&mut prompt, comment.as_str());
        push_str(&mut prompt, "\n");
    }
    let ghost mid = prompt@;
    push_str(
        &mut prompt,
        "\nReturn JSON only in this exact shape: {\"translation\":\"...\"}. Do not wrap in markdown fences unless necessary.",
    );
    proof {
        match &request.source_comment {
            Some(c) => {
                assert(mid =~= head + ("\nComment:\n"@ + c@ + "\n"@));
            },
            None => {
                assert(mid =~= head + Seq::<char>::empty());
            },
        }
        assert(prompt@ =~= prompt_text(*request));
    }
    prompt
}

/// The `translation` string of the JSON object that `text` holds, as
/// `serde_json` reads it; none when `text` is not such an object.
pub uninterp spec fn json_translation(text: Seq<char>) -> Option<Seq<char>>;

/// Reads `text` with `serde_json::from_str` as a JSON value and returns the
/// string under its `translation` key. The contract names the result and
/// says nothing of its content: that is `serde_json`'s parser. This reads
/// a JSON object only, where a derived deserializer would also take a
/// one-element array.
#[verifier::external_body]
fn read_translation_json(text: &str) -> (r: Option<String>)
    ensures
        opt_view(r) == json_translation(text@),
{
    serde_json::from_str::<serde_json::Value>(text).ok().and_then(
        |v| v.get("translation").and_then(|t| t.as_str().map(|s| s.to_string())),
    )
}

/// The body of a fenced reply: after a leading ```` ```json ```` or
/// ```` ``` ```` and any whitespace, up to a closing ```` ``` ````, trimmed.
pub open spec fn json_body(t: Seq<char>) -> Option<Seq<char>> {
    let rest = if starts_with_seq(t, "```json"@) {
        Some(t.skip("```json"@.len() as int))
    } else if starts_with_seq(t, "```"@) {
        Some(t.skip("```"@.len() as int))
    } else {
        None
    };
    match rest {
        None => None,
        Some(r) => {
            let f = trim_start_seq(r);
            if ends_with_seq(f, "```"@) {
                Some(trim_seq(f.take(f.len() - "```"@.len())))
            } else {
                None
            }
        },
    }
}

/// The body of a fenced reply (see `json_body`).
pub fn extract_json_body(text: &str) -> (r: Option<String>)
    ensures
        opt_view(r) == json_body(text@),
{
    let v = chars_of(text);
    let fence_json = chars_of("```json");
    let fence = chars_of("```");
    let rest: String = if starts_with(text, "```json") {
        string_of_range(&v, fence_json.len(), v.len())
    } else if starts_with(text, "```") {
        string_of_range(&v, fence.len(), v.len())
    } else {
        return None;
    };
    proof {
        assert(v@.subrange(fence_json.len() as int, v.len() as int) =~= v@.skip("```json"@.len() as int));
        assert(v@.subrange(fence.len() as int, v.len() as int) =~= v@.skip("```"@.len() as int));
    }
    let f = trim_start(rest.as_str());
    if !ends_with(f.as_str(), "```") {
        return None;
    }
    let fv = chars_of(f.as_str());
    let inner = string_of_range(&fv, 0, fv.len() - fence.len());
    proof {
        assert(fv@.subrange(0, fv.len() - fence.len()) =~= f@.take(f@.len() - "```"@.len()));
    }
    Some(trim(inner.as_str()))
}

/// What a model's reply gives, knowing what its trimmed text and its fenced
/// body read as JSON: an empty reply is an error; otherwise the translation
/// of the text, else that of the body, else an error that quotes the reply.
pub open spec fn reply_outcome(text: Seq<char>, direct: Option<Seq<char>>, fenced: Option<Seq<char>>) -> Result<
    Seq<char>,
    Seq<char>,
> {
    let t = trim_seq(text);
    if t.len() == 0 {
        Err("Model returned an empty translation"@)
    } else if direct is Some {
        Ok(direct->0)
    } else if fenced is Some {
        Ok(fenced->0)
    } else {
        Err("Model response was not valid translation JSON: "@ + t)
    }
}

/// Decides what a reply gives (see `reply_outcome`) from what its trimmed
/// text (`direct`) and its fenced body (`fenced`) read as.
pub fn translation_from_reply(text: &str, direct: Option<String>, fenced: Option<String>) -> (r: Result<
    String,
    String,
>)
    ensures
        match reply_outcome(text@, opt_view(direct), opt_view(fenced)) {
            Ok(v) => r matches Ok(x) && x@ == v,
            Err(e) => r matches Err(x) && x@ == e,
        },
{
    let trimmed = trim(text);
    if trimmed.as_str().unicode_len() == 0 {
        return Err(owned("Model returned an empty translation"));
    }
    if let Some(t) = direct {
        return Ok(t);
    }
    if let Some(t) = fenced {
        return Ok(t);
    }
    let mut e = owned("Model response was not valid translation JSON: ");
    push_str(&mut e, trimmed.as_str());
    Err(e)
}

/// Reads a model's reply: the JSON object of the trimmed reply, else that
/// of its fenced body (see `reply_outcome`).
pub fn parse_translation_response(text: &str) -> (r: Result<String, String>)
    ensures
        match reply_outcome(
            text@,
            json_translation(trim_seq(text@)),
            match json_body(trim_seq(text@)) {
                Some(b) => json_translation(b),
                None => None,
            },
        ) {
            Ok(v) => r matches Ok(x) && x@ == v,
            Err(e) => r matches Err(x) && x@ == e,
        },
{
    let trimmed = trim(text);
    if trimmed.as_str().unicode_len() == 0 {
        return translation_from_reply(text, None, None);
    }
    let direct = read_translation_json(trimmed.as_str());
    let fenced = match extract_json_body(trimmed.as_str()) {
        Some(body) => read_translation_json(body.as_str()),
        None => None,
    };
    translation_from_reply(text, direct, fenced)
}

/// The jobs and the skipped entries account for every source entry: each
/// is queued or skipped for exactly one reason.
pub proof fn law_translate_counts_cover_entries(
    es: Seq<EntryView>,
    target: Seq<ResourceView>,
    lang: Seq<char>,
    statuses: Seq<EntryStatus>,
    explicit: bool,
)
    ensures
        class_count(es, target, lang, statuses, explicit, JobClass::Queued)
            + class_count(es, target, lang, statuses, explicit, JobClass::Plural)
            + class_count(es, target, lang, statuses, explicit, JobClass::EmptySource)
            + class_count(es, target, lang, statuses, explicit, JobClass::DoNotTranslate)
            + class_count(es, target, lang, statuses, explicit, JobClass::StatusFiltered) == es.len(),
    decreases es.len(),
{
    if es.len() == 0 {
        reveal(Seq::filter);
    } else {
        let init = es.drop_last();
        law_translate_counts_cover_entries(init, target, lang, statuses, explicit);
        assert(init.push(es.last()) =~= es);
        init.lemma_filter_push(es.last(), |e: EntryView| job_class(e, target, lang, statuses, explicit) == JobClass::Queued);
        init.lemma_filter_push(es.last(), |e: EntryView| job_class(e, target, lang, statuses, explicit) == JobClass::Plural);
        init.lemma_filter_push(es.last(), |e: EntryView| job_class(e, target, lang, statuses, explicit) == JobClass::EmptySource);
        init.lemma_filter_push(es.last(), |e: EntryView| job_class(e, target, lang, statuses, explicit) == JobClass::DoNotTranslate);
        init.lemma_filter_push(es.last(), |e: EntryView| job_class(e, target, lang, statuses, explicit) == JobClass::StatusFiltered);
    }
}

/// The number of workers for `jobs` jobs: the concurrency, but no more than
/// the jobs and at least one.
pub fn worker_count(concurrency: usize, jobs: usize) -> (r: usize)
    ensures
        r == if concurrency < jobs {
            if concurrency == 0 {
                1
            } else {
                concurrency
            }
        } else {
            if jobs == 0 {
                1
            } else {
                jobs
            }
        },
{
    let m = if concurrency < jobs {
        concurrency
    } else {
        jobs
    };
    if m == 0 {
        1
    } else {
        m
    }
}

/// Counts one finished request: a translation is counted and kept under its
/// key (replacing an earlier one), a failure is counted.
pub fn record_result(
    summary: &mut TranslationSummary,
    results: &mut Vec<(String, String)>,
    item: Result<(String, String), String>,
)
    requires
        old(summary).translated < usize::MAX,
        old(summary).failed < usize::MAX,
    ensures
        match item {
            Ok((k, v)) => {
                &&& final(summary).translated == old(summary).translated + 1
                &&& final(summary).failed == old(summary).failed
                &&& crate::model::assoc_get(crate::model::pairs_view(final(results)@), k@) == Some(v@)
                &&& forall|q: Seq<char>|
                    q != k@ ==> crate::model::assoc_get(crate::model::pairs_view(final(results)@), q)
                        == crate::model::assoc_get(crate::model::pairs_view(old(results)@), q)
            },
            Err(_) => {
                &&& final(summary).translated == old(summary).translated
                &&& final(summary).failed == old(summary).failed + 1
                &&& final(results)@ == old(results)@
            },
        },
        final(summary).total_entries == old(summary).total_entries,
        final(summary).queued == old(summary).queued,
        skipped_total(*final(summary)) == skipped_total(*old(summary)),
{
    match item {
        Ok((k, v)) => {
            summary.translated = summary.translated + 1;
            let ghost r0 = crate::model::pairs_view(results@);
            let ghost kv = k@;
            let ghost vv = v@;
            match crate::model::assoc_find(results, k.as_str()) {
                Some(i) => {
                    results.set(i, (k, v));
                    proof {
                        crate::model::lemma_assoc_update(r0, i as int, kv, vv);
                        assert(crate::model::pairs_view(results@) =~= r0.update(i as int, (kv, vv)));
                    }
                },
                None => {
                    results.push((k, v));
                    proof {
                        crate::model::lemma_assoc_push(r0, kv, vv);
                        assert(crate::model::pairs_view(results@) =~= r0.push((kv, vv)));
                    }
                },
            }
        },
        Err(_) => {
            summary.failed = summary.failed + 1;
        },
    }
}

/// The progress line printed after each finished request.
pub open spec fn progress_text(completed: nat, s: TranslationSummary) -> Seq<char> {
    "Progress: "@ + crate::text::decimal(completed) + "/"@ + crate::text::decimal(s.queued as nat)
        + " translated="@ + crate::text::decimal(s.translated as nat) + " skipped="@
        + crate::text::decimal(skipped_total(s) as nat) + " failed="@ + crate::text::decimal(
        s.failed as nat,
    )
}

/// The progress line printed after each finished request.
pub fn progress_line(completed: usize, summary: &TranslationSummary) -> (r: String)
    requires
        skipped_total(*summary) <= usize::MAX,
    ensures
        r@ == progress_text(completed as nat, *summary),
{
    let mut r = owned("Progress: ");
    push_str(&mut r, crate::text::decimal_string(completed).as_str());
    push_str(&mut r, "/");
    push_str(&mut r, crate::text::decimal_string(summary.queued).as_str());
    push_str(&mut r, " translated=");
    push_str(&mut r, crate::text::decimal_string(summary.translated).as_str());
    push_str(&mut r, " skipped=");
    push_str(&mut r, crate::text::decimal_string(count_skipped(summary)).as_str());
    push_str(&mut r, " failed=");
    push_str(&mut r, crate::text::decimal_string(summary.failed).as_str());
    r
}

/// The queued jobs whose result never came back when `reported` results did.
pub open spec fn unreported(queued: int, reported: int) -> int {
    if reported < queued {
        queued - reported
    } else {
        0
    }
}

/// Closes the counts once the workers are done: each worker that failed,
/// and each queued job whose result never came back, counts as a failure.
pub fn close_accounting(summary: &mut TranslationSummary, reported: usize, worker_failures: usize)
    requires
        old(summary).failed + worker_failures + old(summary).queued <= usize::MAX,
    ensures
        final(summary).failed == old(summary).failed + worker_failures + unreported(
            old(summary).queued as int,
            reported as int,
        ),
        final(summary).total_entries == old(summary).total_entries,
        final(summary).queued == old(summary).queued,
        final(summary).translated == old(summary).translated,
        skipped_total(*final(summary)) == skipped_total(*old(summary)),
{
    let lost: usize = if reported < summary.queued {
        summary.queued - reported
    } else {
        0
    };
    summary.failed = summary.failed + worker_failures + lost;
}

/// A run that ends without failure translated every queued job: starting
/// from no translation and no failure, recording each of the `reported`
/// results that came back (each a translation or a failure, see
/// `record_result`) and closing the counts (see `close_accounting`) leaves
/// no failure only when every queued job was translated.
pub proof fn law_success_accounts_for_every_job(
    start: TranslationSummary,
    recorded: TranslationSummary,
    closed: TranslationSummary,
    reported: int,
    worker_failures: int,
)
    requires
        start.translated == 0,
        start.failed == 0,
        0 <= reported <= start.queued,
        worker_failures >= 0,
        recorded.queued == start.queued,
        recorded.translated + recorded.failed == start.translated + start.failed + reported,
        recorded.translated >= start.translated,
        recorded.failed >= start.failed,
        closed.queued == recorded.queued,
        closed.translated == recorded.translated,
        closed.failed == recorded.failed + worker_failures + unreported(recorded.queued as int, reported),
    ensures
        closed.failed == 0 <==> closed.translated == closed.queued && worker_failures == 0,
{
}

/// After every request has finished: a run with any failure writes nothing
/// and is an error; otherwise the outcome counts what was translated and
/// skipped.
pub fn translation_outcome(summary: &TranslationSummary, output_path: &str) -> (r: Result<
    TranslateOutcome,
    String,
>)
    requires
        skipped_total(*summary) <= usize::MAX,
    ensures
        summary.failed > 0 ==> (r matches Err(e) && e@ == "Translation failed; no files were written"@),
        summary.failed == 0 ==> (r matches Ok(o) && o.translated == summary.translated && o.skipped
            == skipped_total(*summary) && o.failed == 0 && opt_view(o.output_path) == Some(output_path@)),
{
    if summary.failed > 0 {
        return Err(owned("Translation failed; no files were written"));
    }
    Ok(
        TranslateOutcome {
            translated: summary.translated,
            skipped: count_skipped(summary),
            failed: 0,
            output_path: Some(owned(output_path)),
        },
    )
}

/// Why a translation plan is refused: no `--target` with the output being
/// the source file in a single-language format, or a target language that
/// matches the source language (see `lang_match`).
pub open spec fn translation_plan_error(
    target_given: bool,
    source_path: Seq<char>,
    output_path: Seq<char>,
    output_multi_language: bool,
    source_lang: Seq<char>,
    target_lang: Seq<char>,
) -> Option<Seq<char>> {
    if !target_given && output_path == source_path && !output_multi_language {
        Some(
            "Omitting --target is only supported for in-place multi-language files; use --target or --output for single-language formats"@,
        )
    } else if lang_match(source_lang, target_lang) {
        Some("Source language and target language must differ"@)
    } else {
        None
    }
}

/// Checks a translation plan (see `translation_plan_error`).
pub fn check_translation_plan(
    target_given: bool,
    source_path: &str,
    output_path: &str,
    output_multi_language: bool,
    source_lang: &str,
    target_lang: &str,
) -> (r: Result<(), String>)
    ensures
        match translation_plan_error(target_given, source_path@, output_path@, output_multi_language, source_lang@, target_lang@) {
            Some(e) => r matches Err(m) && m@ == e,
            None => r is Ok,
        },
{
    if !target_given && crate::text::str_eq(output_path, source_path) && !output_multi_language {
        return Err(
            owned(
                "Omitting --target is only supported for in-place multi-language files; use --target or --output for single-language formats",
            ),
        );
    }
    if lang_matches(source_lang, target_lang) {
        return Err(owned("Source language and target language must differ"));
    }
    Ok(())
}

/// The summary printed at the end of a translate run, one line per count.
pub open spec fn summary_text_lines(s: TranslationSummary) -> Seq<Seq<char>> {
    seq![
        "Total source entries: "@ + decimal(s.total_entries as nat),
        "Queued for translation: "@ + decimal(s.queued as nat),
        "Translated: "@ + decimal(s.translated as nat),
        "Skipped (plural): "@ + decimal(s.skipped_plural as nat),
        "Skipped (do_not_translate): "@ + decimal(s.skipped_do_not_translate as nat),
        "Skipped (status): "@ + decimal(s.skipped_status as nat),
        "Skipped (empty source): "@ + decimal(s.skipped_empty_source as nat),
        "Failed: "@ + decimal(s.failed as nat),
    ]
}

/// A label followed by a number.
fn labelled_count(label: &str, n: usize) -> (r: String)
    ensures
        r@ == label@ + decimal(n as nat),
{
    let mut r = owned(label);
    push_str(&mut r, decimal_string(n).as_str());
    r
}

/// The summary lines of a translate run (see `summary_text_lines`).
pub fn translation_summary_lines(summary: &TranslationSummary) -> (r: Vec<String>)
    ensures
        strings_view(r@) == summary_text_lines(*summary),
{
    let mut r: Vec<String> = Vec::new();
    r.push(labelled_count("Total source entries: ", summary.total_entries));
    r.push(labelled_count("Queued for translation: ", summary.queued));
    r.push(labelled_count("Translated: ", summary.translated));
    r.push(labelled_count("Skipped (plural): ", summary.skipped_plural));
    r.push(labelled_count("Skipped (do_not_translate): ", summary.skipped_do_not_translate));
    r.push(labelled_count("Skipped (status): ", summary.skipped_status));
    r.push(labelled_count("Skipped (empty source): ", summary.skipped_empty_source));
    r.push(labelled_count("Failed: ", summary.failed));
    proof {
        assert(strings_view(r@) =~= summary_text_lines(*summary));
    }
    r
}

/// The lines printed before a translate run: the languages with the
/// provider and model, the source and target files, the configuration file
/// when one was read, and the dry-run mode when asked for.
pub open spec fn preamble_text_lines(
    source_lang: Seq<char>,
    target_lang: Seq<char>,
    provider: ProviderKind,
    model: Seq<char>,
    source_path: Seq<char>,
    target_path: Seq<char>,
    config_path: Option<Seq<char>>,
    dry_run: bool,
) -> Seq<Seq<char>> {
    seq![
        "Translating "@ + source_lang + " -> "@ + target_lang + " using "@ + crate::ai::provider_name(provider) + ":"@
            + model,
        "Source: "@ + source_path,
        "Target: "@ + target_path,
    ] + (match config_path {
        Some(c) => seq!["Config: "@ + c],
        None => Seq::empty(),
    }) + (if dry_run {
        seq!["Mode: dry-run"@]
    } else {
        Seq::empty()
    })
}

/// The lines printed before a translate run (see `preamble_text_lines`).
pub fn preamble_lines(
    source_lang: &str,
    target_lang: &str,
    provider: ProviderKind,
    model: &str,
    source_path: &str,
    target_path: &str,
    config_path: &Option<String>,
    dry_run: bool,
) -> (r: Vec<String>)
    ensures
        strings_view(r@) == preamble_text_lines(
            source_lang@,
            target_lang@,
            provider,
            model@,
            source_path@,
            target_path@,
            opt_view(*config_path),
            dry_run,
        ),
{
    let mut first = owned("Translating ");
    push_str(&mut first, source_lang);
    push_str(&mut first, " -> ");
    push_str(&mut first, target_lang);
    push_str(&mut first, " using ");
    push_str(&mut first, provider.display_name());
    push_str(&mut first, ":");
    push_str(&mut first, model);
    let mut r: Vec<String> = Vec::new();
    r.push(first);
    let mut src = owned("Source: ");
    push_str(&mut src, source_path);
    r.push(src);
    let mut tgt = owned("Target: ");
    push_str(&mut tgt, target_path);
    r.push(tgt);
    let ghost base = strings_view(r@);
    if let Some(c) = config_path {
        let mut line = owned("Config: ");
        push_str(&mut line, c.as_str());
        r.push(line);
    }
    let ghost with_config = strings_view(r@);
    if dry_run {
        r.push(owned("Mode: dry-run"));
    }
    proof {
        let cfg_part: Seq<Seq<char>> = match opt_view(*config_path) {
            Some(c) => seq!["Config: "@ + c],
            None => Seq::empty(),
        };
        assert(with_config =~= base + cfg_part);
        assert(strings_view(r@) =~= preamble_text_lines(
            source_lang@,
            target_lang@,
            provider,
            model@,
            source_path@,
            target_path@,
            opt_view(*config_path),
            dry_run,
        ));
    }
    r
}

/// All target languages that the configuration lists: the output table's
/// `lang`, else `target_lang`.
pub open spec fn cfg_target_langs(c: TranslateConfig) -> Seq<Seq<char>> {
    let langs = match output_table(c) {
        Some(t) => match t.lang {
            Some(v) => Some(v),
            None => c.target_lang,
        },
        None => c.target_lang,
    };
    match langs {
        Some(v) => strings_view(v@),
        None => Seq::empty(),
    }
}

/// The target languages a translate command asks for: the command line's
/// comma-separated list (see `list_tokens`), else every language the
/// configuration lists.
pub open spec fn requested_target_langs(cli: Option<Seq<char>>, cfg: Option<TranslateConfig>) -> Seq<Seq<char>> {
    match cli {
        Some(t) => list_tokens(t),
        None => match cfg {
            Some(c) => cfg_target_langs(c),
            None => Seq::empty(),
        },
    }
}

/// The source files a translate command works on: the command line's, else
/// the configuration's non-empty `sources`, else its `source`, each resolved
/// against the configuration's directory; none when nothing names one.
pub open spec fn requested_sources(cli: Seq<char>, cfg: Option<TranslateConfig>, dir: Option<Seq<char>>) -> Option<
    Seq<Seq<char>>,
> {
    if cli.len() > 0 {
        Some(seq![cli])
    } else {
        match cfg {
            None => None,
            Some(c) => {
                let many = or_else(c.input.sources, c.sources);
                if many is Some && many->0.len() > 0 {
                    Some(strings_view(many->0@).map_values(|p: Seq<char>| config_relative(dir, p)))
                } else {
                    match or_else(opt_view(c.input.source), opt_view(c.source)) {
                        Some(one) => Some(seq![config_relative(dir, one)]),
                        None => None,
                    }
                }
            },
        }
    }
}

/// The runs for one source: one per target language, or a single run that
/// keeps the command's own target language when none is listed.
pub open spec fn runs_for(source: Seq<char>, langs: Seq<Seq<char>>) -> Seq<(Seq<char>, Option<Seq<char>>)> {
    if langs.len() == 0 {
        seq![(source, None)]
    } else {
        langs.map_values(|l: Seq<char>| (source, Some(l)))
    }
}

/// The runs for all sources, source by source.
pub open spec fn all_runs(sources: Seq<Seq<char>>, langs: Seq<Seq<char>>) -> Seq<(Seq<char>, Option<Seq<char>>)>
    decreases sources.len(),
{
    if sources.len() == 0 {
        Seq::empty()
    } else {
        all_runs(sources.drop_last(), langs) + runs_for(sources.last(), langs)
    }
}

/// One run of a fanned-out command: the source and target language of the
/// run, the target and output the run writes, the rest as asked.
pub open spec fn is_run(
    o: TranslateOptions,
    opts: TranslateOptions,
    run: (Seq<char>, Option<Seq<char>>),
    target: Option<Seq<char>>,
    output: Option<Seq<char>>,
) -> bool {
    &&& o.source@ == run.0
    &&& opt_view(o.target_lang) == (if run.1 is Some {
        run.1
    } else {
        opt_view(opts.target_lang)
    })
    &&& opt_view(o.target) == target
    &&& opt_view(o.output) == output
    &&& o.source_lang == opts.source_lang
    &&& o.status == opts.status
    &&& o.provider == opts.provider
    &&& o.model == opts.model
    &&& o.concurrency == opts.concurrency
    &&& o.config == opts.config
    &&& o.dry_run == opts.dry_run
    &&& o.strict == opts.strict
}

/// The target and output every run writes: the command's own; with a
/// single source the configuration's target and output stand in for absent
/// ones, resolved against its directory.
pub open spec fn run_paths(
    opts: TranslateOptions,
    cfg: Option<TranslateConfig>,
    dir: Option<Seq<char>>,
    n_sources: nat,
) -> (Option<Seq<char>>, Option<Seq<char>>) {
    let cfg_target = match cfg {
        Some(c) => match output_table(c) {
            Some(t) => or_else(opt_view(t.target), opt_view(c.target)),
            None => opt_view(c.target),
        },
        None => None,
    };
    let cfg_output = match cfg {
        Some(c) => match c.output {
            Some(TranslateOutputScope::Path(p)) => Some(p@),
            Some(TranslateOutputScope::Config(t)) => opt_view(t.path),
            None => None,
        },
        None => None,
    };
    if n_sources == 1 {
        (
            or_else(opt_view(opts.target), match cfg_target {
                Some(t) => Some(config_relative(dir, t)),
                None => None,
            }),
            or_else(opt_view(opts.output), match cfg_output {
                Some(t) => Some(config_relative(dir, t)),
                None => None,
            }),
        )
    } else {
        (opt_view(opts.target), opt_view(opts.output))
    }
}

fn dup_str_opt(o: &Option<String>) -> (r: Option<String>)
    ensures
        r == *o,
{
    match o {
        Some(s) => Some(s.clone()),
        None => None,
    }
}

/// One run: the command's options with the given source, target language,
/// target and output.
fn run_options(
    opts: &TranslateOptions,
    source: String,
    target_lang: Option<String>,
    target: &Option<String>,
    output: &Option<String>,
) -> (r: TranslateOptions)
    ensures
        r.source@ == source@,
        opt_view(r.target_lang) == opt_view(target_lang),
        opt_view(r.target) == opt_view(*target),
        opt_view(r.output) == opt_view(*output),
        r.source_lang == opts.source_lang,
        r.status == opts.status,
        r.provider == opts.provider,
        r.model == opts.model,
        r.concurrency == opts.concurrency,
        r.config == opts.config,
        r.dry_run == opts.dry_run,
        r.strict == opts.strict,
{
    TranslateOptions {
        source,
        target: dup_str_opt(target),
        output: dup_str_opt(output),
        source_lang: dup_str_opt(&opts.source_lang),
        target_lang,
        status: dup_str_opt(&opts.status),
        provider: dup_str_opt(&opts.provider),
        model: dup_str_opt(&opts.model),
        concurrency: opts.concurrency,
        config: dup_str_opt(&opts.config),
        dry_run: opts.dry_run,
        strict: opts.strict,
    }
}

/// The translate runs a command asks for: one per source file and target
/// language (see `requested_sources`, `requested_target_langs`, `all_runs`
/// and `run_paths`); no source at all is an error.
pub fn expand_translate_invocations(opts: &TranslateOptions, config: Option<&LoadedConfig>) -> (r: Result<
    Vec<TranslateOptions>,
    String,
>)
    ensures
        ({
            let cfg = match config {
                Some(c) => Some(c.data.translate),
                None => None,
            };
            let dir = match config {
                Some(c) => crate::paths::parent_path(c.path@),
                None => None,
            };
            match requested_sources(opts.source@, cfg, dir) {
                None => r matches Err(e) && e@
                    == "--source is required (or set translate.source or translate.sources in langcodec.toml)"@,
                Some(sources) => r matches Ok(v) && {
                    let runs = all_runs(sources, requested_target_langs(opt_view(opts.target_lang), cfg));
                    let paths = run_paths(*opts, cfg, dir, sources.len());
                    &&& v.len() == runs.len()
                    &&& forall|k: int|
                        0 <= k < v.len() ==> is_run(#[trigger] v@[k], *opts, runs[k], paths.0, paths.1)
                },
            }
        }),
{
    let cfg: Option<&TranslateConfig> = match config {
        Some(c) => Some(&c.data.translate),
        None => None,
    };
    let ghost cfgv = match config {
        Some(c) => Some(c.data.translate),
        None => None,
    };
    let dir_owned: Option<String> = match config {
        Some(c) => c.config_dir(),
        None => None,
    };
    let dir: Option<&str> = match &dir_owned {
        Some(d) => Some(d.as_str()),
        None => None,
    };
    let ghost dirv = match config {
        Some(c) => crate::paths::parent_path(c.path@),
        None => None,
    };
    proof {
        assert(crate::config::opt_str_view(dir) == dirv);
    }
    let mut sources: Vec<String> = Vec::new();
    if opts.source.as_str().unicode_len() > 0 {
        sources.push(opts.source.clone());
        proof {
            assert(strings_view(sources@) =~= seq![opts.source@]);
        }
    } else {
        let c = match cfg {
            Some(c) => c,
            None => {
                return Err(
                    owned("--source is required (or set translate.source or translate.sources in langcodec.toml)"),
                );
            },
        };
        let many: Option<&Vec<String>> = c.resolved_sources();
        let use_many = match many {
            Some(v) => v.len() > 0,
            None => false,
        };
        if use_many {
            let v = match many {
                Some(v) => v,
                None => {
                    proof {
                        assert(false);
                    }
                    return Err(String::new());
                },
            };
            let ghost f = |p: Seq<char>| config_relative(dirv, p);
            let mut i: usize = 0;
            while i < v.len()
                invariant
                    i <= v.len(),
                    crate::config::opt_str_view(dir) == dirv,
                    f == (|p: Seq<char>| config_relative(dirv, p)),
                    strings_view(sources@) == strings_view(v@).take(i as int).map_values(f),
                decreases v.len() - i,
            {
                let ghost s0 = strings_view(sources@);
                let p = resolve_config_relative_path(dir, v[i].as_str());
                sources.push(p);
                proof {
                    assert(strings_view(sources@) =~= s0.push(f(v@[i as int]@)));
                    assert(strings_view(v@).take(i + 1).map_values(f) =~= strings_view(v@).take(i as int).map_values(f).push(
                        f(v@[i as int]@),
                    ));
                }
                i = i + 1;
            }
            proof {
                assert(strings_view(v@).take(i as int) =~= strings_view(v@));
            }
        } else {
            match c.resolved_source() {
                Some(one) => {
                    let p = resolve_config_relative_path(dir, one);
                    sources.push(p);
                    proof {
                        assert(strings_view(sources@) =~= seq![config_relative(dirv, one@)]);
                    }
                },
                None => {
                    return Err(
                        owned("--source is required (or set translate.source or translate.sources in langcodec.toml)"),
                    );
                },
            }
        }
    }
    let langs: Vec<String> = match &opts.target_lang {
        Some(t) => comma_tokens(t.as_str()),
        None => match cfg {
            Some(c) => match c.resolved_target_langs() {
                Some(v) => crate::annotate::copy_strings(v),
                None => Vec::new(),
            },
            None => Vec::new(),
        },
    };
    proof {
        match cfgv {
            Some(cv) => {
                assert(strings_view(langs@) == requested_target_langs(opt_view(opts.target_lang), cfgv));
            },
            None => {
                assert(strings_view(langs@) == requested_target_langs(opt_view(opts.target_lang), cfgv));
            },
        }
    }
    let (target, output) = if sources.len() == 1 {
        let cfg_target: Option<String> = match cfg {
            Some(c) => match c.resolved_target() {
                Some(t) => Some(resolve_config_relative_path(dir, t)),
                None => None,
            },
            None => None,
        };
        let cfg_output: Option<String> = match cfg {
            Some(c) => match c.resolved_output_path() {
                Some(t) => Some(resolve_config_relative_path(dir, t)),
                None => None,
            },
            None => None,
        };
        let t = match &opts.target {
            Some(t) => Some(t.clone()),
            None => cfg_target,
        };
        let o = match &opts.output {
            Some(o) => Some(o.clone()),
            None => cfg_output,
        };
        (t, o)
    } else {
        (dup_str_opt(&opts.target), dup_str_opt(&opts.output))
    };
    let ghost paths = run_paths(*opts, cfgv, dirv, sources.len() as nat);
    proof {
        assert(opt_view(target) == paths.0);
        assert(opt_view(output) == paths.1);
    }
    let ghost sv = strings_view(sources@);
    let ghost lv = strings_view(langs@);
    let mut runs: Vec<TranslateOptions> = Vec::new();
    let mut i: usize = 0;
    while i < sources.len()
        invariant
            i <= sources.len(),
            sv == strings_view(sources@),
            lv == strings_view(langs@),
            opt_view(target) == paths.0,
            opt_view(output) == paths.1,
            runs.len() == all_runs(sv.take(i as int), lv).len(),
            forall|k: int|
                0 <= k < runs.len() ==> is_run(#[trigger] runs@[k], *opts, all_runs(sv.take(i as int), lv)[k], paths.0, paths.1),
        decreases sources.len() - i,
    {
        let ghost before = runs@;
        let ghost prefix = all_runs(sv.take(i as int), lv);
        proof {
            assert(sv.take(i + 1).drop_last() =~= sv.take(i as int));
            assert(sv.take(i + 1).last() == sources@[i as int]@);
            assert(all_runs(sv.take(i + 1), lv) == prefix + runs_for(sources@[i as int]@, lv));
        }
        if langs.len() == 0 {
            let run = run_options(opts, sources[i].clone(), dup_str_opt(&opts.target_lang), &target, &output);
            runs.push(run);
            proof {
                let whole = prefix + runs_for(sources@[i as int]@, lv);
                assert forall|k: int| 0 <= k < runs.len() implies is_run(#[trigger] runs@[k], *opts, whole[k], paths.0, paths.1) by {
                    if k < before.len() {
                        assert(runs@[k] == before[k]);
                        assert(whole[k] == prefix[k]);
                    }
                }
            }
        } else {
            let mut j: usize = 0;
            while j < langs.len()
                invariant
                    i < sources.len(),
                    j <= langs.len(),
                    langs.len() > 0,
                    sv == strings_view(sources@),
                    lv == strings_view(langs@),
                    opt_view(target) == paths.0,
                    opt_view(output) == paths.1,
                    prefix == all_runs(sv.take(i as int), lv),
                    runs.len() == prefix.len() + j,
                    forall|k: int|
                        0 <= k < runs.len() ==> is_run(
                            #[trigger] runs@[k],
                            *opts,
                            (prefix + runs_for(sources@[i as int]@, lv))[k],
                            paths.0,
                            paths.1,
                        ),
                decreases langs.len() - j,
            {
                let ghost b2 = runs@;
                let run = run_options(opts, sources[i].clone(), Some(langs[j].clone()), &target, &output);
                runs.push(run);
                proof {
                    let whole = prefix + runs_for(sources@[i as int]@, lv);
                    assert(whole[prefix.len() + j] == (sources@[i as int]@, Some(langs@[j as int]@)));
                    assert forall|k: int| 0 <= k < runs.len() implies is_run(#[trigger] runs@[k], *opts, whole[k], paths.0, paths.1) by {
                        if k < b2.len() {
                            assert(runs@[k] == b2[k]);
                        }
                    }
                }
                j = j + 1;
            }
        }
        i = i + 1;
    }
    proof {
        assert(sv.take(sources.len() as int) =~= sv);
    }
    Ok(runs)
}

/// The first entry of `key`, when there is one, has that key and comes
/// after none other with it; without one, no entry has the key.
pub proof fn lemma_first_entry_found(es: Seq<EntryView>, key: Seq<char>)
    ensures
        match first_entry(es, key) {
            Some(j) => 0 <= j < es.len() && es[j].id == key && forall|k: int| 0 <= k < j ==> #[trigger] es[k].id != key,
            None => forall|k: int| 0 <= k < es.len() ==> #[trigger] es[k].id != key,
        },
    decreases es.len(),
{
    if es.len() > 0 {
        lemma_first_entry_found(es.drop_first(), key);
        assert forall|k: int| 1 <= k < es.len() implies es[k] == #[trigger] es.drop_first()[k - 1] by {}
        if es[0].id != key {
            match first_entry(es.drop_first(), key) {
                Some(j) => {
                    assert forall|k: int| 0 <= k < j + 1 implies #[trigger] es[k].id != key by {
                        if k > 0 {
                            assert(es[k] == es.drop_first()[k - 1]);
                        }
                    }
                },
                None => {
                    assert forall|k: int| 0 <= k < es.len() implies #[trigger] es[k].id != key by {
                        if k > 0 {
                            assert(es[k] == es.drop_first()[k - 1]);
                        }
                    }
                },
            }
        }
    }
}

/// The first resource of `lang`, when there is one, has that language and
/// comes after none other with it.
pub proof fn lemma_first_lang_found(rs: Seq<ResourceView>, lang: Seq<char>)
    ensures
        match first_lang(rs, lang) {
            Some(i) => 0 <= i < rs.len() && rs[i].metadata.language == lang,
            None => true,
        },
    decreases rs.len(),
{
    if rs.len() > 0 && rs[0].metadata.language != lang {
        lemma_first_lang_found(rs.drop_first(), lang);
        match first_lang(rs.drop_first(), lang) {
            Some(i) => {
                assert(rs[i + 1] == rs.drop_first()[i]);
            },
            None => {},
        }
    }
}

/// A translation that came back is what a lookup reads back: once the
/// result of a job is written, the entry that the catalog finds for the
/// job's key in the target language holds the translation, marked for
/// review.
pub proof fn law_translation_lands_in_target(
    rs: Seq<ResourceView>,
    job: TranslationJob,
    lang: Seq<char>,
    results: Seq<(Seq<char>, Seq<char>)>,
)
    requires
        first_lang(rs, lang) is Some,
        crate::model::assoc_get(results, job.key@) is Some,
    ensures
        ({
            let rs2 = apply_result(rs, job, lang, results);
            &&& codec_find(rs2, job.key@, lang) is Some
            &&& ({
                let (i, j) = codec_find(rs2, job.key@, lang)->0;
                &&& rs2[i].entries[j].value == TranslationView::Singular(
                    crate::model::assoc_get(results, job.key@)->0,
                )
                &&& rs2[i].entries[j].status == EntryStatus::NeedsReview
            })
        }),
{
    let v = crate::model::assoc_get(results, job.key@)->0;
    let key = job.key@;
    let rs2 = apply_result(rs, job, lang, results);
    lemma_first_lang_found(rs, lang);
    let i = first_lang(rs, lang)->0;
    assert(rs2.len() == rs.len());
    assert forall|k: int| 0 <= k < rs.len() implies #[trigger] rs2[k].metadata.language == rs[k].metadata.language by {}
    lemma_first_lang_same_languages(rs2, rs, lang);
    let es = rs[i].entries;
    lemma_first_entry_found(es, key);
    match codec_find(rs, key, lang) {
        Some((i0, j)) => {
            let es2 = es.update(j, reviewed_entry(es[j], v));
            assert(rs2[i].entries == es2);
            assert forall|k: int| 0 <= k < j implies #[trigger] es2[k].id != key by {
                assert(es2[k] == es[k]);
            }
            lemma_first_entry(es2, key, j);
        },
        None => {
            let es2 = es.push(added_entry(job, v));
            assert(rs2[i].entries == es2);
            assert forall|k: int| 0 <= k < es.len() implies #[trigger] es2[k].id != key by {
                assert(es2[k] == es[k]);
            }
            lemma_first_entry(es2, key, es.len() as int);
        },
    }
}


/// Where the target format records no statuses, an entry's text decides
/// its status: a singular text that is not blank once trimmed, or a
/// plural, counts as translated; an empty or blank value counts as new.
/// Where it records them, the entry's own status counts.
pub proof fn law_unrecorded_status_follows_text(e: EntryView)
    ensures
        effective_status(e, true) == e.status,
        e.value matches TranslationView::Singular(t) ==> (effective_status(e, false) == EntryStatus::Translated
            <==> trim_seq(t).len() > 0),
        e.value matches TranslationView::Singular(t) ==> (effective_status(e, false) == EntryStatus::New <==> trim_seq(
            t,
        ).len() == 0),
        e.value is Plural ==> effective_status(e, false) == EntryStatus::Translated,
        e.value is Empty ==> effective_status(e, false) == EntryStatus::New,
{
}

/// An existing translation is kept: where the target format records no
/// statuses, a source entry whose target already holds a non-blank text is
/// not queued unless translated entries were asked for; it is skipped by
/// the status filter (when neither side is marked do-not-translate).
pub proof fn law_existing_translation_is_kept(
    e: EntryView,
    target: Seq<ResourceView>,
    lang: Seq<char>,
    statuses: Seq<EntryStatus>,
)
    requires
        e.value matches TranslationView::Singular(s) && trim_seq(s).len() > 0,
        e.status != EntryStatus::DoNotTranslate,
        target_entry(target, e.id, lang) matches Some(x) && x.status != EntryStatus::DoNotTranslate && (
        x.value matches TranslationView::Singular(t) && trim_seq(t).len() > 0),
        !statuses.contains(EntryStatus::Translated),
    ensures
        job_class(e, target, lang, statuses, false) == JobClass::StatusFiltered,
{
}

} // verus!
