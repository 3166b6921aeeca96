//! Syncing translations from a source catalog into a target catalog. Each
//! target entry is paired with a source key, by its own key or, failing that,
//! through the text it has in the match language; the source value for the
//! target's language then replaces the target value when both are of the same
//! kind.
use crate::lang::{base_lang, lang_base, lang_match, lang_matches, norm_lang, normalize_lang};
use crate::model::{
    assoc_get, pairs_view, resources_view, same_kind_spec, Entry, EntryView, Resource, ResourceView,
    Translation, TranslationView,
};
use crate::text::{strings_view, decimal, decimal_string, owned, push_str, str_eq, trim, trim_seq};
use vstd::prelude::*;

verus! {

/// What the sync command was asked to do.
#[derive(Debug, Clone)]
pub struct SyncOptions {
    pub source: String,
    pub target: String,
    pub output: Option<String>,
    pub lang: Option<String>,
    pub match_lang: Option<String>,
    pub report_json: Option<String>,
    pub fail_on_unmatched: bool,
    pub fail_on_ambiguous: bool,
    pub strict: bool,
    pub dry_run: bool,
}

/// What happened to the target entries.
#[derive(Debug, Clone, Copy, Default, PartialEq, Eq, Structural)]
pub struct SyncStats {
    pub total_entries: usize,
    pub updated: usize,
    pub unchanged: usize,
    pub fallback_matches: usize,
    pub skipped_unmatched: usize,
    pub skipped_missing_language: usize,
    pub skipped_ambiguous_fallback: usize,
    pub skipped_type_mismatch: usize,
}

/// One planned or applied update: in `language`, `key` takes the value of
/// source key `source_key`.
#[derive(Debug, Clone)]
pub struct SyncUpdate {
    pub language: String,
    pub key: String,
    pub source_key: String,
}

/// The result of syncing: the statistics, how many target languages were
/// processed, and the updates in the order they were made.
#[derive(Debug, Clone)]
pub struct SyncReport {
    pub stats: SyncStats,
    pub processed_languages: usize,
    pub updates: Vec<SyncUpdate>,
}

/// What becomes of one target entry.
pub enum SyncOutcome {
    Ambiguous,
    Unmatched,
    MissingLanguage,
    TypeMismatch,
    Unchanged,
    Update { source_key: Seq<char>, value: TranslationView, fallback: bool },
}

/// The value of the last entry with id `key`.
pub open spec fn value_in_entries(es: Seq<EntryView>, key: Seq<char>) -> Option<TranslationView>
    decreases es.len(),
{
    if es.len() == 0 {
        None
    } else if es.last().id == key {
        Some(es.last().value)
    } else {
        value_in_entries(es.drop_last(), key)
    }
}

/// The value that the source gives `key` in the normalized language `l`:
/// the last one written, resources and entries taken in order.
pub open spec fn value_exact(src: Seq<ResourceView>, key: Seq<char>, l: Seq<char>) -> Option<
    TranslationView,
>
    decreases src.len(),
{
    if src.len() == 0 {
        None
    } else if norm_lang(src.last().metadata.language) == l && value_in_entries(
        src.last().entries,
        key,
    ) is Some {
        value_in_entries(src.last().entries, key)
    } else {
        value_exact(src.drop_last(), key, l)
    }
}

/// Whether any source resource has an entry `key`.
pub open spec fn source_has_key(src: Seq<ResourceView>, key: Seq<char>) -> bool {
    exists|i: int| 0 <= i < src.len() && value_in_entries(#[trigger] src[i].entries, key) is Some
}

/// A normalized language with a value for `key` and the same primary
/// subtag as `t`.
pub open spec fn base_candidate(src: Seq<ResourceView>, key: Seq<char>, t: Seq<char>, l: Seq<
    char,
>) -> bool {
    value_exact(src, key, l) is Some && base_lang(l) == base_lang(t)
}

/// The value that the source gives `key` for the target language `target`:
/// the value in that exact language, otherwise the value in the one language
/// that shares its primary subtag, otherwise none (also when several do).
pub open spec fn source_value(src: Seq<ResourceView>, key: Seq<char>, target: Seq<char>) -> Option<
    TranslationView,
> {
    let t = norm_lang(target);
    if value_exact(src, key, t) is Some {
        value_exact(src, key, t)
    } else if exists|l: Seq<char>|
        base_candidate(src, key, t, l) && (forall|m: Seq<char>|
            base_candidate(src, key, t, m) ==> m == l) {
        value_exact(src, key, choose|l: Seq<char>| base_candidate(src, key, t, l))
    } else {
        None
    }
}

/// The first resource whose language matches `lang`.
pub open spec fn pick_resource(rs: Seq<ResourceView>, lang: Seq<char>) -> Option<int>
    decreases rs.len(),
{
    if rs.len() == 0 {
        None
    } else if lang_match(rs[0].metadata.language, lang) {
        Some(0)
    } else {
        match pick_resource(rs.drop_first(), lang) {
            Some(i) => Some(i + 1),
            None => None,
        }
    }
}

/// The text of a non-empty singular value.
pub open spec fn token_of(v: TranslationView) -> Option<Seq<char>> {
    match v {
        TranslationView::Singular(s) => if s.len() > 0 {
            Some(s)
        } else {
            None
        },
        _ => None,
    }
}

/// The source keys whose value in the match language is `token`, each once,
/// in the order they first appear.
pub open spec fn alias_candidates(es: Seq<EntryView>, token: Seq<char>) -> Seq<Seq<char>>
    decreases es.len(),
{
    if es.len() == 0 {
        Seq::empty()
    } else {
        let prev = alias_candidates(es.drop_last(), token);
        if token_of(es.last().value) == Some(token) && !prev.contains(es.last().id) {
            prev.push(es.last().id)
        } else {
            prev
        }
    }
}

/// The text of the last entry `key` of the match-language target resource
/// that has a non-empty singular value.
pub open spec fn target_token(es: Seq<EntryView>, key: Seq<char>) -> Option<Seq<char>>
    decreases es.len(),
{
    if es.len() == 0 {
        None
    } else if es.last().id == key && token_of(es.last().value) is Some {
        token_of(es.last().value)
    } else {
        target_token(es.drop_last(), key)
    }
}

/// The keys among `keys` for which the source has a value for `target`, in
/// order.
pub open spec fn keys_with_value(src: Seq<ResourceView>, keys: Seq<Seq<char>>, target: Seq<char>) -> Seq<
    Seq<char>,
>
    decreases keys.len(),
{
    if keys.len() == 0 {
        Seq::empty()
    } else {
        let prev = keys_with_value(src, keys.drop_last(), target);
        if source_value(src, keys.last(), target) is Some {
            prev.push(keys.last())
        } else {
            prev
        }
    }
}

/// Resolving an alias: `None` when nothing answers to it, `Some(Ok(k))` when
/// key `k` does, `Some(Err(()))` when it is ambiguous.
pub open spec fn resolve_alias(
    src: Seq<ResourceView>,
    alias_entries: Seq<EntryView>,
    alias: Seq<char>,
    target: Seq<char>,
) -> Option<Result<Seq<char>, ()>> {
    let c = alias_candidates(alias_entries, alias);
    if c.len() == 0 {
        None
    } else if c.len() == 1 {
        Some(Ok(c[0]))
    } else {
        let f = keys_with_value(src, c, target);
        if f.len() == 1 {
            Some(Ok(f[0]))
        } else {
            Some(Err(()))
        }
    }
}

/// The source key paired with a target key, and whether it was found by its
/// own key (`Ok((k, false))`), through an alias (`Ok((k, true))`), not at all
/// (`Err(false)`) or ambiguously (`Err(true)`).
pub open spec fn find_source_key(
    src: Seq<ResourceView>,
    alias_entries: Seq<EntryView>,
    target_key: Seq<char>,
    target_lang: Seq<char>,
    token: Option<Seq<char>>,
) -> Result<(Seq<char>, bool), bool> {
    if source_has_key(src, target_key) {
        Ok((target_key, false))
    } else {
        match resolve_alias(src, alias_entries, target_key, target_lang) {
            Some(Ok(k)) => Ok((k, true)),
            Some(Err(_)) => Err(true),
            None => match token {
                Some(t) => match resolve_alias(src, alias_entries, t, target_lang) {
                    Some(Ok(k)) => Ok((k, true)),
                    Some(Err(_)) => Err(true),
                    None => Err(false),
                },
                None => Err(false),
            },
        }
    }
}

/// What becomes of a target entry `e` in language `target_lang`.
pub open spec fn entry_outcome(
    src: Seq<ResourceView>,
    alias_entries: Seq<EntryView>,
    token_entries: Seq<EntryView>,
    target_lang: Seq<char>,
    e: EntryView,
) -> SyncOutcome {
    match find_source_key(
        src,
        alias_entries,
        e.id,
        target_lang,
        target_token(token_entries, e.id),
    ) {
        Err(true) => SyncOutcome::Ambiguous,
        Err(false) => SyncOutcome::Unmatched,
        Ok((k, fallback)) => match source_value(src, k, target_lang) {
            None => SyncOutcome::MissingLanguage,
            Some(v) => if !same_kind_spec(e.value, v) {
                SyncOutcome::TypeMismatch
            } else if e.value == v {
                SyncOutcome::Unchanged
            } else {
                SyncOutcome::Update { source_key: k, value: v, fallback }
            },
        },
    }
}


/// Whether one of the first `i` resources is in normalized language `m`, has
/// an entry `key`, and shares the primary subtag of `t`.
pub open spec fn lang_seen(rv: Seq<ResourceView>, key: Seq<char>, t: Seq<char>, i: int, m: Seq<
    char,
>) -> bool {
    exists|k: int|
        0 <= k < i && norm_lang(rv[k].metadata.language) == m && value_in_entries(
            #[trigger] rv[k].entries,
            key,
        ) is Some && base_lang(m) == base_lang(t)
}

proof fn lemma_seen_step(rv: Seq<ResourceView>, key: Seq<char>, t: Seq<char>, i: int, m: Seq<
    char,
>)
    requires
        0 <= i < rv.len(),
    ensures
        lang_seen(rv, key, t, i + 1, m) <==> (lang_seen(rv, key, t, i, m) || (norm_lang(
            rv[i].metadata.language,
        ) == m && value_in_entries(rv[i].entries, key) is Some && base_lang(m) == base_lang(t))),
{
    if lang_seen(rv, key, t, i + 1, m) {
        let k = choose|k: int|
            0 <= k < i + 1 && norm_lang(rv[k].metadata.language) == m && value_in_entries(
                #[trigger] rv[k].entries,
                key,
            ) is Some && base_lang(m) == base_lang(t);
        if k < i {
            assert(lang_seen(rv, key, t, i, m));
        }
    }
    if lang_seen(rv, key, t, i, m) {
        let k = choose|k: int|
            0 <= k < i && norm_lang(rv[k].metadata.language) == m && value_in_entries(
                #[trigger] rv[k].entries,
                key,
            ) is Some && base_lang(m) == base_lang(t);
        assert(lang_seen(rv, key, t, i + 1, m));
    }
    if norm_lang(rv[i].metadata.language) == m && value_in_entries(rv[i].entries, key) is Some
        && base_lang(m) == base_lang(t) {
        assert(lang_seen(rv, key, t, i + 1, m));
    }
}

proof fn lemma_value_in_entries_some(es: Seq<EntryView>, key: Seq<char>)
    ensures
        value_in_entries(es, key) is Some <==> exists|j: int| 0 <= j < es.len() && es[j].id == key,
    decreases es.len(),
{
    if es.len() > 0 {
        lemma_value_in_entries_some(es.drop_last(), key);
        if es.last().id != key && value_in_entries(es.drop_last(), key) is None {
            assert forall|j: int| 0 <= j < es.len() implies es[j].id != key by {
                if j < es.len() - 1 {
                    assert(es.drop_last()[j] == es[j]);
                }
            }
        }
        if value_in_entries(es.drop_last(), key) is Some {
            let j = choose|j: int| 0 <= j < es.drop_last().len() && es.drop_last()[j].id == key;
            assert(es[j].id == key);
        }
    }
}

proof fn lemma_value_exact_some(src: Seq<ResourceView>, key: Seq<char>, l: Seq<char>)
    ensures
        value_exact(src, key, l) is Some <==> exists|i: int|
            0 <= i < src.len() && norm_lang(src[i].metadata.language) == l && value_in_entries(
                #[trigger] src[i].entries,
                key,
            ) is Some,
    decreases src.len(),
{
    if src.len() > 0 {
        lemma_value_exact_some(src.drop_last(), key, l);
        let last = src.len() - 1;
        if value_exact(src.drop_last(), key, l) is Some {
            let i = choose|i: int|
                0 <= i < src.drop_last().len() && norm_lang(src.drop_last()[i].metadata.language)
                    == l && value_in_entries(#[trigger] src.drop_last()[i].entries, key) is Some;
            assert(src[i] == src.drop_last()[i]);
        }
        if !(norm_lang(src.last().metadata.language) == l && value_in_entries(
            src.last().entries,
            key,
        ) is Some) && value_exact(src.drop_last(), key, l) is None {
            assert forall|i: int|
                0 <= i < src.len() && norm_lang(src[i].metadata.language) == l implies value_in_entries(
                #[trigger] src[i].entries,
                key,
            ) is None by {
                if i < last {
                    assert(src.drop_last()[i] == src[i]);
                }
            }
        }
    }
}

/// The position of the last entry with id `key`.
pub fn last_entry_with_id(entries: &Vec<Entry>, key: &str) -> (r: Option<usize>)
    ensures
        match r {
            Some(j) => j < entries.len() && entries@[j as int].id@ == key@ && value_in_entries(
                crate::model::entries_view(entries@),
                key@,
            ) == Some(entries@[j as int].value@),
            None => value_in_entries(crate::model::entries_view(entries@), key@) is None,
        },
{
    let ghost ev = crate::model::entries_view(entries@);
    let mut j: usize = entries.len();
    proof {
        assert(ev.take(j as int) =~= ev);
    }
    while j > 0
        invariant
            j <= entries.len(),
            ev == crate::model::entries_view(entries@),
            value_in_entries(ev, key@) == value_in_entries(ev.take(j as int), key@),
        decreases j,
    {
        proof {
            assert(ev.take(j as int).drop_last() =~= ev.take(j - 1));
        }
        if str_eq(entries[j - 1].id.as_str(), key) {
            return Some(j - 1);
        }
        j = j - 1;
    }
    None
}

/// The position of the value the source gives `key` in the normalized
/// language `l` (see `value_exact`).
pub fn find_exact(src: &Vec<Resource>, key: &str, l: &str) -> (r: Option<(usize, usize)>)
    ensures
        match r {
            Some((i, j)) => i < src.len() && j < src@[i as int].entries.len() && value_exact(
                resources_view(src@),
                key@,
                l@,
            ) == Some(src@[i as int].entries@[j as int].value@) && src@[i as int].entries@[j as int].id@ == key@,
            None => value_exact(resources_view(src@), key@, l@) is None,
        },
{
    let ghost rv = resources_view(src@);
    let mut i: usize = src.len();
    proof {
        assert(rv.take(i as int) =~= rv);
    }
    while i > 0
        invariant
            i <= src.len(),
            rv == resources_view(src@),
            value_exact(rv, key@, l@) == value_exact(rv.take(i as int), key@, l@),
        decreases i,
    {
        proof {
            assert(rv.take(i as int).drop_last() =~= rv.take(i - 1));
            assert(rv.take(i as int).last() == src@[i - 1]@);
        }
        let lang = normalize_lang(src[i - 1].metadata.language.as_str());
        if str_eq(lang.as_str(), l) {
            if let Some(j) = last_entry_with_id(&src[i - 1].entries, key) {
                return Some((i - 1, j));
            }
        }
        i = i - 1;
    }
    None
}

/// Whether any source resource has an entry `key`.
pub fn has_key(src: &Vec<Resource>, key: &str) -> (r: bool)
    ensures
        r == source_has_key(resources_view(src@), key@),
{
    let ghost rv = resources_view(src@);
    let mut i: usize = 0;
    while i < src.len()
        invariant
            i <= src.len(),
            rv == resources_view(src@),
            forall|k: int| 0 <= k < i ==> value_in_entries(#[trigger] rv[k].entries, key@) is None,
        decreases src.len() - i,
    {
        if last_entry_with_id(&src[i].entries, key).is_some() {
            proof {
                assert(value_in_entries(rv[i as int].entries, key@) is Some);
            }
            return true;
        }
        i = i + 1;
    }
    false
}

/// The position of the value that the source gives `key` for the target
/// language `target` (see `source_value`).
pub fn lookup_source_value(src: &Vec<Resource>, key: &str, target: &str) -> (r: Option<
    (usize, usize),
>)
    ensures
        match r {
            Some((i, j)) => i < src.len() && j < src@[i as int].entries.len() && source_value(
                resources_view(src@),
                key@,
                target@,
            ) == Some(src@[i as int].entries@[j as int].value@),
            None => source_value(resources_view(src@), key@, target@) is None,
        },
{
    let ghost rv = resources_view(src@);
    let t = normalize_lang(target);
    if let Some(pos) = find_exact(src, key, t.as_str()) {
        return Some(pos);
    }
    let tb = lang_base(t.as_str());
    let mut found: Vec<String> = Vec::new();
    let mut i: usize = 0;
    while i < src.len()
        invariant
            i <= src.len(),
            rv == resources_view(src@),
            t@ == norm_lang(target@),
            tb@ == base_lang(t@),
            strings_view(found@).no_duplicates(),
            forall|m: Seq<char>|
                #![trigger lang_seen(rv, key@, t@, i as int, m)]
                #![trigger strings_view(found@).contains(m)]
                lang_seen(rv, key@, t@, i as int, m) <==> strings_view(found@).contains(m),
        decreases src.len() - i,
    {
        let ghost fv = strings_view(found@);
        let ghost li = norm_lang(rv[i as int].metadata.language);
        let ghost qual = value_in_entries(rv[i as int].entries, key@) is Some && base_lang(li)
            == base_lang(t@);
        let has = last_entry_with_id(&src[i].entries, key).is_some();
        let l = normalize_lang(src[i].metadata.language.as_str());
        let b = lang_base(l.as_str());
        if has && str_eq(b.as_str(), tb.as_str()) {
            let mut seen = false;
            let mut k: usize = 0;
            while k < found.len()
                invariant
                    k <= found.len(),
                    seen == exists|q: int| 0 <= q < k && found@[q]@ == l@,
                decreases found.len() - k,
            {
                if str_eq(found[k].as_str(), l.as_str()) {
                    seen = true;
                }
                k = k + 1;
            }
            if !seen {
                found.push(l);
                proof {
                    assert(strings_view(found@) =~= fv.push(li));
                    assert forall|q: int| 0 <= q < fv.len() implies fv[q] != li by {
                        assert(found@[q]@ == fv[q]);
                    }
                    assert forall|m: Seq<char>|
                        strings_view(found@).contains(m) <==> (fv.contains(m) || m == li) by {
                        if m == li {
                            assert(strings_view(found@)[fv.len() as int] == li);
                        }
                        if fv.contains(m) {
                            let q = choose|q: int| 0 <= q < fv.len() && fv[q] == m;
                            assert(strings_view(found@)[q] == m);
                        }
                    }
                }
            } else {
                proof {
                    let q = choose|q: int| 0 <= q < k && found@[q]@ == l@;
                    assert(fv[q] == li);
                }
            }
        }
        proof {
            let fv2 = strings_view(found@);
            assert(has == (value_in_entries(rv[i as int].entries, key@) is Some));
            assert forall|m: Seq<char>| fv2.contains(m) <==> (fv.contains(m) || (qual && m == li))
                by {
                if qual && m == li && fv2 == fv {
                    assert(fv.contains(li));
                }
            }
            assert forall|m: Seq<char>|
                lang_seen(rv, key@, t@, i + 1, m) <==> fv2.contains(m) by {
                lemma_seen_step(rv, key@, t@, i as int, m);
            }
        }
        i = i + 1;
    }
    let ghost fv = strings_view(found@);
    proof {
        assert forall|m: Seq<char>| base_candidate(rv, key@, t@, m) <==> fv.contains(m) by {
            lemma_value_exact_some(rv, key@, m);
            assert(lang_seen(rv, key@, t@, rv.len() as int, m) <==> fv.contains(m));
            if base_candidate(rv, key@, t@, m) {
                let k = choose|k: int|
                    0 <= k < rv.len() && norm_lang(rv[k].metadata.language) == m && value_in_entries(
                        #[trigger] rv[k].entries,
                        key@,
                    ) is Some;
                assert(lang_seen(rv, key@, t@, rv.len() as int, m));
            }
        }
    }
    if found.len() == 1 {
        proof {
            assert(fv.contains(fv[0]));
            assert(base_candidate(rv, key@, t@, fv[0]));
            assert forall|m: Seq<char>| base_candidate(rv, key@, t@, m) implies m == fv[0] by {
                assert(fv.contains(m));
            }
            let c = choose|l: Seq<char>| base_candidate(rv, key@, t@, l);
            assert(c == fv[0]);
        }
        let pos = find_exact(src, key, found[0].as_str());
        proof {
            assert(fv[0] == found@[0]@);
        }
        return pos;
    }
    proof {
        if found.len() == 0 {
            assert forall|m: Seq<char>| !base_candidate(rv, key@, t@, m) by {
                assert(!fv.contains(m));
            }
        } else {
            assert(fv[0] != fv[1]);
            assert forall|l: Seq<char>| base_candidate(rv, key@, t@, l) implies !(forall|
                m: Seq<char>,
            | base_candidate(rv, key@, t@, m) ==> m == l) by {
                assert(fv.contains(fv[0]));
                assert(fv.contains(fv[1]));
                assert(base_candidate(rv, key@, t@, fv[0]));
                assert(base_candidate(rv, key@, t@, fv[1]));
            }
        }
    }
    None
}


/// The position of the first resource whose language matches `lang`.
pub fn pick_language_resource(rs: &Vec<Resource>, lang: &str) -> (r: Option<usize>)
    ensures
        match r {
            Some(i) => pick_resource(resources_view(rs@), lang@) == Some(i as int) && i < rs.len(),
            None => pick_resource(resources_view(rs@), lang@) is None,
        },
{
    let ghost rv = resources_view(rs@);
    let mut i: usize = 0;
    proof {
        assert(rv.subrange(0, rv.len() as int) =~= rv);
    }
    while i < rs.len()
        invariant
            i <= rs.len(),
            rv == resources_view(rs@),
            pick_resource(rv, lang@) == match pick_resource(rv.subrange(i as int, rv.len() as int), lang@) {
                Some(k) => Some(k + i),
                None => None::<int>,
            },
        decreases rs.len() - i,
    {
        proof {
            assert(rv.subrange(i as int, rv.len() as int).drop_first() =~= rv.subrange(i + 1, rv.len() as int));
            assert(rv.subrange(i as int, rv.len() as int)[0] == rs@[i as int]@);
        }
        if lang_matches(rs[i].metadata.language.as_str(), lang) {
            return Some(i);
        }
        i = i + 1;
    }
    None
}

/// The text of a non-empty singular value.
pub fn singular_token(value: &Translation) -> (r: Option<&str>)
    ensures
        match r {
            Some(t) => token_of(value@) == Some(t@),
            None => token_of(value@) is None,
        },
{
    match value {
        Translation::Singular(v) => {
            if v.as_str().unicode_len() > 0 {
                Some(v.as_str())
            } else {
                None
            }
        },
        _ => None,
    }
}

/// The source keys whose match-language text is `token` (see
/// `alias_candidates`).
pub fn alias_candidates_of(entries: &Vec<Entry>, token: &str) -> (r: Vec<String>)
    ensures
        strings_view(r@) == alias_candidates(crate::model::entries_view(entries@), token@),
{
    let ghost ev = crate::model::entries_view(entries@);
    let mut r: Vec<String> = Vec::new();
    let mut i: usize = 0;
    while i < entries.len()
        invariant
            i <= entries.len(),
            ev == crate::model::entries_view(entries@),
            strings_view(r@) == alias_candidates(ev.take(i as int), token@),
        decreases entries.len() - i,
    {
        proof {
            assert(ev.take(i + 1).drop_last() =~= ev.take(i as int));
            assert(ev.take(i + 1).last() == entries@[i as int]@);
        }
        let ghost prev = strings_view(r@);
        let matches = match singular_token(&entries[i].value) {
            Some(t) => str_eq(t, token),
            None => false,
        };
        if matches {
            let mut present = false;
            let mut k: usize = 0;
            while k < r.len()
                invariant
                    k <= r.len(),
                    i < entries.len(),
                    present == exists|q: int| 0 <= q < k && r@[q]@ == entries@[i as int].id@,
                decreases r.len() - k,
            {
                if str_eq(r[k].as_str(), entries[i].id.as_str()) {
                    present = true;
                }
                k = k + 1;
            }
            proof {
                if present {
                    let q = choose|q: int| 0 <= q < k && r@[q]@ == entries@[i as int].id@;
                    assert(prev[q] == entries@[i as int].id@);
                } else {
                    assert forall|q: int| 0 <= q < prev.len() implies prev[q] != entries@[i as int].id@ by {
                        assert(prev[q] == r@[q]@);
                    }
                }
            }
            if !present {
                r.push(entries[i].id.clone());
                proof {
                    assert(strings_view(r@) =~= prev.push(entries@[i as int].id@));
                }
            }
        }
        i = i + 1;
    }
    proof {
        assert(ev.take(entries.len() as int) =~= ev);
    }
    r
}

/// The match-language text of target key `key` (see `target_token`).
pub fn target_token_of(entries: &Vec<Entry>, key: &str) -> (r: Option<String>)
    ensures
        crate::model::opt_view(r) == target_token(crate::model::entries_view(entries@), key@),
{
    let ghost ev = crate::model::entries_view(entries@);
    let mut j: usize = entries.len();
    proof {
        assert(ev.take(j as int) =~= ev);
    }
    while j > 0
        invariant
            j <= entries.len(),
            ev == crate::model::entries_view(entries@),
            target_token(ev, key@) == target_token(ev.take(j as int), key@),
        decreases j,
    {
        proof {
            assert(ev.take(j as int).drop_last() =~= ev.take(j - 1));
            assert(ev.take(j as int).last() == entries@[j - 1]@);
        }
        if str_eq(entries[j - 1].id.as_str(), key) {
            if let Some(t) = singular_token(&entries[j - 1].value) {
                return Some(owned(t));
            }
        }
        j = j - 1;
    }
    None
}

/// Resolves an alias to a source key (see `resolve_alias`).
pub fn resolve_alias_key_for_language(
    alias: &str,
    target_lang: &str,
    alias_entries: &Vec<Entry>,
    source: &Vec<Resource>,
) -> (r: Option<Result<String, ()>>)
    ensures
        match resolve_alias(
            resources_view(source@),
            crate::model::entries_view(alias_entries@),
            alias@,
            target_lang@,
        ) {
            None => r is None,
            Some(Ok(k)) => r matches Some(Ok(s)) && s@ == k,
            Some(Err(_)) => r matches Some(Err(_)),
        },
{
    let candidates = alias_candidates_of(alias_entries, alias);
    let ghost cv = strings_view(candidates@);
    if candidates.len() == 0 {
        return None;
    }
    if candidates.len() == 1 {
        return Some(Ok(candidates[0].clone()));
    }
    let mut with_value: Vec<String> = Vec::new();
    let mut i: usize = 0;
    while i < candidates.len()
        invariant
            i <= candidates.len(),
            cv == strings_view(candidates@),
            strings_view(with_value@) == keys_with_value(
                resources_view(source@),
                cv.take(i as int),
                target_lang@,
            ),
        decreases candidates.len() - i,
    {
        proof {
            assert(cv.take(i + 1).drop_last() =~= cv.take(i as int));
            assert(cv.take(i + 1).last() == candidates@[i as int]@);
        }
        if lookup_source_value(source, candidates[i].as_str(), target_lang).is_some() {
            let ghost prev = strings_view(with_value@);
            with_value.push(candidates[i].clone());
            proof {
                assert(strings_view(with_value@) =~= prev.push(candidates@[i as int]@));
            }
        }
        i = i + 1;
    }
    proof {
        assert(cv.take(candidates.len() as int) =~= cv);
    }
    if with_value.len() == 1 {
        Some(Ok(with_value[0].clone()))
    } else {
        Some(Err(()))
    }
}

/// Pairs a target key with a source key (see `find_source_key`): `Ok` with
/// the key and whether an alias was needed, `Err(true)` when ambiguous,
/// `Err(false)` when nothing matches.
pub fn find_source_key_for_target(
    target_key: &str,
    target_lang: &str,
    target_match_token: Option<&str>,
    source: &Vec<Resource>,
    alias_entries: &Vec<Entry>,
) -> (r: Result<(String, bool), bool>)
    ensures
        match find_source_key(
            resources_view(source@),
            crate::model::entries_view(alias_entries@),
            target_key@,
            target_lang@,
            match target_match_token {
                Some(t) => Some(t@),
                None => None,
            },
        ) {
            Ok((k, f)) => r matches Ok((s, g)) && s@ == k && g == f,
            Err(b) => r == Err::<(String, bool), bool>(b),
        },
{
    if has_key(source, target_key) {
        return Ok((owned(target_key), false));
    }
    match resolve_alias_key_for_language(target_key, target_lang, alias_entries, source) {
        Some(Ok(k)) => return Ok((k, true)),
        Some(Err(())) => return Err(true),
        None => {},
    }
    if let Some(token) = target_match_token {
        match resolve_alias_key_for_language(token, target_lang, alias_entries, source) {
            Some(Ok(k)) => return Ok((k, true)),
            Some(Err(())) => return Err(true),
            None => {},
        }
    }
    Err(false)
}


/// Whether a target resource in language `lang` is synced under the
/// language filter `filter`.
pub open spec fn passes_filter(filter: Option<Seq<char>>, lang: Seq<char>) -> bool {
    match filter {
        Some(l) => lang_match(lang, l),
        None => true,
    }
}

/// One outcome with the language and key it concerns.
pub struct OutcomeRecord {
    pub language: Seq<char>,
    pub key: Seq<char>,
    pub outcome: SyncOutcome,
}

/// The outcomes of the entries of one resource, in order.
pub open spec fn resource_outcomes(
    src: Seq<ResourceView>,
    alias_entries: Seq<EntryView>,
    token_entries: Seq<EntryView>,
    r: ResourceView,
) -> Seq<OutcomeRecord> {
    r.entries.map_values(
        |e: EntryView|
            OutcomeRecord {
                language: r.metadata.language,
                key: e.id,
                outcome: entry_outcome(src, alias_entries, token_entries, r.metadata.language, e),
            },
    )
}

/// The outcomes of all synced target entries, resources and entries in order.
pub open spec fn all_outcomes(
    src: Seq<ResourceView>,
    alias_entries: Seq<EntryView>,
    token_entries: Seq<EntryView>,
    tgt: Seq<ResourceView>,
    filter: Option<Seq<char>>,
) -> Seq<OutcomeRecord>
    decreases tgt.len(),
{
    if tgt.len() == 0 {
        Seq::empty()
    } else {
        all_outcomes(src, alias_entries, token_entries, tgt.drop_last(), filter) + if passes_filter(
            filter,
            tgt.last().metadata.language,
        ) {
            resource_outcomes(src, alias_entries, token_entries, tgt.last())
        } else {
            Seq::empty()
        }
    }
}

/// A number for each kind of outcome.
pub open spec fn kind_code(o: SyncOutcome) -> int {
    match o {
        SyncOutcome::Ambiguous => 0,
        SyncOutcome::Unmatched => 1,
        SyncOutcome::MissingLanguage => 2,
        SyncOutcome::TypeMismatch => 3,
        SyncOutcome::Unchanged => 4,
        SyncOutcome::Update { .. } => 5,
    }
}

/// How many records have outcomes of kind `k`.
pub open spec fn count_kind(outs: Seq<OutcomeRecord>, k: int) -> nat
    decreases outs.len(),
{
    if outs.len() == 0 {
        0
    } else {
        count_kind(outs.drop_last(), k) + if kind_code(outs.last().outcome) == k {
            1nat
        } else {
            0nat
        }
    }
}

/// How many records are updates found through an alias.
pub open spec fn count_fallback(outs: Seq<OutcomeRecord>) -> nat
    decreases outs.len(),
{
    if outs.len() == 0 {
        0
    } else {
        count_fallback(outs.drop_last()) + if outs.last().outcome matches SyncOutcome::Update {
            fallback,
            ..
        } && fallback {
            1nat
        } else {
            0nat
        }
    }
}

/// The updates among the records, as (language, key, source key).
pub open spec fn updates_of(outs: Seq<OutcomeRecord>) -> Seq<(Seq<char>, Seq<char>, Seq<char>)>
    decreases outs.len(),
{
    if outs.len() == 0 {
        Seq::empty()
    } else {
        let prev = updates_of(outs.drop_last());
        match outs.last().outcome {
            SyncOutcome::Update { source_key, .. } => prev.push(
                (outs.last().language, outs.last().key, source_key),
            ),
            _ => prev,
        }
    }
}

/// The statistics that a list of records gives.
pub open spec fn stats_match(st: SyncStats, outs: Seq<OutcomeRecord>) -> bool {
    &&& st.total_entries == outs.len()
    &&& st.updated == count_kind(outs, 5)
    &&& st.unchanged == count_kind(outs, 4)
    &&& st.fallback_matches == count_fallback(outs)
    &&& st.skipped_unmatched == count_kind(outs, 1)
    &&& st.skipped_missing_language == count_kind(outs, 2)
    &&& st.skipped_ambiguous_fallback == count_kind(outs, 0)
    &&& st.skipped_type_mismatch == count_kind(outs, 3)
}

/// The value an entry has after syncing.
pub open spec fn synced_value(
    src: Seq<ResourceView>,
    alias_entries: Seq<EntryView>,
    token_entries: Seq<EntryView>,
    filter: Option<Seq<char>>,
    dry_run: bool,
    lang: Seq<char>,
    e: EntryView,
) -> TranslationView {
    if passes_filter(filter, lang) && !dry_run {
        match entry_outcome(src, alias_entries, token_entries, lang, e) {
            SyncOutcome::Update { value, .. } => value,
            _ => e.value,
        }
    } else {
        e.value
    }
}

/// The entries of the resource matching `lang`, or none.
pub open spec fn entries_for(rs: Seq<ResourceView>, lang: Seq<char>) -> Seq<EntryView> {
    match pick_resource(rs, lang) {
        Some(i) => rs[i].entries,
        None => Seq::empty(),
    }
}

/// The number of target resources that pass the language filter.
pub open spec fn count_passing(tgt: Seq<ResourceView>, filter: Option<Seq<char>>) -> nat
    decreases tgt.len(),
{
    if tgt.len() == 0 {
        0
    } else {
        count_passing(tgt.drop_last(), filter) + if passes_filter(filter, tgt.last().metadata.language) {
            1nat
        } else {
            0nat
        }
    }
}

/// The number of entries over all resources.
pub open spec fn total_entries(rs: Seq<ResourceView>) -> nat
    decreases rs.len(),
{
    if rs.len() == 0 {
        0
    } else {
        total_entries(rs.drop_last()) + rs.last().entries.len()
    }
}

proof fn lemma_pick_in_range(rs: Seq<ResourceView>, lang: Seq<char>)
    ensures
        pick_resource(rs, lang) matches Some(i) ==> 0 <= i < rs.len(),
    decreases rs.len(),
{
    if rs.len() > 0 && !lang_match(rs[0].metadata.language, lang) {
        lemma_pick_in_range(rs.drop_first(), lang);
    }
}

proof fn lemma_count_bound(outs: Seq<OutcomeRecord>)
    ensures
        forall|k: int| #[trigger] count_kind(outs, k) <= outs.len(),
        count_fallback(outs) <= outs.len(),
    decreases outs.len(),
{
    if outs.len() > 0 {
        lemma_count_bound(outs.drop_last());
        assert forall|k: int| #[trigger] count_kind(outs, k) <= outs.len() by {
            assert(count_kind(outs.drop_last(), k) <= outs.drop_last().len());
        }
    }
}

proof fn lemma_outcomes_len(
    src: Seq<ResourceView>,
    a: Seq<EntryView>,
    t: Seq<EntryView>,
    tgt: Seq<ResourceView>,
    filter: Option<Seq<char>>,
)
    ensures
        all_outcomes(src, a, t, tgt, filter).len() <= total_entries(tgt),
    decreases tgt.len(),
{
    if tgt.len() > 0 {
        lemma_outcomes_len(src, a, t, tgt.drop_last(), filter);
    }
}

/// Syncs the target resources from the source (see `entry_outcome`): in
/// every target resource that passes the language filter, each entry whose
/// outcome is an update takes the source value, unless this is a dry run;
/// nothing else changes. The report counts the outcomes and lists the
/// updates in order.
pub fn sync_resources(
    target: &mut Vec<Resource>,
    source: &Vec<Resource>,
    lang: &Option<String>,
    match_lang: &str,
    dry_run: bool,
) -> (report: SyncReport)
    requires
        total_entries(resources_view(old(target)@)) < usize::MAX,
    ensures
        ({
            let src = resources_view(source@);
            let tgt0 = resources_view(old(target)@);
            let ae = entries_for(src, match_lang@);
            let te = entries_for(tgt0, match_lang@);
            let filter = crate::model::opt_view(*lang);
            let outs = all_outcomes(src, ae, te, tgt0, filter);
            &&& stats_match(report.stats, outs)
            &&& report.processed_languages == count_passing(tgt0, filter)
            &&& report.updates@.map_values(
                |u: SyncUpdate| (u.language@, u.key@, u.source_key@),
            ) == updates_of(outs)
            &&& final(target)@.len() == old(target)@.len()
            &&& forall|i: int|
                0 <= i < tgt0.len() ==> {
                    let r0 = #[trigger] tgt0[i];
                    let r1 = resources_view(final(target)@)[i];
                    &&& r1.metadata == r0.metadata
                    &&& r1.entries.len() == r0.entries.len()
                    &&& forall|j: int|
                        0 <= j < r0.entries.len() ==> {
                            let e0 = #[trigger] r0.entries[j];
                            let e1 = r1.entries[j];
                            &&& e1.id == e0.id
                            &&& e1.comment == e0.comment
                            &&& e1.status == e0.status
                            &&& e1.custom == e0.custom
                            &&& e1.value == synced_value(
                                src,
                                ae,
                                te,
                                filter,
                                dry_run,
                                r0.metadata.language,
                                e0,
                            )
                        }
                }
        }),
{
    let ghost src = resources_view(source@);
    let ghost tgt0 = resources_view(target@);
    let ghost filter = crate::model::opt_view(*lang);
    let alias_entries: Vec<Entry> = match pick_language_resource(source, match_lang) {
        Some(k) => crate::model::dup_entries(&source[k].entries),
        None => Vec::new(),
    };
    let token_entries: Vec<Entry> = match pick_language_resource(target, match_lang) {
        Some(k) => crate::model::dup_entries(&target[k].entries),
        None => Vec::new(),
    };
    let ghost ae = crate::model::entries_view(alias_entries@);
    let ghost te = crate::model::entries_view(token_entries@);
    proof {
        lemma_pick_in_range(src, match_lang@);
        lemma_pick_in_range(tgt0, match_lang@);
        assert(ae =~= entries_for(src, match_lang@));
        assert(te =~= entries_for(tgt0, match_lang@));
        lemma_outcomes_len(src, ae, te, tgt0, filter);
    }
    let mut stats = SyncStats {
        total_entries: 0,
        updated: 0,
        unchanged: 0,
        fallback_matches: 0,
        skipped_unmatched: 0,
        skipped_missing_language: 0,
        skipped_ambiguous_fallback: 0,
        skipped_type_mismatch: 0,
    };
    let mut processed: usize = 0;
    let mut updates: Vec<SyncUpdate> = Vec::new();
    let ghost mut outs: Seq<OutcomeRecord> = Seq::empty();
    let mut i: usize = 0;
    while i < target.len()
        invariant
            i <= target.len(),
            target@.len() == tgt0.len(),
            src == resources_view(source@),
            tgt0 == resources_view(old(target)@),
            ae == crate::model::entries_view(alias_entries@),
            te == crate::model::entries_view(token_entries@),
            filter == crate::model::opt_view(*lang),
            ae == entries_for(src, match_lang@),
            te == entries_for(tgt0, match_lang@),
            total_entries(tgt0) < usize::MAX,
            outs == all_outcomes(src, ae, te, tgt0.take(i as int), filter),
            stats_match(stats, outs),
            updates@.map_values(|u: SyncUpdate| (u.language@, u.key@, u.source_key@)) == updates_of(outs),
            processed == count_passing(tgt0.take(i as int), filter),
            processed <= i,
            forall|k: int| i <= k < tgt0.len() ==> #[trigger] resources_view(target@)[k] == tgt0[k],
            forall|k: int|
                0 <= k < i ==> {
                    let r0 = #[trigger] tgt0[k];
                    let r1 = resources_view(target@)[k];
                    &&& r1.metadata == r0.metadata
                    &&& r1.entries.len() == r0.entries.len()
                    &&& forall|j: int|
                        0 <= j < r0.entries.len() ==> {
                            let e0 = #[trigger] r0.entries[j];
                            let e1 = r1.entries[j];
                            &&& e1.id == e0.id
                            &&& e1.comment == e0.comment
                            &&& e1.status == e0.status
                            &&& e1.custom == e0.custom
                            &&& e1.value == synced_value(
                                src,
                                ae,
                                te,
                                filter,
                                dry_run,
                                r0.metadata.language,
                                e0,
                            )
                        }
                },
        decreases target.len() - i,
    {
        proof {
            assert(tgt0.take(i + 1).drop_last() =~= tgt0.take(i as int));
            assert(tgt0.take(i + 1).last() == tgt0[i as int]);
            lemma_outcomes_len(src, ae, te, tgt0.take(i + 1), filter);
            lemma_total_prefix(tgt0, i as int + 1);
        }
        let passes = match lang {
            Some(l) => lang_matches(target[i].metadata.language.as_str(), l.as_str()),
            None => true,
        };
        proof {
            assert(resources_view(target@)[i as int] == tgt0[i as int]);
            assert(passes == passes_filter(filter, tgt0[i as int].metadata.language));
        }
        if passes {
            processed = processed + 1;
            let target_lang = target[i].metadata.language.clone();
            let ghost r0 = tgt0[i as int];
            let ghost outs_before = outs;
            let ghost snap = target@;
            assert(forall|k: int| i <= k < tgt0.len() ==> #[trigger] resources_view(snap)[k] == tgt0[k]);
            let mut j: usize = 0;
            while j < target[i].entries.len()
                invariant
                    i < target.len(),
                    target@.len() == tgt0.len(),
                    j <= target@[i as int].entries.len(),
                    r0 == tgt0[i as int],
                    target_lang@ == r0.metadata.language,
                    passes_filter(filter, r0.metadata.language),
                    src == resources_view(source@),
                    ae == crate::model::entries_view(alias_entries@),
                    te == crate::model::entries_view(token_entries@),
                    outs == outs_before + resource_outcomes(src, ae, te, r0).take(j as int),
                    outs_before.len() + r0.entries.len() <= total_entries(tgt0),
                    total_entries(tgt0) < usize::MAX,
                    stats_match(stats, outs),
                    updates@.map_values(|u: SyncUpdate| (u.language@, u.key@, u.source_key@)) == updates_of(outs),
                    snap.len() == tgt0.len(),
                    forall|k: int| 0 <= k < tgt0.len() && k != i ==> #[trigger] target@[k] == snap[k],
                    resources_view(target@)[i as int].metadata == r0.metadata,
                    resources_view(target@)[i as int].entries.len() == r0.entries.len(),
                    forall|q: int| j <= q < r0.entries.len() ==> #[trigger] resources_view(target@)[i as int].entries[q] == r0.entries[q],
                    forall|q: int|
                        0 <= q < j ==> {
                            let e0 = #[trigger] r0.entries[q];
                            let e1 = resources_view(target@)[i as int].entries[q];
                            &&& e1.id == e0.id
                            &&& e1.comment == e0.comment
                            &&& e1.status == e0.status
                            &&& e1.custom == e0.custom
                            &&& e1.value == synced_value(src, ae, te, filter, dry_run, r0.metadata.language, e0)
                        },
                decreases target@[i as int].entries.len() - j,
            {
                let ghost e0 = r0.entries[j as int];
                let ghost rec = resource_outcomes(src, ae, te, r0)[j as int];
                let ghost prev = target@;
                proof {
                    assert(resources_view(target@)[i as int].entries[j as int] == e0);
                    assert(target@[i as int].entries@[j as int]@ == e0);
                }
                let key = target[i].entries[j].id.clone();
                let token = target_token_of(&token_entries, key.as_str());
                let token_ref: Option<&str> = match &token {
                    Some(t) => Some(t.as_str()),
                    None => None,
                };
                let found = find_source_key_for_target(
                    key.as_str(),
                    target_lang.as_str(),
                    token_ref,
                    source,
                    &alias_entries,
                );
                proof {
                    lemma_count_bound(outs);
                    assert(count_kind(outs, 0) <= outs.len());
                    assert(count_kind(outs, 1) <= outs.len());
                    assert(count_kind(outs, 2) <= outs.len());
                    assert(count_kind(outs, 3) <= outs.len());
                    assert(count_kind(outs, 4) <= outs.len());
                    assert(count_kind(outs, 5) <= outs.len());
                    assert(resource_outcomes(src, ae, te, r0).take(j as int).len() == j);
                    assert(rec.outcome == entry_outcome(src, ae, te, r0.metadata.language, e0));
                    assert(rec.key == e0.id);
                    assert(rec.language == r0.metadata.language);
                }
                stats.total_entries = stats.total_entries + 1;
                match found {
                    Err(true) => {
                        stats.skipped_ambiguous_fallback = stats.skipped_ambiguous_fallback + 1;
                    },
                    Err(false) => {
                        stats.skipped_unmatched = stats.skipped_unmatched + 1;
                    },
                    Ok((source_key, fallback)) => {
                        match lookup_source_value(source, source_key.as_str(), target_lang.as_str()) {
                            None => {
                                stats.skipped_missing_language = stats.skipped_missing_language + 1;
                            },
                            Some((si, sj)) => {
                                if !target[i].entries[j].value.same_kind(&source[si].entries[sj].value) {
                                    stats.skipped_type_mismatch = stats.skipped_type_mismatch + 1;
                                } else if target[i].entries[j].value.same_as(&source[si].entries[sj].value) {
                                    stats.unchanged = stats.unchanged + 1;
                                } else {
                                    if fallback {
                                        stats.fallback_matches = stats.fallback_matches + 1;
                                    }
                                    if !dry_run {
                                        let v = source[si].entries[sj].value.duplicate();
                                        target[i].entries[j].value = v;
                                    }
                                    updates.push(
                                        SyncUpdate {
                                            language: target_lang.clone(),
                                            key: key.clone(),
                                            source_key: source_key.clone(),
                                        },
                                    );
                                    stats.updated = stats.updated + 1;
                                }
                            },
                        }
                    },
                }
                proof {
                    assert forall|k: int| 0 <= k < tgt0.len() && k != i implies #[trigger] target@[k] == snap[k] by {
                        assert(target@[k] == prev[k]);
                    }
                    let old_outs = outs;
                    outs = outs.push(rec);
                    assert(outs.drop_last() =~= old_outs);
                    assert(resource_outcomes(src, ae, te, r0).take(j + 1) =~= resource_outcomes(
                        src,
                        ae,
                        te,
                        r0,
                    ).take(j as int).push(rec));
                    assert(outs =~= outs_before + resource_outcomes(src, ae, te, r0).take(j + 1));
                }
                j = j + 1;
            }
            proof {
                assert(resource_outcomes(src, ae, te, r0).take(j as int) =~= resource_outcomes(src, ae, te, r0));
                assert forall|k: int| 0 <= k < tgt0.len() && k != i implies resources_view(target@)[k] == resources_view(snap)[k] by {
                    assert(target@[k] == snap[k]);
                }
                assert forall|k: int| i < k < tgt0.len() implies #[trigger] resources_view(target@)[k] == tgt0[k] by {
                    assert(resources_view(target@)[k] == resources_view(snap)[k]);
                    assert(resources_view(snap)[k] == tgt0[k]);
                }
            }
        }
        proof {
            assert(outs == all_outcomes(src, ae, te, tgt0.take(i + 1), filter));
        }
        i = i + 1;
    }
    proof {
        assert(tgt0.take(i as int) =~= tgt0);
    }
    SyncReport { stats, processed_languages: processed, updates }
}

pub proof fn lemma_total_prefix(rs: Seq<ResourceView>, k: int)
    requires
        0 <= k <= rs.len(),
    ensures
        total_entries(rs.take(k)) <= total_entries(rs),
        k > 0 ==> total_entries(rs.take(k - 1)) + rs[k - 1].entries.len() == total_entries(rs.take(k)),
    decreases rs.len() - k,
{
    if k < rs.len() {
        lemma_total_prefix(rs, k + 1);
        assert(rs.take(k + 1).drop_last() =~= rs.take(k));
    } else {
        assert(rs.take(k) =~= rs);
    }
    if k > 0 {
        assert(rs.take(k).drop_last() =~= rs.take(k - 1));
    }
}


proof fn lemma_kinds_partition(outs: Seq<OutcomeRecord>)
    ensures
        count_kind(outs, 0) + count_kind(outs, 1) + count_kind(outs, 2) + count_kind(outs, 3)
            + count_kind(outs, 4) + count_kind(outs, 5) == outs.len(),
        count_fallback(outs) <= count_kind(outs, 5),
    decreases outs.len(),
{
    if outs.len() > 0 {
        lemma_kinds_partition(outs.drop_last());
    }
}

/// Every target entry considered is counted exactly once: updated,
/// unchanged, or skipped for one reason; and a fallback match is always
/// among the updates.
pub proof fn law_sync_stats_partition(stats: SyncStats, outs: Seq<OutcomeRecord>)
    requires
        stats_match(stats, outs),
    ensures
        stats.updated + stats.unchanged + stats.skipped_unmatched + stats.skipped_missing_language
            + stats.skipped_ambiguous_fallback + stats.skipped_type_mismatch == stats.total_entries,
        stats.fallback_matches <= stats.updated,
{
    lemma_kinds_partition(outs);
}

/// A dry run leaves every target value as it was, whatever the outcome.
pub proof fn law_sync_dry_run_changes_nothing(
    src: Seq<ResourceView>,
    alias_entries: Seq<EntryView>,
    token_entries: Seq<EntryView>,
    filter: Option<Seq<char>>,
    lang: Seq<char>,
    e: EntryView,
)
    ensures
        synced_value(src, alias_entries, token_entries, filter, true, lang, e) == e.value,
{
}

/// Target resources outside the language filter are never changed.
pub proof fn law_sync_respects_language_filter(
    src: Seq<ResourceView>,
    alias_entries: Seq<EntryView>,
    token_entries: Seq<EntryView>,
    filter: Option<Seq<char>>,
    dry_run: bool,
    lang: Seq<char>,
    e: EntryView,
)
    requires
        !passes_filter(filter, lang),
    ensures
        synced_value(src, alias_entries, token_entries, filter, dry_run, lang, e) == e.value,
{
}

/// An update only ever writes a value of the kind the entry already had.
pub proof fn law_sync_keeps_value_kind(
    src: Seq<ResourceView>,
    alias_entries: Seq<EntryView>,
    token_entries: Seq<EntryView>,
    filter: Option<Seq<char>>,
    dry_run: bool,
    lang: Seq<char>,
    e: EntryView,
)
    ensures
        same_kind_spec(
            synced_value(src, alias_entries, token_entries, filter, dry_run, lang, e),
            e.value,
        ),
{
}


/// The language whose text pairs target and source keys: the explicit one
/// when it is not blank, else the source's `source_language` field when not
/// blank, else `en` when some source resource is English, else the first
/// source language when not blank, else `en`.
pub open spec fn inferred_match_lang(src: Seq<ResourceView>, explicit: Option<Seq<char>>) -> Seq<
    char,
> {
    if explicit is Some && trim_seq(explicit->0).len() > 0 {
        explicit->0
    } else if src.len() > 0 && assoc_get(src[0].metadata.custom, "source_language"@) is Some
        && trim_seq(assoc_get(src[0].metadata.custom, "source_language"@)->0).len() > 0 {
        assoc_get(src[0].metadata.custom, "source_language"@)->0
    } else if exists|i: int| 0 <= i < src.len() && norm_lang(#[trigger] src[i].metadata.language) == "en"@ {
        "en"@
    } else if src.len() > 0 && trim_seq(src[0].metadata.language).len() > 0 {
        src[0].metadata.language
    } else {
        "en"@
    }
}

/// Chooses the language whose text pairs keys (see `inferred_match_lang`).
pub fn infer_match_language(source: &Vec<Resource>, explicit: &Option<String>) -> (r: String)
    ensures
        r@ == inferred_match_lang(resources_view(source@), crate::model::opt_view(*explicit)),
{
    let ghost rv = resources_view(source@);
    if let Some(lang) = explicit {
        if trim(lang.as_str()).as_str().unicode_len() > 0 {
            return lang.clone();
        }
    }
    if source.len() > 0 {
        if let Some(v) = crate::model::assoc_lookup(&source[0].metadata.custom, "source_language") {
            if trim(v.as_str()).as_str().unicode_len() > 0 {
                return v;
            }
        }
    }
    let mut i: usize = 0;
    while i < source.len()
        invariant
            i <= source.len(),
            rv == resources_view(source@),
            forall|k: int| 0 <= k < i ==> norm_lang(#[trigger] rv[k].metadata.language) != "en"@,
            !(crate::model::opt_view(*explicit) is Some && trim_seq(
                crate::model::opt_view(*explicit)->0,
            ).len() > 0),
            !(rv.len() > 0 && assoc_get(rv[0].metadata.custom, "source_language"@) is Some
                && trim_seq(assoc_get(rv[0].metadata.custom, "source_language"@)->0).len() > 0),
        decreases source.len() - i,
    {
        let l = normalize_lang(source[i].metadata.language.as_str());
        if str_eq(l.as_str(), "en") {
            proof {
                assert(norm_lang(rv[i as int].metadata.language) == "en"@);
                assert(exists|k: int| 0 <= k < rv.len() && norm_lang(#[trigger] rv[k].metadata.language) == "en"@);
                let ex = crate::model::opt_view(*explicit);
                assert(!(ex is Some && trim_seq(ex->0).len() > 0));
                assert(!(rv.len() > 0 && assoc_get(rv[0].metadata.custom, "source_language"@) is Some
                    && trim_seq(assoc_get(rv[0].metadata.custom, "source_language"@)->0).len() > 0));
            }
            return owned("en");
        }
        i = i + 1;
    }
    if source.len() > 0 && trim(source[0].metadata.language.as_str()).as_str().unicode_len() > 0 {
        return source[0].metadata.language.clone();
    }
    owned("en")
}

/// Whether unmatched or ambiguous entries fail the run: asked for
/// explicitly, or implied by strict mode.
pub open spec fn policy_message(
    stats: SyncStats,
    fail_on_unmatched: bool,
    fail_on_ambiguous: bool,
    strict: bool,
) -> Option<Seq<char>> {
    let fu = (fail_on_unmatched || strict) && stats.skipped_unmatched > 0;
    let fa = (fail_on_ambiguous || strict) && stats.skipped_ambiguous_fallback > 0;
    if fu && fa {
        Some("Sync policy failure (unmatched="@ + decimal(stats.skipped_unmatched as nat)
            + ", ambiguous="@ + decimal(stats.skipped_ambiguous_fallback as nat) + ")"@)
    } else if fu {
        Some("Sync policy failure (unmatched="@ + decimal(stats.skipped_unmatched as nat) + ")"@)
    } else if fa {
        Some("Sync policy failure (ambiguous="@ + decimal(stats.skipped_ambiguous_fallback as nat)
            + ")"@)
    } else {
        None
    }
}

/// The error a finished sync ends with, if any: a requested language that
/// matched no target resource, else a policy failure (see
/// `policy_message`).
pub fn sync_verdict(
    lang: &Option<String>,
    processed_languages: usize,
    stats: &SyncStats,
    fail_on_unmatched: bool,
    fail_on_ambiguous: bool,
    strict: bool,
) -> (r: Result<(), String>)
    ensures
        lang is Some && processed_languages == 0 ==> (r matches Err(e) && e@ == "Language '"@
            + lang->0@ + "' not found in target file"@),
        !(lang is Some && processed_languages == 0) ==> match policy_message(
            *stats,
            fail_on_unmatched,
            fail_on_ambiguous,
            strict,
        ) {
            Some(m) => r matches Err(e) && e@ == m,
            None => r is Ok,
        },
{
    if let Some(l) = lang {
        if processed_languages == 0 {
            let mut e = owned("Language '");
            push_str(&mut e, l.as_str());
            push_str(&mut e, "' not found in target file");
            return Err(e);
        }
    }
    let fu = (fail_on_unmatched || strict) && stats.skipped_unmatched > 0;
    let fa = (fail_on_ambiguous || strict) && stats.skipped_ambiguous_fallback > 0;
    if !fu && !fa {
        return Ok(());
    }
    if fu && fa {
        let mut e = owned("Sync policy failure (unmatched=");
        push_str(&mut e, decimal_string(stats.skipped_unmatched).as_str());
        push_str(&mut e, ", ambiguous=");
        push_str(&mut e, decimal_string(stats.skipped_ambiguous_fallback).as_str());
        push_str(&mut e, ")");
        Err(e)
    } else if fu {
        let mut e = owned("Sync policy failure (unmatched=");
        push_str(&mut e, decimal_string(stats.skipped_unmatched).as_str());
        push_str(&mut e, ")");
        Err(e)
    } else {
        let mut e = owned("Sync policy failure (ambiguous=");
        push_str(&mut e, decimal_string(stats.skipped_ambiguous_fallback).as_str());
        push_str(&mut e, ")");
        Err(e)
    }
}

} // verus!
