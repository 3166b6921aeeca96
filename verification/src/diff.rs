//! Comparing two sets of resources language by language: which keys only the
//! source has, which only the target has, which carry different values and
//! how many agree, with the report printed from that comparison.
use crate::lang::{lang_match, lang_matches, norm_lang, normalize_lang, valid_lang_code, validate_language_code};
use crate::validation::{file_check, result_is, validate_file_path};
use crate::model::{Resource, ResourceView, Translation, TranslationView, EntryView, resources_view, category_debug_name, forms_view, PluralCategory};
use crate::sorted::{
    alist_get, alist_put, find_slot, keys_of, lemma_alist_get_at, lemma_alist_set,
    lemma_insert_sorted, seq_lt, strictly_sorted,
};
use crate::sync::total_entries;
use crate::text::{decimal, join, join_seq, strings_view};
use vstd::prelude::*;

verus! {

/// What the diff command was asked to compare and how to report it.
#[derive(Debug, Clone)]
pub struct DiffOptions {
    pub source: String,
    pub target: String,
    pub lang: Option<String>,
    pub json: bool,
    pub output: Option<String>,
    pub strict: bool,
}

/// The map that an association list of translations stands for.
pub open spec fn entry_map(v: Seq<(String, Translation)>) -> Map<Seq<char>, TranslationView> {
    Map::new(|k: Seq<char>| alist_get(v, k) is Some, |k: Seq<char>| alist_get(v, k)->0@)
}

/// Both levels of a language map are strictly sorted by key.
pub open spec fn language_map_wf(m: Seq<(String, Vec<(String, Translation)>)>) -> bool {
    &&& strictly_sorted(keys_of(m))
    &&& forall|i: int| 0 <= i < m.len() ==> strictly_sorted(keys_of(#[trigger] m[i].1@))
}

/// The map of maps that a language map stands for.
pub open spec fn language_map_view(m: Seq<(String, Vec<(String, Translation)>)>) -> Map<
    Seq<char>,
    Map<Seq<char>, TranslationView>,
> {
    Map::new(|l: Seq<char>| alist_get(m, l) is Some, |l: Seq<char>| entry_map(alist_get(m, l)->0@))
}

/// What a map of maps holds under `l`, or nothing.
pub open spec fn inner_of(
    m: Map<Seq<char>, Map<Seq<char>, TranslationView>>,
    l: Seq<char>,
) -> Map<Seq<char>, TranslationView> {
    if m.contains_key(l) {
        m[l]
    } else {
        Map::empty()
    }
}

/// `inner` with the entries stored one after the other, a later entry with
/// the same key replacing an earlier one.
pub open spec fn put_entries(inner: Map<Seq<char>, TranslationView>, es: Seq<EntryView>) -> Map<
    Seq<char>,
    TranslationView,
>
    decreases es.len(),
{
    if es.len() == 0 {
        inner
    } else {
        put_entries(inner, es.drop_last()).insert(es.last().id, es.last().value)
    }
}

/// The translations of the resources grouped by normalized language: every
/// language that a resource has appears, and under it each key has the value
/// of its last entry among the resources of that language.
pub open spec fn languages_of(rs: Seq<ResourceView>) -> Map<
    Seq<char>,
    Map<Seq<char>, TranslationView>,
>
    decreases rs.len(),
{
    if rs.len() == 0 {
        Map::empty()
    } else {
        let m = languages_of(rs.drop_last());
        let l = norm_lang(rs.last().metadata.language);
        m.insert(l, put_entries(inner_of(m, l), rs.last().entries))
    }
}

/// Makes sure that language `l` has a place in the map, empty if it is new,
/// and returns that place.
fn ensure_language(m: &mut Vec<(String, Vec<(String, Translation)>)>, l: String) -> (p: usize)
    requires
        language_map_wf(old(m)@),
    ensures
        language_map_wf(final(m)@),
        p < final(m).len(),
        final(m)@[p as int].0@ == l@,
        language_map_view(final(m)@) == language_map_view(old(m)@).insert(
            l@,
            inner_of(language_map_view(old(m)@), l@),
        ),
        map_size(final(m)@) == map_size(old(m)@),
        final(m).len() <= old(m).len() + 1,
{
    let ghost before = m@;
    let (p, found) = find_slot(m, l.as_str());
    if found {
        proof {
            lemma_alist_get_at(before, p as int);
            assert(language_map_view(before) =~= language_map_view(before).insert(
                l@,
                inner_of(language_map_view(before), l@),
            ));
        }
        p
    } else {
        let ghost lv = l@;
        m.insert(p, (l, Vec::new()));
        proof {
            lemma_map_size_insert(before, p as int, m@[p as int]);
            lemma_insert_sorted(before, p as int, m@[p as int]);
            assert(m@ == before.insert(p as int, m@[p as int]));
            lemma_alist_get_at(m@, p as int);
            assert(alist_get(before, lv) is None) by {
                assert forall|i: int| 0 <= i < before.len() implies (#[trigger] before[i]).0@ != lv by {
                    if i < p {
                        crate::sorted::lemma_lt_asym(before[i].0@, lv);
                    } else {
                        crate::sorted::lemma_lt_asym(lv, before[i].0@);
                    }
                }
            }
            assert forall|i: int| 0 <= i < m@.len() implies strictly_sorted(keys_of(#[trigger] m@[i].1@)) by {
                if i < p {
                    assert(m@[i] == before[i]);
                } else if i > p {
                    assert(m@[i] == before[i - 1]);
                } else {
                    assert(keys_of(m@[i].1@) =~= Seq::empty());
                }
            }
            assert forall|q: Seq<char>| q != lv implies alist_get(m@, q) == alist_get(before, q) by {
                if exists|i: int| 0 <= i < m@.len() && (#[trigger] m@[i]).0@ == q {
                    let i = choose|i: int| 0 <= i < m@.len() && (#[trigger] m@[i]).0@ == q;
                    lemma_alist_get_at(m@, i);
                    let j = if i < p { i } else { i - 1 };
                    assert(before[j] == m@[i]);
                    lemma_alist_get_at(before, j);
                } else {
                    assert forall|i: int| 0 <= i < before.len() implies (#[trigger] before[i]).0@ != q by {
                        if i < p {
                            assert(m@[i] == before[i]);
                        } else {
                            assert(m@[i + 1] == before[i]);
                        }
                    }
                }
            }
            assert(entry_map(Seq::empty()) =~= Map::empty());
            assert(language_map_view(m@) =~= language_map_view(before).insert(
                lv,
                inner_of(language_map_view(before), lv),
            ));
        }
        p
    }
}

/// Stores `value` under `key` in the language at place `p`.
fn put_translation(
    m: &mut Vec<(String, Vec<(String, Translation)>)>,
    p: usize,
    key: String,
    value: Translation,
)
    requires
        language_map_wf(old(m)@),
        p < old(m).len(),
    ensures
        language_map_wf(final(m)@),
        final(m).len() == old(m).len(),
        final(m)@[p as int].0@ == old(m)@[p as int].0@,
        language_map_view(final(m)@) == language_map_view(old(m)@).insert(
            old(m)@[p as int].0@,
            language_map_view(old(m)@)[old(m)@[p as int].0@].insert(key@, value@),
        ),
        map_size(final(m)@) <= map_size(old(m)@) + 1,
{
    let ghost before = m@;
    let ghost l = m@[p as int].0@;
    let ghost kv = key@;
    let ghost xv = value@;
    proof {
        lemma_alist_get_at(before, p as int);
    }
    alist_put(&mut m[p].1, key, value);
    proof {
        let e = m@[p as int];
        assert(m@ == before.update(p as int, e));
        lemma_map_size_update(before, p as int, e);
        lemma_alist_set(before, p as int, e);
        assert forall|i: int| 0 <= i < m@.len() implies strictly_sorted(keys_of(#[trigger] m@[i].1@)) by {
            if i != p {
                assert(m@[i] == before[i]);
            }
        }
        assert(entry_map(e.1@) =~= entry_map(before[p as int].1@).insert(kv, xv));
        assert(language_map_view(m@) =~= language_map_view(before).insert(
            l,
            language_map_view(before)[l].insert(kv, xv),
        ));
    }
}

/// Groups the translations of the resources by normalized language; within a
/// language a later entry with the same key replaces an earlier one.
pub fn build_language_map(resources: Vec<Resource>) -> (r: Vec<(String, Vec<(String, Translation)>)>)
    ensures
        language_map_wf(r@),
        language_map_view(r@) == languages_of(resources_view(resources@)),
        map_size(r@) <= total_entries(resources_view(resources@)),
        r.len() <= resources.len(),
{
    let mut map: Vec<(String, Vec<(String, Translation)>)> = Vec::new();
    let mut i: usize = 0;
    proof {
        assert(keys_of(map@) =~= Seq::empty());
        assert(resources_view(resources@.take(0)) =~= Seq::empty());
        assert(language_map_view(map@) =~= Map::empty());
    }
    while i < resources.len()
        invariant
            i <= resources.len(),
            language_map_wf(map@),
            language_map_view(map@) == languages_of(resources_view(resources@.take(i as int))),
            map_size(map@) <= total_entries(resources_view(resources@.take(i as int))),
            map.len() <= i,
        decreases resources.len() - i,
    {
        let r = &resources[i];
        let lang = normalize_lang(r.metadata.language.as_str());
        let ghost lv = lang@;
        let ghost m0 = language_map_view(map@);
        let p = ensure_language(&mut map, lang);
        let mut j: usize = 0;
        proof {
            assert(r.entries@.take(0) =~= Seq::<crate::model::Entry>::empty());
            assert(crate::model::entries_view(r.entries@.take(0)) =~= Seq::empty());
        }
        while j < r.entries.len()
            invariant
                i < resources.len(),
                r == &resources[i as int],
                j <= r.entries.len(),
                language_map_wf(map@),
                p < map.len(),
                map@[p as int].0@ == lv,
                language_map_view(map@) == m0.insert(
                    lv,
                    put_entries(inner_of(m0, lv), crate::model::entries_view(r.entries@.take(j as int))),
                ),
                map_size(map@) <= total_entries(resources_view(resources@.take(i as int))) + j,
                map.len() <= i + 1,
            decreases r.entries.len() - j,
        {
            let e = &r.entries[j];
            put_translation(&mut map, p, e.id.clone(), e.value.duplicate());
            proof {
                let es = crate::model::entries_view(r.entries@.take(j + 1));
                assert(es.drop_last() =~= crate::model::entries_view(r.entries@.take(j as int)));
                assert(es.last() == e@);
            }
            j = j + 1;
        }
        proof {
            assert(r.entries@.take(j as int) =~= r.entries@);
            let rs = resources_view(resources@.take(i + 1));
            assert(rs.drop_last() =~= resources_view(resources@.take(i as int)));
            assert(rs.last() == r@);
            assert(total_entries(rs) == total_entries(rs.drop_last()) + r.entries.len());
        }
        i = i + 1;
    }
    proof {
        assert(resources@.take(i as int) =~= resources@);
    }
    map
}

/// A key whose value differs between the two sides.
#[derive(Debug, Clone)]
pub struct ChangedItem {
    pub key: String,
    pub source: Translation,
    pub target: Translation,
}

/// The comparison of one language.
#[derive(Debug, Clone)]
pub struct LanguageDiff {
    pub language: String,
    pub added: Vec<String>,
    pub removed: Vec<String>,
    pub changed: Vec<ChangedItem>,
    pub unchanged: usize,
}

/// The totals over all compared languages.
#[derive(Debug, Clone)]
pub struct DiffSummary {
    pub languages: usize,
    pub added: usize,
    pub removed: usize,
    pub changed: usize,
    pub unchanged: usize,
}

/// Keys that `v` has no value for.
pub open spec fn missing_from(v: Seq<(String, Translation)>) -> spec_fn(Seq<char>) -> bool {
    |k: Seq<char>| alist_get(v, k) is None
}

/// Keys that both sides have, with different values.
pub open spec fn differing(
    s: Seq<(String, Translation)>,
    t: Seq<(String, Translation)>,
) -> spec_fn(Seq<char>) -> bool {
    |k: Seq<char>| alist_get(t, k) is Some && alist_get(t, k)->0@ != alist_get(s, k)->0@
}

/// Keys that both sides have, with the same value.
pub open spec fn agreeing(
    s: Seq<(String, Translation)>,
    t: Seq<(String, Translation)>,
) -> spec_fn(Seq<char>) -> bool {
    |k: Seq<char>| alist_get(t, k) is Some && alist_get(t, k)->0@ == alist_get(s, k)->0@
}

/// The keys of the changed items.
pub open spec fn changed_keys(v: Seq<ChangedItem>) -> Seq<Seq<char>> {
    v.map_values(|c: ChangedItem| c.key@)
}

/// `d` is the comparison of source side `s` with target side `t` for
/// language `l`: added are the source keys that the target lacks, removed the
/// target keys that the source lacks, changed the keys on both sides whose
/// values differ (each with both values), all in key order; unchanged counts
/// the keys on both sides with equal values.
pub open spec fn is_language_diff(
    d: LanguageDiff,
    l: Seq<char>,
    s: Seq<(String, Translation)>,
    t: Seq<(String, Translation)>,
) -> bool {
    &&& d.language@ == l
    &&& strings_view(d.added@) == keys_of(s).filter(missing_from(t))
    &&& strings_view(d.removed@) == keys_of(t).filter(missing_from(s))
    &&& changed_keys(d.changed@) == keys_of(s).filter(differing(s, t))
    &&& forall|n: int|
        0 <= n < d.changed.len() ==> {
            let c = #[trigger] d.changed@[n];
            &&& alist_get(s, c.key@) is Some
            &&& alist_get(t, c.key@) is Some
            &&& c.source@ == alist_get(s, c.key@)->0@
            &&& c.target@ == alist_get(t, c.key@)->0@
        }
    &&& d.unchanged == keys_of(s).filter(agreeing(s, t)).len()
}

/// Compares the translations of one language on the two sides.
fn diff_language(
    language: String,
    s: &Vec<(String, Translation)>,
    t: &Vec<(String, Translation)>,
) -> (d: LanguageDiff)
    requires
        strictly_sorted(keys_of(s@)),
        strictly_sorted(keys_of(t@)),
    ensures
        is_language_diff(d, language@, s@, t@),
        d.added.len() + d.changed.len() + d.unchanged <= s.len(),
        d.removed.len() <= t.len(),
{
    let mut added: Vec<String> = Vec::new();
    let mut removed: Vec<String> = Vec::new();
    let mut changed: Vec<ChangedItem> = Vec::new();
    let mut unchanged: usize = 0;
    let mut i: usize = 0;
    proof {
        assert(keys_of(s@.take(0)) =~= Seq::empty());
        assert(keys_of(t@.take(0)) =~= Seq::empty());
        reveal(Seq::filter);
    }
    while i < s.len()
        invariant
            i <= s.len(),
            strictly_sorted(keys_of(s@)),
            strictly_sorted(keys_of(t@)),
            strings_view(added@) == keys_of(s@.take(i as int)).filter(missing_from(t@)),
            changed_keys(changed@) == keys_of(s@.take(i as int)).filter(differing(s@, t@)),
            forall|n: int|
                0 <= n < changed.len() ==> {
                    let c = #[trigger] changed@[n];
                    &&& alist_get(s@, c.key@) is Some
                    &&& alist_get(t@, c.key@) is Some
                    &&& c.source@ == alist_get(s@, c.key@)->0@
                    &&& c.target@ == alist_get(t@, c.key@)->0@
                },
            unchanged == keys_of(s@.take(i as int)).filter(agreeing(s@, t@)).len(),
            added.len() + changed.len() + unchanged <= i,
        decreases s.len() - i,
    {
        let key = &s[i].0;
        let ghost k = key@;
        proof {
            lemma_alist_get_at(s@, i as int);
            assert(keys_of(s@.take(i + 1)) =~= keys_of(s@.take(i as int)).push(k));
            keys_of(s@.take(i as int)).lemma_filter_push(k, missing_from(t@));
            keys_of(s@.take(i as int)).lemma_filter_push(k, differing(s@, t@));
            keys_of(s@.take(i as int)).lemma_filter_push(k, agreeing(s@, t@));
        }
        match crate::sorted::alist_lookup(t, key.as_str()) {
            None => {
                let ghost a0 = added@;
                added.push(key.clone());
                proof {
                    assert(strings_view(added@) =~= strings_view(a0).push(k));
                }
            },
            Some(p) => {
                if s[i].1.same_as(&t[p].1) {
                    unchanged = unchanged + 1;
                } else {
                    changed.push(
                        ChangedItem {
                            key: key.clone(),
                            source: s[i].1.duplicate(),
                            target: t[p].1.duplicate(),
                        },
                    );
                }
            },
        }
        i = i + 1;
    }
    proof {
        assert(s@.take(i as int) =~= s@);
    }
    let mut j: usize = 0;
    proof {
        assert(keys_of(t@.take(0)) =~= Seq::empty());
        reveal(Seq::filter);
    }
    while j < t.len()
        invariant
            j <= t.len(),
            strictly_sorted(keys_of(s@)),
            strictly_sorted(keys_of(t@)),
            strings_view(removed@) == keys_of(t@.take(j as int)).filter(missing_from(s@)),
            removed.len() <= j,
        decreases t.len() - j,
    {
        let key = &t[j].0;
        let ghost k = key@;
        proof {
            assert(keys_of(t@.take(j + 1)) =~= keys_of(t@.take(j as int)).push(k));
            keys_of(t@.take(j as int)).lemma_filter_push(k, missing_from(s@));
        }
        match crate::sorted::alist_lookup(s, key.as_str()) {
            None => {
                removed.push(key.clone());
            },
            Some(_) => {},
        }
        j = j + 1;
    }
    proof {
        assert(t@.take(j as int) =~= t@);
    }
    LanguageDiff { language, added, removed, changed, unchanged }
}

/// What one side holds for language `l`: its translations, or none.
pub open spec fn side(m: Seq<(String, Vec<(String, Translation)>)>, l: Seq<char>) -> Seq<
    (String, Translation),
> {
    match alist_get(m, l) {
        Some(v) => v@,
        None => Seq::empty(),
    }
}

/// Whether language `l` is compared under the requested language filter.
pub open spec fn passes_lang_filter(l: Seq<char>, filter: Option<String>) -> bool {
    match filter {
        None => true,
        Some(f) => lang_match(l, f@),
    }
}

/// The languages of the per-language comparisons, in order.
pub open spec fn diff_languages(per: Seq<LanguageDiff>) -> Seq<Seq<char>> {
    per.map_values(|d: LanguageDiff| d.language@)
}

/// The added, removed, changed and unchanged counts summed over languages.
pub open spec fn diff_totals(per: Seq<LanguageDiff>) -> (int, int, int, int)
    decreases per.len(),
{
    if per.len() == 0 {
        (0, 0, 0, 0)
    } else {
        let t = diff_totals(per.drop_last());
        let d = per.last();
        (
            t.0 + d.added.len(),
            t.1 + d.removed.len(),
            t.2 + d.changed.len(),
            t.3 + d.unchanged,
        )
    }
}

/// The number of translations held over all languages of a map.
pub open spec fn map_size(m: Seq<(String, Vec<(String, Translation)>)>) -> nat
    decreases m.len(),
{
    if m.len() == 0 {
        0
    } else {
        map_size(m.drop_last()) + m.last().1@.len()
    }
}

proof fn lemma_map_size_update(
    m: Seq<(String, Vec<(String, Translation)>)>,
    p: int,
    e: (String, Vec<(String, Translation)>),
)
    requires
        0 <= p < m.len(),
    ensures
        map_size(m.update(p, e)) == map_size(m) - m[p].1@.len() + e.1@.len(),
    decreases m.len(),
{
    if p < m.len() - 1 {
        lemma_map_size_update(m.drop_last(), p, e);
        assert(m.update(p, e).drop_last() =~= m.drop_last().update(p, e));
    } else {
        assert(m.update(p, e).drop_last() =~= m.drop_last());
    }
}

proof fn lemma_map_size_insert(
    m: Seq<(String, Vec<(String, Translation)>)>,
    p: int,
    e: (String, Vec<(String, Translation)>),
)
    requires
        0 <= p <= m.len(),
    ensures
        map_size(m.insert(p, e)) == map_size(m) + e.1@.len(),
    decreases m.len(),
{
    if p < m.len() {
        lemma_map_size_insert(m.drop_last(), p, e);
        assert(m.insert(p, e).drop_last() =~= m.drop_last().insert(p, e));
    } else {
        assert(m.insert(p, e).drop_last() =~= m);
    }
}

proof fn lemma_map_size_prefix(m: Seq<(String, Vec<(String, Translation)>)>, i: int)
    requires
        0 <= i <= m.len(),
    ensures
        map_size(m.take(i)) <= map_size(m),
    decreases m.len() - i,
{
    if i < m.len() {
        lemma_map_size_prefix(m, i + 1);
        assert(m.take(i + 1).drop_last() =~= m.take(i));
    } else {
        assert(m.take(i) =~= m);
    }
}

/// A key absent from the first `j` keys and smaller than all from `j` on is
/// absent from a strictly sorted list.
proof fn lemma_absent_between<V>(v: Seq<(String, V)>, j: int, k: Seq<char>)
    requires
        strictly_sorted(keys_of(v)),
        0 <= j <= v.len(),
        forall|b: int| 0 <= b < j ==> seq_lt(#[trigger] v[b].0@, k),
        j < v.len() ==> seq_lt(k, v[j].0@),
    ensures
        alist_get(v, k) is None,
{
    assert forall|b: int| 0 <= b < v.len() implies (#[trigger] v[b]).0@ != k by {
        if b < j {
            crate::sorted::lemma_lt_asym(v[b].0@, k);
        } else {
            if b > j {
                assert(seq_lt(keys_of(v)[j], keys_of(v)[b]));
                crate::sorted::lemma_lt_trans(k, v[j].0@, v[b].0@);
            }
            crate::sorted::lemma_lt_asym(k, v[b].0@);
        }
    }
}

/// One step of walking two strictly sorted lists in merged order keeps the
/// order facts of the walk: whatever was visited lies below the next key on
/// each side.
proof fn lemma_merge_step<V, W>(
    s: Seq<(String, V)>,
    t: Seq<(String, W)>,
    langs: Seq<Seq<char>>,
    i: int,
    j: int,
    take_s: bool,
    take_t: bool,
    l: Seq<char>,
    keep: bool,
    i2: int,
    j2: int,
    langs2: Seq<Seq<char>>,
)
    requires
        i2 == if take_s { i + 1 } else { i },
        j2 == if take_t { j + 1 } else { j },
        langs2 == if keep { langs.push(l) } else { langs },
        strictly_sorted(keys_of(s)),
        strictly_sorted(keys_of(t)),
        0 <= i <= s.len(),
        0 <= j <= t.len(),
        take_s || take_t,
        take_s ==> i < s.len() && l == s[i].0@,
        take_t ==> j < t.len() && l == t[j].0@,
        take_s && !take_t && j < t.len() ==> seq_lt(l, t[j].0@),
        take_t && !take_s && i < s.len() ==> seq_lt(l, s[i].0@),
        strictly_sorted(langs),
        forall|n: int|
            0 <= n < langs.len() ==> (i < s.len() ==> seq_lt(#[trigger] langs[n], s[i].0@)) && (j
                < t.len() ==> seq_lt(langs[n], t[j].0@)),
        forall|a: int| 0 <= a < i ==> (j < t.len() ==> seq_lt(#[trigger] s[a].0@, t[j].0@)),
        forall|b: int| 0 <= b < j ==> (i < s.len() ==> seq_lt(#[trigger] t[b].0@, s[i].0@)),
    ensures
        strictly_sorted(langs2),
        forall|n: int|
            0 <= n < langs2.len() ==> (i2 < s.len() ==> seq_lt(#[trigger] langs2[n], s[i2].0@))
                && (j2 < t.len() ==> seq_lt(langs2[n], t[j2].0@)),
        forall|a: int| 0 <= a < i2 ==> (j2 < t.len() ==> seq_lt(#[trigger] s[a].0@, t[j2].0@)),
        forall|b: int| 0 <= b < j2 ==> (i2 < s.len() ==> seq_lt(#[trigger] t[b].0@, s[i2].0@)),
{
    // every visited key and `l` itself lie strictly below the next keys
    assert forall|x: Seq<char>|
        (x == l || (exists|n: int| 0 <= n < langs.len() && langs[n] == x) || (exists|a: int|
            0 <= a < i && s[a].0@ == x) || (exists|b: int| 0 <= b < j && t[b].0@ == x))
        implies (i2 < s.len() ==> seq_lt(x, s[i2].0@)) && (j2 < t.len() ==> seq_lt(x, t[j2].0@))
    by {
        // x is at most the current key on each side it was compared with
        let below_s = i < s.len() && (x == l && !take_s ==> seq_lt(x, s[i].0@));
        if i2 < s.len() {
            if take_s {
                assert(seq_lt(keys_of(s)[i], keys_of(s)[i + 1]));
                if x != l {
                    if exists|a: int| 0 <= a < i && s[a].0@ == x {
                        let a = choose|a: int| 0 <= a < i && s[a].0@ == x;
                        assert(seq_lt(keys_of(s)[a], keys_of(s)[i]));
                    } else if exists|b: int| 0 <= b < j && t[b].0@ == x {
                        let b = choose|b: int| 0 <= b < j && t[b].0@ == x;
                        assert(seq_lt(t[b].0@, s[i].0@));
                    } else {
                        let n = choose|n: int| 0 <= n < langs.len() && langs[n] == x;
                        assert(seq_lt(langs[n], s[i].0@));
                    }
                    crate::sorted::lemma_lt_trans(x, s[i].0@, s[i + 1].0@);
                }
            } else {
                if x != l {
                    if exists|a: int| 0 <= a < i && s[a].0@ == x {
                        let a = choose|a: int| 0 <= a < i && s[a].0@ == x;
                        assert(seq_lt(keys_of(s)[a], keys_of(s)[i]));
                    } else if exists|b: int| 0 <= b < j && t[b].0@ == x {
                        let b = choose|b: int| 0 <= b < j && t[b].0@ == x;
                        assert(seq_lt(t[b].0@, s[i].0@));
                    } else {
                        let n = choose|n: int| 0 <= n < langs.len() && langs[n] == x;
                        assert(seq_lt(langs[n], s[i].0@));
                    }
                }
            }
        }
        if j2 < t.len() {
            if take_t {
                assert(seq_lt(keys_of(t)[j], keys_of(t)[j + 1]));
                if x != l {
                    if exists|b: int| 0 <= b < j && t[b].0@ == x {
                        let b = choose|b: int| 0 <= b < j && t[b].0@ == x;
                        assert(seq_lt(keys_of(t)[b], keys_of(t)[j]));
                    } else if exists|a: int| 0 <= a < i && s[a].0@ == x {
                        let a = choose|a: int| 0 <= a < i && s[a].0@ == x;
                        assert(seq_lt(s[a].0@, t[j].0@));
                    } else {
                        let n = choose|n: int| 0 <= n < langs.len() && langs[n] == x;
                        assert(seq_lt(langs[n], t[j].0@));
                    }
                    crate::sorted::lemma_lt_trans(x, t[j].0@, t[j + 1].0@);
                }
            } else {
                if x != l {
                    if exists|b: int| 0 <= b < j && t[b].0@ == x {
                        let b = choose|b: int| 0 <= b < j && t[b].0@ == x;
                        assert(seq_lt(keys_of(t)[b], keys_of(t)[j]));
                    } else if exists|a: int| 0 <= a < i && s[a].0@ == x {
                        let a = choose|a: int| 0 <= a < i && s[a].0@ == x;
                        assert(seq_lt(s[a].0@, t[j].0@));
                    } else {
                        let n = choose|n: int| 0 <= n < langs.len() && langs[n] == x;
                        assert(seq_lt(langs[n], t[j].0@));
                    }
                }
            }
        }
    }
    assert forall|n: int| 0 <= n < langs2.len() implies (i2 < s.len() ==> seq_lt(
        #[trigger] langs2[n],
        s[i2].0@,
    )) && (j2 < t.len() ==> seq_lt(langs2[n], t[j2].0@)) by {
        if n < langs.len() {
            assert(langs2[n] == langs[n]);
        } else {
            assert(langs2[n] == l);
        }
    }
    assert forall|a: int| 0 <= a < i2 implies (j2 < t.len() ==> seq_lt(
        #[trigger] s[a].0@,
        t[j2].0@,
    )) by {
        if a == i {
            assert(s[a].0@ == l);
        }
    }
    assert forall|b: int| 0 <= b < j2 implies (i2 < s.len() ==> seq_lt(
        #[trigger] t[b].0@,
        s[i2].0@,
    )) by {
        if b == j {
            assert(t[b].0@ == l);
        }
    }
    if keep {
        assert forall|n: int, m: int| 0 <= n < m < langs2.len() implies seq_lt(
            #[trigger] langs2[n],
            #[trigger] langs2[m],
        ) by {
            if m == langs.len() {
                assert(langs2[m] == l);
                assert(langs2[n] == langs[n]);
                if take_s {
                    assert(seq_lt(langs[n], s[i].0@));
                } else {
                    assert(seq_lt(langs[n], t[j].0@));
                }
            } else {
                assert(seq_lt(langs[n], langs[m]));
            }
        }
    }
}

/// One step of the merged walk adds its key to the keys visited, and to the
/// languages kept when it passes the filter.
proof fn lemma_merge_union<V, W>(
    s: Seq<(String, V)>,
    t: Seq<(String, W)>,
    langs: Seq<Seq<char>>,
    i: int,
    j: int,
    take_s: bool,
    take_t: bool,
    l: Seq<char>,
    keep: bool,
    i2: int,
    j2: int,
    langs2: Seq<Seq<char>>,
    filter: Option<String>,
)
    requires
        i2 == if take_s { i + 1 } else { i },
        j2 == if take_t { j + 1 } else { j },
        langs2 == if keep { langs.push(l) } else { langs },
        0 <= i <= s.len(),
        0 <= j <= t.len(),
        take_s || take_t,
        take_s ==> i < s.len() && l == s[i].0@,
        take_t ==> j < t.len() && l == t[j].0@,
        keep == passes_lang_filter(l, filter),
        forall|x: Seq<char>|
            #![trigger langs.contains(x)]
            langs.contains(x) <==> ((keys_of(s.take(i)).contains(x) || keys_of(t.take(j)).contains(
                x,
            )) && passes_lang_filter(x, filter)),
    ensures
        forall|x: Seq<char>|
            #![trigger langs2.contains(x)]
            langs2.contains(x) <==> ((keys_of(s.take(i2)).contains(x) || keys_of(
                t.take(j2),
            ).contains(x)) && passes_lang_filter(x, filter)),
{
    broadcast use vstd::seq_lib::group_seq_properties;

    let ks0 = keys_of(s.take(i));
    let kt0 = keys_of(t.take(j));
    if take_s {
        assert(keys_of(s.take(i2)) =~= ks0.push(l));
    } else {
        assert(s.take(i2) == s.take(i));
    }
    if take_t {
        assert(keys_of(t.take(j2)) =~= kt0.push(l));
    } else {
        assert(t.take(j2) == t.take(j));
    }
    assert forall|x: Seq<char>|
        langs2.contains(x) <==> ((keys_of(s.take(i2)).contains(x) || keys_of(t.take(j2)).contains(
            x,
        )) && passes_lang_filter(x, filter)) by {
        assert(langs2.contains(x) <==> (langs.contains(x) || (keep && x == l)));
        assert(keys_of(s.take(i2)).contains(x) <==> (ks0.contains(x) || (take_s && x == l)));
        assert(keys_of(t.take(j2)).contains(x) <==> (kt0.contains(x) || (take_t && x == l)));
    }
}

/// Compares the two sides language by language, over the union of their
/// languages in order, keeping only the languages that match the filter when
/// one is given, and sums the counts.
pub fn collect_diff(
    source: &Vec<(String, Vec<(String, Translation)>)>,
    target: &Vec<(String, Vec<(String, Translation)>)>,
    lang_filter: &Option<String>,
) -> (r: (DiffSummary, Vec<LanguageDiff>))
    requires
        language_map_wf(source@),
        language_map_wf(target@),
        map_size(source@) + map_size(target@) <= usize::MAX,
        source.len() + target.len() <= usize::MAX,
    ensures
        strictly_sorted(diff_languages(r.1@)),
        forall|x: Seq<char>|
            #![trigger diff_languages(r.1@).contains(x)]
            diff_languages(r.1@).contains(x) <==> ((keys_of(source@).contains(x) || keys_of(
                target@,
            ).contains(x)) && passes_lang_filter(x, *lang_filter)),
        forall|n: int|
            0 <= n < r.1.len() ==> is_language_diff(
                #[trigger] r.1@[n],
                r.1@[n].language@,
                side(source@, r.1@[n].language@),
                side(target@, r.1@[n].language@),
            ),
        r.0.languages == r.1.len(),
        (r.0.added as int, r.0.removed as int, r.0.changed as int, r.0.unchanged as int)
            == diff_totals(r.1@),
{
    let mut per: Vec<LanguageDiff> = Vec::new();
    let mut summary = DiffSummary { languages: 0, added: 0, removed: 0, changed: 0, unchanged: 0 };
    let empty: Vec<(String, Translation)> = Vec::new();
    let mut i: usize = 0;
    let mut j: usize = 0;
    proof {
        assert(source@.take(0) =~= Seq::empty());
        assert(target@.take(0) =~= Seq::empty());
        assert(keys_of(empty@) =~= Seq::empty());
        lemma_map_size_prefix(source@, 0);
        lemma_map_size_prefix(target@, 0);
    }
    while i < source.len() || j < target.len()
        invariant
            i <= source.len(),
            j <= target.len(),
            language_map_wf(source@),
            language_map_wf(target@),
            map_size(source@) + map_size(target@) <= usize::MAX,
            source.len() + target.len() <= usize::MAX,
            empty@.len() == 0,
            strictly_sorted(diff_languages(per@)),
            forall|n: int|
                0 <= n < per.len() ==> (i < source.len() ==> seq_lt(
                    #[trigger] per@[n].language@,
                    source@[i as int].0@,
                )) && (j < target.len() ==> seq_lt(per@[n].language@, target@[j as int].0@)),
            forall|a: int|
                0 <= a < i ==> (j < target.len() ==> seq_lt(
                    #[trigger] source@[a].0@,
                    target@[j as int].0@,
                )),
            forall|b: int|
                0 <= b < j ==> (i < source.len() ==> seq_lt(
                    #[trigger] target@[b].0@,
                    source@[i as int].0@,
                )),
            forall|x: Seq<char>|
                #![trigger diff_languages(per@).contains(x)]
                diff_languages(per@).contains(x) <==> ((keys_of(source@.take(i as int)).contains(x)
                    || keys_of(target@.take(j as int)).contains(x)) && passes_lang_filter(
                    x,
                    *lang_filter,
                )),
            forall|n: int|
                0 <= n < per.len() ==> is_language_diff(
                    #[trigger] per@[n],
                    per@[n].language@,
                    side(source@, per@[n].language@),
                    side(target@, per@[n].language@),
                ),
            summary.languages == per.len(),
            per.len() <= i + j,
            (
                summary.added as int,
                summary.removed as int,
                summary.changed as int,
                summary.unchanged as int,
            ) == diff_totals(per@),
            summary.added + summary.removed + summary.changed + summary.unchanged <= map_size(
                source@.take(i as int),
            ) + map_size(target@.take(j as int)),
        decreases source.len() + target.len() - i - j,
    {
        let take_source: bool;
        let take_target: bool;
        if i < source.len() && j < target.len() {
            if crate::sorted::str_lt(source[i].0.as_str(), target[j].0.as_str()) {
                take_source = true;
                take_target = false;
            } else if crate::text::str_eq(source[i].0.as_str(), target[j].0.as_str()) {
                take_source = true;
                take_target = true;
            } else {
                proof {
                    crate::sorted::lemma_lt_total(source@[i as int].0@, target@[j as int].0@);
                }
                take_source = false;
                take_target = true;
            }
        } else if i < source.len() {
            take_source = true;
            take_target = false;
        } else {
            take_source = false;
            take_target = true;
        }
        let lang: &String = if take_source { &source[i].0 } else { &target[j].0 };
        let ghost l = lang@;
        proof {
            if take_source {
                lemma_alist_get_at(source@, i as int);
                assert(side(source@, l) == source@[i as int].1@);
            } else {
                lemma_absent_between(source@, i as int, l);
                assert(side(source@, l) =~= empty@);
            }
            if take_target {
                lemma_alist_get_at(target@, j as int);
                assert(side(target@, l) == target@[j as int].1@);
            } else {
                lemma_absent_between(target@, j as int, l);
                assert(side(target@, l) =~= empty@);
            }
        }
        let s_side: &Vec<(String, Translation)> = if take_source { &source[i].1 } else { &empty };
        let t_side: &Vec<(String, Translation)> = if take_target { &target[j].1 } else { &empty };
        let wanted = match lang_filter {
            None => true,
            Some(f) => lang_matches(lang.as_str(), f.as_str()),
        };
        assert(wanted == passes_lang_filter(l, *lang_filter));
        let ghost per0 = per@;
        let ghost langs0 = diff_languages(per@);
        let ghost i0 = i as int;
        let ghost j0 = j as int;
        let ghost ms_s = if take_source { map_size(source@.take(i0 + 1)) } else { map_size(source@.take(i0)) };
        let ghost ms_t = if take_target { map_size(target@.take(j0 + 1)) } else { map_size(target@.take(j0)) };
        proof {
            if take_source {
                assert(map_size(source@.take(i0 + 1)) == map_size(source@.take(i0))
                    + source@[i0].1@.len()) by {
                    assert(source@.take(i0 + 1).drop_last() =~= source@.take(i0));
                }
                lemma_map_size_prefix(source@, i0 + 1);
            } else {
                lemma_map_size_prefix(source@, i0);
            }
            if take_target {
                assert(map_size(target@.take(j0 + 1)) == map_size(target@.take(j0))
                    + target@[j0].1@.len()) by {
                    assert(target@.take(j0 + 1).drop_last() =~= target@.take(j0));
                }
                lemma_map_size_prefix(target@, j0 + 1);
            } else {
                lemma_map_size_prefix(target@, j0);
            }
            assert(ms_s + ms_t <= usize::MAX);
        }
        if wanted {
            let d = diff_language(lang.clone(), s_side, t_side);
            proof {
                assert(summary.added + summary.removed + summary.changed + summary.unchanged
                    + d.added.len() + d.removed.len() + d.changed.len() + d.unchanged <= ms_s + ms_t);
            }
            summary.languages = summary.languages + 1;
            summary.added = summary.added + d.added.len();
            summary.removed = summary.removed + d.removed.len();
            summary.changed = summary.changed + d.changed.len();
            summary.unchanged = summary.unchanged + d.unchanged;
            per.push(d);
            proof {
                assert(per@.drop_last() =~= per0);
                assert(diff_languages(per@) =~= diff_languages(per0).push(l));
            }
        }
        if take_source {
            i = i + 1;
        }
        if take_target {
            j = j + 1;
        }
        proof {
            let langs2 = if wanted { langs0.push(l) } else { langs0 };
            assert(diff_languages(per@) == langs2);
            lemma_merge_step(
                source@, target@, langs0, i0, j0, take_source, take_target, l, wanted,
                i as int, j as int, langs2,
            );
            lemma_merge_union(
                source@, target@, langs0, i0, j0, take_source, take_target, l, wanted,
                i as int, j as int, langs2, *lang_filter,
            );
            assert forall|n: int| 0 <= n < per.len() implies (i < source.len() ==> seq_lt(
                #[trigger] per@[n].language@,
                source@[i as int].0@,
            )) && (j < target.len() ==> seq_lt(per@[n].language@, target@[j as int].0@)) by {
                assert(langs2[n] == per@[n].language@);
            }
        }
    }
    proof {
        assert(source@.take(i as int) =~= source@);
        assert(target@.take(j as int) =~= target@);
        assert(keys_of(source@.take(i as int)) == keys_of(source@));
        assert(keys_of(target@.take(j as int)) == keys_of(target@));
    }
    (summary, per)
}

/// The text of one plural form: its category's debug name, `=`, its text.
pub open spec fn form_text(f: (PluralCategory, Seq<char>)) -> Seq<char> {
    category_debug_name(f.0) + "="@ + f.1
}

/// A translation as one line of text: nothing for an empty one, the text of a
/// singular one, the forms of a plural one joined with ` | `.
pub open spec fn translation_text(t: TranslationView) -> Seq<char> {
    match t {
        TranslationView::Empty => Seq::empty(),
        TranslationView::Singular(v) => v,
        TranslationView::Plural(_, forms) => join_seq(
            forms.map_values(|f: (PluralCategory, Seq<char>)| form_text(f)),
            " | "@,
        ),
    }
}

/// A translation as one line of text (see `translation_text`).
pub fn translation_as_text(value: &Translation) -> (r: String)
    ensures
        r@ == translation_text(value@),
{
    match value {
        Translation::Empty => String::new(),
        Translation::Singular(v) => v.clone(),
        Translation::Plural(p) => {
            let mut parts: Vec<String> = Vec::new();
            let mut i: usize = 0;
            let ghost texts = forms_view(p.forms@).map_values(
                |f: (PluralCategory, Seq<char>)| form_text(f),
            );
            while i < p.forms.len()
                invariant
                    i <= p.forms.len(),
                    texts == forms_view(p.forms@).map_values(
                        |f: (PluralCategory, Seq<char>)| form_text(f),
                    ),
                    strings_view(parts@) == texts.take(i as int),
                decreases p.forms.len() - i,
            {
                let mut part = String::from_str(p.forms[i].0.debug_name());
                crate::text::push_str(&mut part, "=");
                crate::text::push_str(&mut part, p.forms[i].1.as_str());
                let ghost parts0 = parts@;
                parts.push(part);
                proof {
                    assert(strings_view(parts@) =~= strings_view(parts0).push(texts[i as int]));
                    assert(texts.take(i + 1) =~= texts.take(i as int).push(texts[i as int]));
                }
                i = i + 1;
            }
            proof {
                assert(texts.take(i as int) =~= texts);
            }
            join(&parts, " | ")
        },
    }
}

/// How a changed key is shown: the key, then the target's text and the
/// source's text.
pub open spec fn changed_text(c: ChangedItem) -> Seq<char> {
    c.key@ + " ('"@ + translation_text(c.target@) + "' -> '"@ + translation_text(c.source@) + "')"@
}

/// The lines of the human report for one language.
pub open spec fn language_lines(d: LanguageDiff) -> Seq<Seq<char>> {
    seq![
        "\nLanguage: "@ + d.language@,
        "  added: "@ + decimal(d.added.len() as nat),
        "  removed: "@ + decimal(d.removed.len() as nat),
        "  changed: "@ + decimal(d.changed.len() as nat),
        "  unchanged: "@ + decimal(d.unchanged as nat),
    ] + (if d.added.len() > 0 {
        seq!["  added keys: "@ + join_seq(strings_view(d.added@), ", "@)]
    } else {
        Seq::empty()
    }) + (if d.removed.len() > 0 {
        seq!["  removed keys: "@ + join_seq(strings_view(d.removed@), ", "@)]
    } else {
        Seq::empty()
    }) + (if d.changed.len() > 0 {
        seq![
            "  changed keys: "@ + join_seq(
                d.changed@.map_values(|c: ChangedItem| changed_text(c)),
                ", "@,
            ),
        ]
    } else {
        Seq::empty()
    })
}

/// The lines of the human report for each language, in order.
pub open spec fn languages_lines(per: Seq<LanguageDiff>) -> Seq<Seq<char>>
    decreases per.len(),
{
    if per.len() == 0 {
        Seq::empty()
    } else {
        languages_lines(per.drop_last()) + language_lines(per.last())
    }
}

/// The human report: a heading, the number of languages, the totals, then
/// each language's counts and keys, one line each, joined with newlines.
pub open spec fn human_report(s: DiffSummary, per: Seq<LanguageDiff>) -> Seq<char> {
    join_seq(
        seq![
            "=== Diff ==="@,
            "Languages: "@ + decimal(s.languages as nat),
            "Totals: added="@ + decimal(s.added as nat) + ", removed="@ + decimal(
                s.removed as nat,
            ) + ", changed="@ + decimal(s.changed as nat) + ", unchanged="@ + decimal(
                s.unchanged as nat,
            ),
        ] + languages_lines(per),
        "\n"@,
    )
}

/// `prefix` followed by the decimal rendering of `n`.
fn labelled_count(prefix: &str, n: usize) -> (r: String)
    ensures
        r@ == prefix@ + decimal(n as nat),
{
    let mut r = String::from_str(prefix);
    let d = crate::text::decimal_string(n);
    crate::text::push_str(&mut r, d.as_str());
    r
}

/// Appends the lines of the human report for one language.
fn push_language_lines(d: &LanguageDiff, lines: &mut Vec<String>)
    ensures
        strings_view(final(lines)@) == strings_view(old(lines)@) + language_lines(*d),
{
    let ghost start = strings_view(lines@);
    let mut first = String::from_str("\nLanguage: ");
    crate::text::push_str(&mut first, d.language.as_str());
    let mut mine: Vec<String> = Vec::new();
    mine.push(first);
    mine.push(labelled_count("  added: ", d.added.len()));
    mine.push(labelled_count("  removed: ", d.removed.len()));
    mine.push(labelled_count("  changed: ", d.changed.len()));
    mine.push(labelled_count("  unchanged: ", d.unchanged));
    let ghost base = strings_view(mine@);
    if d.added.len() > 0 {
        let mut line = String::from_str("  added keys: ");
        let keys = join(&d.added, ", ");
        crate::text::push_str(&mut line, keys.as_str());
        mine.push(line);
    }
    let ghost with_added = strings_view(mine@);
    if d.removed.len() > 0 {
        let mut line = String::from_str("  removed keys: ");
        let keys = join(&d.removed, ", ");
        crate::text::push_str(&mut line, keys.as_str());
        mine.push(line);
    }
    let ghost with_removed = strings_view(mine@);
    if d.changed.len() > 0 {
        let mut items: Vec<String> = Vec::new();
        let mut i: usize = 0;
        let ghost texts = d.changed@.map_values(|c: ChangedItem| changed_text(c));
        while i < d.changed.len()
            invariant
                i <= d.changed.len(),
                texts == d.changed@.map_values(|c: ChangedItem| changed_text(c)),
                strings_view(items@) == texts.take(i as int),
            decreases d.changed.len() - i,
        {
            let c = &d.changed[i];
            let mut item = c.key.clone();
            crate::text::push_str(&mut item, " ('");
            let tt = translation_as_text(&c.target);
            crate::text::push_str(&mut item, tt.as_str());
            crate::text::push_str(&mut item, "' -> '");
            let st = translation_as_text(&c.source);
            crate::text::push_str(&mut item, st.as_str());
            crate::text::push_str(&mut item, "')");
            let ghost items0 = items@;
            items.push(item);
            proof {
                assert(strings_view(items@) =~= strings_view(items0).push(texts[i as int]));
                assert(texts.take(i + 1) =~= texts.take(i as int).push(texts[i as int]));
            }
            i = i + 1;
        }
        proof {
            assert(texts.take(i as int) =~= texts);
        }
        let mut line = String::from_str("  changed keys: ");
        let joined = join(&items, ", ");
        crate::text::push_str(&mut line, joined.as_str());
        mine.push(line);
    }
    proof {
        assert(strings_view(mine@) =~= language_lines(*d));
    }
    let mut k: usize = 0;
    while k < mine.len()
        invariant
            k <= mine.len(),
            strings_view(lines@) == start + strings_view(mine@).take(k as int),
        decreases mine.len() - k,
    {
        let ghost l0 = lines@;
        lines.push(mine[k].clone());
        proof {
            assert(strings_view(lines@) =~= strings_view(l0).push(mine@[k as int]@));
            assert(strings_view(mine@).take(k + 1) =~= strings_view(mine@).take(k as int).push(
                mine@[k as int]@,
            ));
        }
        k = k + 1;
    }
    proof {
        assert(strings_view(mine@).take(k as int) =~= strings_view(mine@));
    }
}

/// The human report of a comparison (see `human_report`).
pub fn render_human(summary: &DiffSummary, per_language: &Vec<LanguageDiff>) -> (r: String)
    ensures
        r@ == human_report(*summary, per_language@),
{
    let mut lines: Vec<String> = Vec::new();
    lines.push(String::from_str("=== Diff ==="));
    lines.push(labelled_count("Languages: ", summary.languages));
    let mut totals = labelled_count("Totals: added=", summary.added);
    let part = labelled_count(", removed=", summary.removed);
    crate::text::push_str(&mut totals, part.as_str());
    let part = labelled_count(", changed=", summary.changed);
    crate::text::push_str(&mut totals, part.as_str());
    let part = labelled_count(", unchanged=", summary.unchanged);
    crate::text::push_str(&mut totals, part.as_str());
    proof {
        assert(totals@ =~= "Totals: added="@ + decimal(summary.added as nat) + ", removed="@ + decimal(
                summary.removed as nat,
            ) + ", changed="@ + decimal(summary.changed as nat) + ", unchanged="@ + decimal(
                summary.unchanged as nat,
            ));
    }
    lines.push(totals);
    let ghost head = strings_view(lines@);
    proof {
        assert(head =~= seq![
            "=== Diff ==="@,
            "Languages: "@ + decimal(summary.languages as nat),
            "Totals: added="@ + decimal(summary.added as nat) + ", removed="@ + decimal(
                summary.removed as nat,
            ) + ", changed="@ + decimal(summary.changed as nat) + ", unchanged="@ + decimal(
                summary.unchanged as nat,
            ),
        ]);
    }
    let mut i: usize = 0;
    proof {
        assert(per_language@.take(0) =~= Seq::<LanguageDiff>::empty());
        assert(head + languages_lines(per_language@.take(0)) =~= head);
    }
    while i < per_language.len()
        invariant
            i <= per_language.len(),
            strings_view(lines@) == head + languages_lines(per_language@.take(i as int)),
        decreases per_language.len() - i,
    {
        push_language_lines(&per_language[i], &mut lines);
        proof {
            assert(per_language@.take(i + 1).drop_last() =~= per_language@.take(i as int));
        }
        i = i + 1;
    }
    proof {
        assert(per_language@.take(i as int) =~= per_language@);
    }
    join(&lines, "\n")
}

/// The outcome of checking a language code: `Ok` for a well-formed code,
/// otherwise the error that `validate_language_code` gives.
pub open spec fn lang_code_check(l: Seq<char>) -> Result<(), Seq<char>> {
    if valid_lang_code(l) {
        Ok(())
    } else if l.len() == 0 {
        Err("Language code cannot be empty"@)
    } else {
        Err("Invalid language code format: "@ + l + ". Expected format: 'en' or 'en-US'"@)
    }
}

/// The outcome of the diff command's input checks, given how the source and
/// target file checks came out: the first failing check gives the error.
pub open spec fn diff_inputs_check(
    source: Result<(), Seq<char>>,
    target: Result<(), Seq<char>>,
    lang: Option<String>,
) -> Result<(), Seq<char>> {
    if source is Err {
        source
    } else if target is Err {
        target
    } else {
        match lang {
            Some(l) => lang_code_check(l@),
            None => Ok(()),
        }
    }
}

/// Checks what the diff command reads before reading it: the source and the
/// target must be existing files, and a requested language must be well
/// formed. The first failing check gives the error; what the disk holds
/// decides the file checks.
pub fn check_diff_inputs(opts: &DiffOptions) -> (r: Result<(), String>)
    ensures
        r is Ok ==> (opts.lang matches Some(l) ==> valid_lang_code(l@)),
        (opts.lang matches Some(l) && !valid_lang_code(l@)) ==> r is Err,
        exists|se: bool, sf: bool, te: bool, tf: bool|
            #![trigger file_check(opts.source@, se, sf), file_check(opts.target@, te, tf)]
            result_is(
                r,
                diff_inputs_check(
                    file_check(opts.source@, se, sf),
                    file_check(opts.target@, te, tf),
                    opts.lang,
                ),
            ),
{
    let a = validate_file_path(opts.source.as_str());
    let ghost (se, sf) = if result_is(a, file_check(opts.source@, false, false)) {
        (false, false)
    } else if result_is(a, file_check(opts.source@, true, false)) {
        (true, false)
    } else {
        (true, true)
    };
    if let Err(e) = a {
        proof {
            let tgt = file_check(opts.target@, false, false);
            assert(result_is(
                Err(e),
                diff_inputs_check(file_check(opts.source@, se, sf), tgt, opts.lang),
            ));
        }
        return Err(e);
    }
    let b = validate_file_path(opts.target.as_str());
    let ghost (te, tf) = if result_is(b, file_check(opts.target@, false, false)) {
        (false, false)
    } else if result_is(b, file_check(opts.target@, true, false)) {
        (true, false)
    } else {
        (true, true)
    };
    if let Err(e) = b {
        proof {
            assert(result_is(
                Err(e),
                diff_inputs_check(
                    file_check(opts.source@, se, sf),
                    file_check(opts.target@, te, tf),
                    opts.lang,
                ),
            ));
        }
        return Err(e);
    }
    if let Some(lang) = &opts.lang {
        let c = validate_language_code(lang.as_str());
        proof {
            assert(result_is(
                c,
                diff_inputs_check(
                    file_check(opts.source@, se, sf),
                    file_check(opts.target@, te, tf),
                    opts.lang,
                ),
            ));
        }
        return c;
    }
    proof {
        assert(result_is(
            Ok(()),
            diff_inputs_check(
                file_check(opts.source@, se, sf),
                file_check(opts.target@, te, tf),
                opts.lang,
            ),
        ));
    }
    Ok(())
}

/// The comparison the diff command reports: the translations of both sides
/// grouped by language, the per-language comparison, its totals and, unless
/// JSON was asked for, the human report.
#[derive(Debug, Clone)]
pub struct DiffReport {
    pub source_languages: Vec<(String, Vec<(String, Translation)>)>,
    pub target_languages: Vec<(String, Vec<(String, Translation)>)>,
    pub summary: DiffSummary,
    pub languages: Vec<LanguageDiff>,
    pub text: Option<String>,
}

/// Compares the resources read from the source with those read from the
/// target: groups each side by language, compares them language by language
/// under the language filter, and renders the human report unless JSON was
/// asked for.
pub fn run_diff_command(
    opts: &DiffOptions,
    source_resources: Vec<Resource>,
    target_resources: Vec<Resource>,
) -> (r: DiffReport)
    requires
        total_entries(resources_view(source_resources@)) + total_entries(
            resources_view(target_resources@),
        ) + source_resources.len() + target_resources.len() <= usize::MAX,
    ensures
        language_map_wf(r.source_languages@),
        language_map_wf(r.target_languages@),
        language_map_view(r.source_languages@) == languages_of(resources_view(source_resources@)),
        language_map_view(r.target_languages@) == languages_of(resources_view(target_resources@)),
        strictly_sorted(diff_languages(r.languages@)),
        forall|x: Seq<char>|
            #![trigger diff_languages(r.languages@).contains(x)]
            diff_languages(r.languages@).contains(x) <==> ((keys_of(r.source_languages@).contains(x)
                || keys_of(r.target_languages@).contains(x)) && passes_lang_filter(x, opts.lang)),
        forall|n: int|
            0 <= n < r.languages.len() ==> is_language_diff(
                #[trigger] r.languages@[n],
                r.languages@[n].language@,
                side(r.source_languages@, r.languages@[n].language@),
                side(r.target_languages@, r.languages@[n].language@),
            ),
        r.summary.languages == r.languages.len(),
        (
            r.summary.added as int,
            r.summary.removed as int,
            r.summary.changed as int,
            r.summary.unchanged as int,
        ) == diff_totals(r.languages@),
        match r.text {
            Some(t) => !opts.json && t@ == human_report(r.summary, r.languages@),
            None => opts.json,
        },
{
    let source_languages = build_language_map(source_resources);
    let target_languages = build_language_map(target_resources);
    let (summary, languages) = collect_diff(&source_languages, &target_languages, &opts.lang);
    let text = if opts.json {
        None
    } else {
        Some(render_human(&summary, &languages))
    };
    DiffReport { source_languages, target_languages, summary, languages, text }
}

proof fn lemma_filter_partition<A>(
    xs: Seq<A>,
    p: spec_fn(A) -> bool,
    q: spec_fn(A) -> bool,
    w: spec_fn(A) -> bool,
)
    requires
        forall|i: int|
            0 <= i < xs.len() ==> (if p(#[trigger] xs[i]) { 1int } else { 0 }) + (if q(xs[i]) {
                1int
            } else {
                0
            }) + (if w(xs[i]) { 1int } else { 0 }) == 1,
    ensures
        xs.filter(p).len() + xs.filter(q).len() + xs.filter(w).len() == xs.len(),
    decreases xs.len(),
{
    if xs.len() == 0 {
        reveal(Seq::filter);
    } else {
        let init = xs.drop_last();
        assert forall|i: int| 0 <= i < init.len() implies (if p(#[trigger] init[i]) {
            1int
        } else {
            0
        }) + (if q(init[i]) { 1int } else { 0 }) + (if w(init[i]) { 1int } else { 0 }) == 1 by {
            assert(init[i] == xs[i]);
        }
        lemma_filter_partition(init, p, q, w);
        assert(init.push(xs.last()) =~= xs);
        init.lemma_filter_push(xs.last(), p);
        init.lemma_filter_push(xs.last(), q);
        init.lemma_filter_push(xs.last(), w);
        assert(xs[xs.len() - 1] == xs.last());
    }
}

proof fn lemma_filter_none<A>(xs: Seq<A>, p: spec_fn(A) -> bool)
    requires
        forall|i: int| 0 <= i < xs.len() ==> !p(#[trigger] xs[i]),
    ensures
        xs.filter(p).len() == 0,
    decreases xs.len(),
{
    if xs.len() == 0 {
        reveal(Seq::filter);
    } else {
        let init = xs.drop_last();
        assert forall|i: int| 0 <= i < init.len() implies !p(#[trigger] init[i]) by {
            assert(init[i] == xs[i]);
        }
        lemma_filter_none(init, p);
        assert(init.push(xs.last()) =~= xs);
        init.lemma_filter_push(xs.last(), p);
        assert(xs[xs.len() - 1] == xs.last());
    }
}

/// Every key of the source side is added, changed or unchanged, and only
/// one of them: the three counts of a language add up to the number of its
/// source keys.
pub proof fn law_diff_accounts_for_source_keys(
    d: LanguageDiff,
    l: Seq<char>,
    s: Seq<(String, Translation)>,
    t: Seq<(String, Translation)>,
)
    requires
        is_language_diff(d, l, s, t),
    ensures
        d.added.len() + d.changed.len() + d.unchanged == s.len(),
{
    let ks = keys_of(s);
    lemma_filter_partition(ks, missing_from(t), differing(s, t), agreeing(s, t));
    assert(strings_view(d.added@).len() == d.added.len());
    assert(changed_keys(d.changed@).len() == d.changed.len());
}

/// Comparing a language with itself finds nothing added, removed or
/// changed: every key is unchanged.
pub proof fn law_diff_with_itself_is_clean(
    d: LanguageDiff,
    l: Seq<char>,
    s: Seq<(String, Translation)>,
)
    requires
        strictly_sorted(keys_of(s)),
        is_language_diff(d, l, s, s),
    ensures
        d.added.len() == 0,
        d.removed.len() == 0,
        d.changed.len() == 0,
        d.unchanged == s.len(),
{
    let ks = keys_of(s);
    assert forall|i: int| 0 <= i < ks.len() implies !missing_from(s)(#[trigger] ks[i]) by {
        lemma_alist_get_at(s, i);
    }
    lemma_filter_none(ks, missing_from(s));
    lemma_filter_none(ks, differing(s, s));
    assert(strings_view(d.added@).len() == d.added.len());
    assert(strings_view(d.removed@).len() == d.removed.len());
    assert(changed_keys(d.changed@).len() == d.changed.len());
    law_diff_accounts_for_source_keys(d, l, s, s);
}


/// Each count in a language's block of the human report is the number of
/// keys its category lists: the line after the language names the number
/// of added keys, then of removed keys, then of changed keys; and the key
/// lines that follow list exactly those keys.
pub proof fn law_language_counts_match_key_lists(d: LanguageDiff)
    ensures
        language_lines(d)[0] == "\nLanguage: "@ + d.language@,
        language_lines(d)[1] == "  added: "@ + decimal(d.added.len() as nat),
        language_lines(d)[2] == "  removed: "@ + decimal(d.removed.len() as nat),
        language_lines(d)[3] == "  changed: "@ + decimal(d.changed.len() as nat),
        language_lines(d)[4] == "  unchanged: "@ + decimal(d.unchanged as nat),
        d.added.len() > 0 ==> language_lines(d)[5] == "  added keys: "@ + join_seq(strings_view(d.added@), ", "@),
        d.removed.len() > 0 ==> language_lines(d)[if d.added.len() > 0 { 6int } else { 5int }] == "  removed keys: "@
            + join_seq(strings_view(d.removed@), ", "@),
        language_lines(d).len() == 5 + (if d.added.len() > 0 { 1int } else { 0int }) + (if d.removed.len() > 0 {
            1int
        } else {
            0int
        }) + (if d.changed.len() > 0 { 1int } else { 0int }),
{
}

} // verus!
