//! The stats command: per-language counts of entries by review status, the
//! completion basis, and the number of distinct keys.
use crate::model::{entries_view, resources_view, Entry, EntryStatus, EntryView, Resource, ResourceView};
use crate::sorted::{alist_put, keys_of, strictly_sorted};
use crate::sync::total_entries;
use crate::text::str_eq;
use vstd::prelude::*;

verus! {

/// How many entries have each status.
#[derive(Debug, Clone, Copy, PartialEq, Eq, Structural)]
pub struct StatusCounts {
    pub translated: usize,
    pub needs_review: usize,
    pub stale: usize,
    pub new: usize,
    pub do_not_translate: usize,
}

/// The counts of one language: all entries, by status, the translated ones
/// and those that count toward completion (all but do-not-translate).
#[derive(Debug, Clone, Copy, PartialEq, Eq, Structural)]
pub struct LangStats {
    pub total: usize,
    pub by_status: StatusCounts,
    pub translated: usize,
    pub denominator: usize,
}

/// The number of entries with status `s`.
pub open spec fn status_count(es: Seq<EntryView>, s: EntryStatus) -> nat {
    es.filter(|e: EntryView| e.status == s).len()
}

/// The counts of one status in a `StatusCounts`.
pub open spec fn count_of(c: StatusCounts, s: EntryStatus) -> int {
    match s {
        EntryStatus::Translated => c.translated as int,
        EntryStatus::NeedsReview => c.needs_review as int,
        EntryStatus::Stale => c.stale as int,
        EntryStatus::New => c.new as int,
        EntryStatus::DoNotTranslate => c.do_not_translate as int,
    }
}

/// `st` is what counting the entries `es` gives.
pub open spec fn stats_of(st: LangStats, es: Seq<EntryView>) -> bool {
    &&& st.total == es.len()
    &&& forall|s: EntryStatus| #[trigger] count_of(st.by_status, s) == status_count(es, s)
    &&& st.translated == status_count(es, EntryStatus::Translated)
    &&& st.denominator == es.len() - status_count(es, EntryStatus::DoNotTranslate)
}

impl LangStats {
    /// No entries counted yet.
    pub fn new() -> (r: LangStats)
        ensures
            stats_of(r, Seq::empty()),
            r.total == 0,
            r.by_status == (StatusCounts { translated: 0, needs_review: 0, stale: 0, new: 0, do_not_translate: 0 }),
            r.translated == 0,
            r.denominator == 0,
    {
        proof {
            reveal(Seq::filter);
        }
        LangStats {
            total: 0,
            by_status: StatusCounts { translated: 0, needs_review: 0, stale: 0, new: 0, do_not_translate: 0 },
            translated: 0,
            denominator: 0,
        }
    }
}

/// Counts one more entry with status `status`.
pub fn accumulate(lang_stats: &mut LangStats, status: &EntryStatus)
    requires
        old(lang_stats).total < usize::MAX,
        old(lang_stats).by_status.translated <= old(lang_stats).total,
        old(lang_stats).by_status.needs_review <= old(lang_stats).total,
        old(lang_stats).by_status.stale <= old(lang_stats).total,
        old(lang_stats).by_status.new <= old(lang_stats).total,
        old(lang_stats).by_status.do_not_translate <= old(lang_stats).total,
        old(lang_stats).translated <= old(lang_stats).total,
        old(lang_stats).denominator <= old(lang_stats).total,
    ensures
        final(lang_stats).total == old(lang_stats).total + 1,
        forall|s: EntryStatus|
            #[trigger] count_of(final(lang_stats).by_status, s) == count_of(old(lang_stats).by_status, s)
                + if s == *status {
                1int
            } else {
                0
            },
        final(lang_stats).translated == old(lang_stats).translated + if *status
            == EntryStatus::Translated {
            1int
        } else {
            0
        },
        final(lang_stats).denominator == old(lang_stats).denominator + if *status
            == EntryStatus::DoNotTranslate {
            0int
        } else {
            1
        },
{
    lang_stats.total = lang_stats.total + 1;
    match status {
        EntryStatus::DoNotTranslate => {
            lang_stats.by_status.do_not_translate = lang_stats.by_status.do_not_translate + 1;
        },
        EntryStatus::New => {
            lang_stats.by_status.new = lang_stats.by_status.new + 1;
        },
        EntryStatus::Stale => {
            lang_stats.by_status.stale = lang_stats.by_status.stale + 1;
        },
        EntryStatus::NeedsReview => {
            lang_stats.by_status.needs_review = lang_stats.by_status.needs_review + 1;
        },
        EntryStatus::Translated => {
            lang_stats.by_status.translated = lang_stats.by_status.translated + 1;
        },
    }
    if *status == EntryStatus::Translated {
        lang_stats.translated = lang_stats.translated + 1;
    }
    if *status != EntryStatus::DoNotTranslate {
        lang_stats.denominator = lang_stats.denominator + 1;
    }
}

/// The counts of the entries of one resource.
pub fn resource_stats(entries: &Vec<Entry>) -> (r: LangStats)
    ensures
        stats_of(r, entries_view(entries@)),
{
    let ghost ev = entries_view(entries@);
    let mut st = LangStats::new();
    let mut i: usize = 0;
    proof {
        assert(ev.take(0) =~= Seq::<EntryView>::empty());
    }
    while i < entries.len()
        invariant
            i <= entries.len(),
            ev == entries_view(entries@),
            stats_of(st, ev.take(i as int)),
            st.by_status.translated <= st.total,
            st.by_status.needs_review <= st.total,
            st.by_status.stale <= st.total,
            st.by_status.new <= st.total,
            st.by_status.do_not_translate <= st.total,
            st.translated <= st.total,
            st.denominator <= st.total,
        decreases entries.len() - i,
    {
        let ghost st0 = st;
        accumulate(&mut st, &entries[i].status);
        proof {
            assert(count_of(st.by_status, EntryStatus::Translated) <= count_of(st0.by_status, EntryStatus::Translated) + 1);
            assert(count_of(st.by_status, EntryStatus::NeedsReview) <= count_of(st0.by_status, EntryStatus::NeedsReview) + 1);
            assert(count_of(st.by_status, EntryStatus::Stale) <= count_of(st0.by_status, EntryStatus::Stale) + 1);
            assert(count_of(st.by_status, EntryStatus::New) <= count_of(st0.by_status, EntryStatus::New) + 1);
            assert(count_of(st.by_status, EntryStatus::DoNotTranslate) <= count_of(st0.by_status, EntryStatus::DoNotTranslate) + 1);
            let e = ev[i as int];
            assert(ev.take(i + 1) =~= ev.take(i as int).push(e));
            assert forall|s: EntryStatus| #[trigger] count_of(st.by_status, s) == status_count(ev.take(i + 1), s) by {
                ev.take(i as int).lemma_filter_push(e, |x: EntryView| x.status == s);
                assert(count_of(st0.by_status, s) == status_count(ev.take(i as int), s));
            }
            ev.take(i as int).lemma_filter_push(e, |x: EntryView| x.status == EntryStatus::Translated);
            ev.take(i as int).lemma_filter_push(e, |x: EntryView| x.status == EntryStatus::DoNotTranslate);
            assert(count_of(st.by_status, EntryStatus::Translated) == status_count(ev.take(i + 1), EntryStatus::Translated));
        }
        i = i + 1;
    }
    proof {
        assert(ev.take(i as int) =~= ev);
    }
    st
}

/// The resources the stats cover: all of them, or those whose language is
/// exactly the requested one.
pub open spec fn stats_selection(rs: Seq<ResourceView>, lang: Option<String>) -> Seq<ResourceView> {
    crate::view::selected_resources(rs, lang)
}

/// The keys of all entries of all resources.
pub open spec fn all_keys(rs: Seq<ResourceView>) -> Set<Seq<char>>
    decreases rs.len(),
{
    if rs.len() == 0 {
        Set::empty()
    } else {
        all_keys(rs.drop_last()).union(rs.last().entries.map_values(|e: EntryView| e.id).to_set())
    }
}

/// The number of distinct keys over all resources.
pub fn count_unique_keys(resources: &Vec<Resource>) -> (r: usize)
    ensures
        r == all_keys(resources_view(resources@)).len(),
{
    let ghost rv = resources_view(resources@);
    let mut ids: Vec<(String, bool)> = Vec::new();
    let mut k: usize = 0;
    proof {
        assert(keys_of(ids@) =~= Seq::empty());
        assert(rv.take(0) =~= Seq::<ResourceView>::empty());
        assert(keys_of(ids@).to_set() =~= Set::empty());
    }
    while k < resources.len()
        invariant
            k <= resources.len(),
            rv == resources_view(resources@),
            strictly_sorted(keys_of(ids@)),
            keys_of(ids@).to_set() == all_keys(rv.take(k as int)),
        decreases resources.len() - k,
    {
        let r = &resources[k];
        let ghost es = rv[k as int].entries;
        let ghost before = keys_of(ids@).to_set();
        let mut m: usize = 0;
        proof {
            assert(es.take(0).map_values(|e: EntryView| e.id).to_set() =~= Set::empty());
            assert(before.union(Set::empty()) =~= before);
        }
        while m < r.entries.len()
            invariant
                m <= r.entries.len(),
                k < resources.len(),
                r == &resources@[k as int],
                rv == resources_view(resources@),
                es == rv[k as int].entries,
                strictly_sorted(keys_of(ids@)),
                keys_of(ids@).to_set() == before.union(es.take(m as int).map_values(|e: EntryView| e.id).to_set()),
            decreases r.entries.len() - m,
        {
            alist_put(&mut ids, r.entries[m].id.clone(), true);
            proof {
                assert(es.take(m + 1).map_values(|e: EntryView| e.id) =~= es.take(m as int).map_values(
                    |e: EntryView| e.id,
                ).push(r.entries@[m as int].id@));
                es.take(m as int).map_values(|e: EntryView| e.id).lemma_push_to_set_commute(
                    r.entries@[m as int].id@,
                );
                assert(keys_of(ids@).to_set() =~= before.union(es.take(m + 1).map_values(|e: EntryView| e.id).to_set()));
            }
            m = m + 1;
        }
        proof {
            assert(es.take(m as int) =~= es);
            assert(rv.take(k + 1).drop_last() =~= rv.take(k as int));
        }
        k = k + 1;
    }
    proof {
        assert(rv.take(k as int) =~= rv);
        assert(keys_of(ids@).no_duplicates()) by {
            assert forall|a: int, b: int|
                0 <= a < keys_of(ids@).len() && 0 <= b < keys_of(ids@).len() && a != b implies keys_of(
                ids@,
            )[a] != keys_of(ids@)[b] by {
                if a < b {
                    crate::sorted::lemma_lt_asym(keys_of(ids@)[a], keys_of(ids@)[b]);
                } else {
                    crate::sorted::lemma_lt_asym(keys_of(ids@)[b], keys_of(ids@)[a]);
                }
            }
        }
        keys_of(ids@).unique_seq_to_set();
    }
    ids.len()
}

/// What the stats command reports: the counts of each covered resource, in
/// order, and the number of distinct keys over all resources.
#[derive(Debug, Clone)]
pub struct StatsReport {
    pub languages: Vec<(String, LangStats)>,
    pub unique_keys: usize,
}

/// The counts of the stats command over resources already read: one entry
/// per covered resource (all, or those of exactly the requested language),
/// and the distinct keys over every resource.
pub fn stats_report(resources: &Vec<Resource>, lang_filter: &Option<String>) -> (r: StatsReport)
    ensures
        r.languages.len() == stats_selection(resources_view(resources@), *lang_filter).len(),
        forall|k: int|
            0 <= k < r.languages.len() ==> {
                let res = stats_selection(resources_view(resources@), *lang_filter)[k];
                &&& (#[trigger] r.languages@[k]).0@ == res.metadata.language
                &&& stats_of(r.languages@[k].1, res.entries)
            },
        r.unique_keys == all_keys(resources_view(resources@)).len(),
{
    let ghost rv = resources_view(resources@);
    let sel = crate::view::select_view_resources(resources, lang_filter);
    let ghost sv = sel@.map_values(|i: usize| rv[i as int]);
    let mut out: Vec<(String, LangStats)> = Vec::new();
    let mut k: usize = 0;
    while k < sel.len()
        invariant
            k <= sel.len(),
            rv == resources_view(resources@),
            sv == sel@.map_values(|i: usize| rv[i as int]),
            sv == stats_selection(rv, *lang_filter),
            forall|q: int| 0 <= q < sel.len() ==> #[trigger] sel@[q] < resources.len(),
            out.len() == k,
            forall|q: int|
                0 <= q < k ==> {
                    &&& (#[trigger] out@[q]).0@ == sv[q].metadata.language
                    &&& stats_of(out@[q].1, sv[q].entries)
                },
        decreases sel.len() - k,
    {
        let i = sel[k];
        let st = resource_stats(&resources[i].entries);
        out.push((resources[i].metadata.language.clone(), st));
        k = k + 1;
    }
    let unique_keys = count_unique_keys(resources);
    StatsReport { languages: out, unique_keys }
}

/// The entries of all shown resources, one resource after the other.
pub open spec fn flat_shown(sa: Seq<(ResourceView, Seq<EntryView>)>) -> Seq<EntryView>
    decreases sa.len(),
{
    if sa.len() == 0 {
        Seq::empty()
    } else {
        flat_shown(sa.drop_last()) + sa.last().1
    }
}

/// Counts one more entry into `st` (see `stats_of`).
proof fn lemma_stats_push(st0: LangStats, st: LangStats, es: Seq<EntryView>, e: EntryView)
    requires
        stats_of(st0, es),
        st.total == st0.total + 1,
        forall|s: EntryStatus|
            #[trigger] count_of(st.by_status, s) == count_of(st0.by_status, s) + if s == e.status {
                1int
            } else {
                0
            },
        st.translated == st0.translated + if e.status == EntryStatus::Translated {
            1int
        } else {
            0
        },
        st.denominator == st0.denominator + if e.status == EntryStatus::DoNotTranslate {
            0int
        } else {
            1
        },
    ensures
        stats_of(st, es.push(e)),
{
    assert forall|s: EntryStatus| #[trigger] count_of(st.by_status, s) == status_count(es.push(e), s) by {
        es.lemma_filter_push(e, |x: EntryView| x.status == s);
        assert(count_of(st0.by_status, s) == status_count(es, s));
    }
    es.lemma_filter_push(e, |x: EntryView| x.status == EntryStatus::Translated);
    es.lemma_filter_push(e, |x: EntryView| x.status == EntryStatus::DoNotTranslate);
}

/// The counts of the entries that positions point at, over all the given
/// resources (see `flat_shown`).
pub fn shown_stats(resources: &Vec<Resource>, shown: &Vec<(usize, Vec<usize>)>) -> (r: LangStats)
    requires
        forall|k: int|
            0 <= k < shown.len() ==> (#[trigger] shown@[k]).0 < resources.len() && forall|m: int|
                0 <= m < shown@[k].1.len() ==> #[trigger] shown@[k].1@[m] < resources@[shown@[k].0 as int].entries.len(),
        flat_shown(crate::view::shown_at(resources_view(resources@), shown@)).len() < usize::MAX,
    ensures
        stats_of(r, flat_shown(crate::view::shown_at(resources_view(resources@), shown@))),
{
    let ghost rv = resources_view(resources@);
    let ghost sa = crate::view::shown_at(rv, shown@);
    let mut st = LangStats::new();
    let mut k: usize = 0;
    proof {
        assert(sa.take(0) =~= Seq::<(ResourceView, Seq<EntryView>)>::empty());
    }
    while k < shown.len()
        invariant
            k <= shown.len(),
            rv == resources_view(resources@),
            sa == crate::view::shown_at(rv, shown@),
            forall|q: int|
                0 <= q < shown.len() ==> (#[trigger] shown@[q]).0 < resources.len() && forall|m: int|
                    0 <= m < shown@[q].1.len() ==> #[trigger] shown@[q].1@[m] < resources@[shown@[q].0 as int].entries.len(),
            flat_shown(sa).len() < usize::MAX,
            stats_of(st, flat_shown(sa.take(k as int))),
            st.by_status.translated <= st.total,
            st.by_status.needs_review <= st.total,
            st.by_status.stale <= st.total,
            st.by_status.new <= st.total,
            st.by_status.do_not_translate <= st.total,
            st.translated <= st.total,
            st.denominator <= st.total,
        decreases shown.len() - k,
    {
        let ri = shown[k].0;
        let idx = &shown[k].1;
        let ghost es = sa[k as int].1;
        let ghost base = flat_shown(sa.take(k as int));
        proof {
            assert(sa.take(k + 1).drop_last() =~= sa.take(k as int));
            assert(sa.take(k + 1).last() == sa[k as int]);
            assert(flat_shown(sa.take(k + 1)) == base + es);
            lemma_flat_prefix_len(sa, k + 1);
            assert(es.take(0) =~= Seq::<EntryView>::empty());
            assert(base + es.take(0) =~= base);
        }
        let mut m: usize = 0;
        while m < idx.len()
            invariant
                m <= idx.len(),
                k < shown.len(),
                ri == shown@[k as int].0,
                idx == &shown@[k as int].1,
                ri < resources.len(),
                forall|q: int| 0 <= q < idx.len() ==> #[trigger] idx@[q] < resources@[ri as int].entries.len(),
                rv == resources_view(resources@),
                es == idx@.map_values(|j: usize| rv[ri as int].entries[j as int]),
                (base + es).len() < usize::MAX,
                stats_of(st, base + es.take(m as int)),
                st.by_status.translated <= st.total,
                st.by_status.needs_review <= st.total,
                st.by_status.stale <= st.total,
                st.by_status.new <= st.total,
                st.by_status.do_not_translate <= st.total,
                st.translated <= st.total,
                st.denominator <= st.total,
            decreases idx.len() - m,
        {
            let j = idx[m];
            let ghost st0 = st;
            let ghost e = es[m as int];
            proof {
                assert(e == resources@[ri as int].entries@[j as int]@);
                assert(st.total == (base + es.take(m as int)).len());
            }
            accumulate(&mut st, &resources[ri].entries[j].status);
            proof {
                assert((base + es.take(m as int)).push(e) =~= base + es.take(m + 1));
                lemma_stats_push(st0, st, base + es.take(m as int), e);
                assert(count_of(st.by_status, EntryStatus::Translated) <= count_of(st0.by_status, EntryStatus::Translated) + 1);
                assert(count_of(st.by_status, EntryStatus::NeedsReview) <= count_of(st0.by_status, EntryStatus::NeedsReview) + 1);
                assert(count_of(st.by_status, EntryStatus::Stale) <= count_of(st0.by_status, EntryStatus::Stale) + 1);
                assert(count_of(st.by_status, EntryStatus::New) <= count_of(st0.by_status, EntryStatus::New) + 1);
                assert(count_of(st.by_status, EntryStatus::DoNotTranslate) <= count_of(st0.by_status, EntryStatus::DoNotTranslate) + 1);
            }
            m = m + 1;
        }
        proof {
            assert(es.take(m as int) =~= es);
        }
        k = k + 1;
    }
    proof {
        assert(sa.take(k as int) =~= sa);
    }
    st
}

/// A prefix of what is shown has no more entries than all of it.
proof fn lemma_flat_prefix_len(sa: Seq<(ResourceView, Seq<EntryView>)>, n: int)
    requires
        0 <= n <= sa.len(),
    ensures
        flat_shown(sa.take(n)).len() <= flat_shown(sa).len(),
    decreases sa.len() - n,
{
    if n < sa.len() {
        lemma_flat_prefix_len(sa, n + 1);
        assert(sa.take(n + 1).drop_last() =~= sa.take(n));
        assert(sa.take(n + 1).last() == sa[n]);
        assert(flat_shown(sa.take(n + 1)) == flat_shown(sa.take(n)) + sa[n].1);
    } else {
        assert(sa.take(n) =~= sa);
    }
}

} // verus!
