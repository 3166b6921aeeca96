//! The view command: which resources and entries are shown under a language
//! and a status filter, and the text that shows them.
use crate::model::{
    category_debug_name, forms_view, status_named, Entry, EntryStatus, EntryView, PluralCategory,
    Resource, ResourceView, Translation, TranslationView, entries_view, resources_view,
};
use crate::text::{
    comma_tokens, decimal, decimal_string, join, join_seq, list_tokens, owned, push_str,
    replace_char, replace_seq, str_eq, strings_view,
};
use crate::sorted::{alist_get, alist_put, keys_of, strictly_sorted, tally_add};
use crate::sync::total_entries;
use vstd::prelude::*;

verus! {

/// How the view command shows what it selected.
#[derive(Debug, Clone)]
pub struct ViewOptions {
    pub full: bool,
    pub status: Option<String>,
    pub keys_only: bool,
    pub json: bool,
}

/// The statuses the view command accepts, as its messages list them.
pub open spec fn accepted_statuses_text() -> Seq<char> {
    "translated, needs_review, stale, new, do_not_translate"@
}

/// A status token with `-` and spaces turned into `_`.
pub open spec fn status_token_norm(t: Seq<char>) -> Seq<char> {
    replace_seq(replace_seq(t, '-', '_'), ' ', '_')
}

/// The statuses that the tokens name, each once, in order of first mention;
/// the first token that names no status is the error.
pub open spec fn parse_statuses(tokens: Seq<Seq<char>>) -> Result<Seq<EntryStatus>, Seq<char>>
    decreases tokens.len(),
{
    if tokens.len() == 0 {
        Ok(Seq::empty())
    } else {
        match parse_statuses(tokens.drop_last()) {
            Err(e) => Err(e),
            Ok(v) => match status_named(status_token_norm(tokens.last())) {
                None => Err(tokens.last()),
                Some(st) => Ok(
                    if v.contains(st) {
                        v
                    } else {
                        v.push(st)
                    },
                ),
            },
        }
    }
}

/// Reads the statuses named by `tokens` (see `parse_statuses`); on a token
/// that names none, returns its index.
pub fn statuses_from_tokens(tokens: &Vec<String>) -> (r: Result<Vec<EntryStatus>, usize>)
    ensures
        match parse_statuses(strings_view(tokens@)) {
            Ok(v) => r matches Ok(x) && x@ == v,
            Err(e) => r matches Err(i) && i < tokens.len() && tokens@[i as int]@ == e,
        },
{
    let ghost tv = strings_view(tokens@);
    let mut parsed: Vec<EntryStatus> = Vec::new();
    let mut i: usize = 0;
    proof {
        assert(tv.take(0) =~= Seq::<Seq<char>>::empty());
    }
    while i < tokens.len()
        invariant
            i <= tokens.len(),
            tv == strings_view(tokens@),
            parse_statuses(tv.take(i as int)) == Ok::<Seq<EntryStatus>, Seq<char>>(parsed@),
        decreases tokens.len() - i,
    {
        proof {
            assert(tv.take(i + 1).drop_last() =~= tv.take(i as int));
            assert(tv.take(i + 1).last() == tokens@[i as int]@);
        }
        let a = replace_char(tokens[i].as_str(), '-', '_');
        let b = replace_char(a.as_str(), ' ', '_');
        match EntryStatus::parse(b.as_str()) {
            Err(_) => {
                proof {
                    assert(parse_statuses(tv) == parse_statuses(tv.take(i + 1))) by {
                        lemma_parse_statuses_err(tv, i + 1);
                    }
                }
                return Err(i);
            },
            Ok(st) => {
                let mut seen = false;
                let mut k: usize = 0;
                while k < parsed.len()
                    invariant
                        k <= parsed.len(),
                        seen == exists|m: int| 0 <= m < k && parsed@[m] == st,
                    decreases parsed.len() - k,
                {
                    if parsed[k] == st {
                        seen = true;
                    }
                    k = k + 1;
                }
                if !seen {
                    parsed.push(st);
                }
            },
        }
        i = i + 1;
    }
    proof {
        assert(tv.take(i as int) =~= tv);
    }
    Ok(parsed)
}

/// Once a prefix of the tokens has an error, the whole list has that error.
proof fn lemma_parse_statuses_err(tv: Seq<Seq<char>>, n: int)
    requires
        0 <= n <= tv.len(),
        parse_statuses(tv.take(n)) is Err,
    ensures
        parse_statuses(tv) == parse_statuses(tv.take(n)),
    decreases tv.len() - n,
{
    if n < tv.len() {
        assert(tv.take(n + 1).drop_last() =~= tv.take(n));
        lemma_parse_statuses_err(tv, n + 1);
    } else {
        assert(tv.take(n) =~= tv);
    }
}

/// The status filter of the view command: none when no `--status` was
/// given; otherwise the statuses named in the comma-separated list, each
/// once. A token that names no status, or a list that names none, is an
/// error.
pub open spec fn view_status_filter(status: Option<String>) -> Result<
    Option<Seq<EntryStatus>>,
    Seq<char>,
> {
    match status {
        None => Ok(None),
        Some(s) => match parse_statuses(list_tokens(s@)) {
            Err(tok) => Err("Invalid status '"@ + tok + "'. Accepted statuses: "@ + accepted_statuses_text()),
            Ok(v) => if v.len() == 0 {
                Err("No valid statuses were provided. Accepted statuses: "@ + accepted_statuses_text())
            } else {
                Ok(Some(v))
            },
        },
    }
}

/// Reads the `--status` option of the view command (see
/// `view_status_filter`).
pub fn parse_status_filter(status: &Option<String>) -> (r: Result<Option<Vec<EntryStatus>>, String>)
    ensures
        match view_status_filter(*status) {
            Ok(None) => r matches Ok(None),
            Ok(Some(v)) => r matches Ok(Some(x)) && x@ == v,
            Err(e) => r matches Err(m) && m@ == e,
        },
{
    match status {
        None => Ok(None),
        Some(raw) => {
            let tokens = comma_tokens(raw.as_str());
            match statuses_from_tokens(&tokens) {
                Err(i) => {
                    let mut m = owned("Invalid status '");
                    push_str(&mut m, tokens[i].as_str());
                    push_str(&mut m, "'. Accepted statuses: ");
                    push_str(&mut m, "translated, needs_review, stale, new, do_not_translate");
                    Err(m)
                },
                Ok(v) => {
                    if v.len() == 0 {
                        let mut m = owned("No valid statuses were provided. Accepted statuses: ");
                        push_str(&mut m, "translated, needs_review, stale, new, do_not_translate");
                        Err(m)
                    } else {
                        Ok(Some(v))
                    }
                },
            }
        },
    }
}

/// The first `n` characters of `s`, followed by `...` when `s` has more.
pub open spec fn truncated(s: Seq<char>, n: nat) -> Seq<char> {
    if s.len() > n {
        s.take(n as int) + "..."@
    } else {
        s
    }
}

/// `s` cut to at most `max_chars` characters, with `...` appended when
/// anything was cut.
pub fn truncate_chars(s: &str, max_chars: usize) -> (r: String)
    ensures
        r@ == truncated(s@, max_chars as nat),
{
    let v = crate::text::chars_of(s);
    if v.len() > max_chars {
        let mut r = crate::text::string_of_range(&v, 0, max_chars);
        push_str(&mut r, "...");
        r
    } else {
        owned(s)
    }
}

/// Whether an entry is shown under the status filter.
pub open spec fn entry_passes(e: EntryView, filter: Option<Seq<EntryStatus>>) -> bool {
    match filter {
        None => true,
        Some(v) => v.contains(e.status),
    }
}

/// The entries of a resource that the status filter shows, in order.
pub open spec fn shown_entries(es: Seq<EntryView>, filter: Option<Seq<EntryStatus>>) -> Seq<EntryView> {
    es.filter(|e: EntryView| entry_passes(e, filter))
}

/// The resources the view shows: all of them, or those whose language is
/// exactly the requested one.
pub open spec fn selected_resources(rs: Seq<ResourceView>, lang: Option<String>) -> Seq<ResourceView> {
    match lang {
        None => rs,
        Some(l) => rs.filter(|r: ResourceView| r.metadata.language == l@),
    }
}

/// The debug spelling of a status (`{:?}`).
pub open spec fn status_debug_name(s: EntryStatus) -> Seq<char> {
    match s {
        EntryStatus::DoNotTranslate => "DoNotTranslate"@,
        EntryStatus::New => "New"@,
        EntryStatus::Stale => "Stale"@,
        EntryStatus::NeedsReview => "NeedsReview"@,
        EntryStatus::Translated => "Translated"@,
    }
}

/// The debug spelling of a status.
pub fn status_debug(s: EntryStatus) -> (r: &'static str)
    ensures
        r@ == status_debug_name(s),
{
    match s {
        EntryStatus::DoNotTranslate => "DoNotTranslate",
        EntryStatus::New => "New",
        EntryStatus::Stale => "Stale",
        EntryStatus::NeedsReview => "NeedsReview",
        EntryStatus::Translated => "Translated",
    }
}

/// A value as shown: whole, or cut to fifty characters.
pub open spec fn shown_value(v: Seq<char>, full: bool) -> Seq<char> {
    if full {
        v
    } else {
        truncated(v, 50)
    }
}

/// The line of one plural form.
pub open spec fn form_line(f: (PluralCategory, Seq<char>), full: bool) -> Seq<char> {
    "      "@ + category_debug_name(f.0) + ": "@ + shown_value(f.1, full)
}

/// The lines that show the `j`-th shown entry (counting from zero).
pub open spec fn entry_lines(j: nat, e: EntryView, full: bool) -> Seq<Seq<char>> {
    seq!["\n  Entry "@ + decimal(j + 1) + ": "@ + e.id, "    Status: "@ + status_debug_name(e.status)]
        + (match e.comment {
        Some(c) => seq!["    Comment: "@ + c],
        None => Seq::empty(),
    }) + match e.value {
        TranslationView::Empty => seq!["    Type: Empty"@],
        TranslationView::Singular(v) => seq!["    Type: Singular"@, "    Value: "@ + shown_value(v, full)],
        TranslationView::Plural(id, forms) => seq!["    Type: Plural"@, "    Plural ID: "@ + id]
            + forms.map_values(|f: (PluralCategory, Seq<char>)| form_line(f, full)),
    }
}

/// The lines that show a run of entries, numbered from one.
pub open spec fn entries_lines(es: Seq<EntryView>, full: bool) -> Seq<Seq<char>>
    decreases es.len(),
{
    if es.len() == 0 {
        Seq::empty()
    } else {
        entries_lines(es.drop_last(), full) + entry_lines((es.len() - 1) as nat, es.last(), full)
    }
}

/// Appends `line` to `lines`.
fn push_line(lines: &mut Vec<String>, line: String)
    ensures
        strings_view(final(lines)@) == strings_view(old(lines)@).push(line@),
{
    let ghost l0 = lines@;
    lines.push(line);
    proof {
        assert(strings_view(lines@) =~= strings_view(l0).push(line@));
    }
}

/// `a` followed by `b`.
fn cat(a: &str, b: &str) -> (r: String)
    ensures
        r@ == a@ + b@,
{
    let mut r = owned(a);
    push_str(&mut r, b);
    r
}

/// A value as shown (see `shown_value`).
fn show_value(v: &str, full: bool) -> (r: String)
    ensures
        r@ == shown_value(v@, full),
{
    if full {
        owned(v)
    } else {
        truncate_chars(v, 50)
    }
}

/// Appends the lines that show the `j`-th shown entry.
fn push_entry_lines(lines: &mut Vec<String>, j: usize, e: &Entry, full: bool)
    requires
        j < usize::MAX,
    ensures
        strings_view(final(lines)@) == strings_view(old(lines)@) + entry_lines(j as nat, e@, full),
{
    let ghost start = strings_view(lines@);
    let mut first = cat("\n  Entry ", decimal_string(j + 1).as_str());
    push_str(&mut first, ": ");
    push_str(&mut first, e.id.as_str());
    push_line(lines, first);
    push_line(lines, cat("    Status: ", status_debug(e.status)));
    let ghost mid0 = strings_view(lines@);
    match &e.comment {
        Some(c) => push_line(lines, cat("    Comment: ", c.as_str())),
        None => {},
    }
    let ghost mid = strings_view(lines@);
    match &e.value {
        Translation::Empty => {
            push_line(lines, owned("    Type: Empty"));
            proof {
                assert(strings_view(lines@) =~= start + entry_lines(j as nat, e@, full));
            }
        },
        Translation::Singular(v) => {
            push_line(lines, owned("    Type: Singular"));
            push_line(lines, cat("    Value: ", show_value(v.as_str(), full).as_str()));
            proof {
                assert(strings_view(lines@) =~= start + entry_lines(j as nat, e@, full));
            }
        },
        Translation::Plural(p) => {
            push_line(lines, owned("    Type: Plural"));
            push_line(lines, cat("    Plural ID: ", p.id.as_str()));
            let ghost before_forms = strings_view(lines@);
            let ghost fl = forms_view(p.forms@).map_values(
                |f: (PluralCategory, Seq<char>)| form_line(f, full),
            );
            let mut k: usize = 0;
            proof {
                assert(fl.take(0) =~= Seq::<Seq<char>>::empty());
                assert(before_forms + fl.take(0) =~= before_forms);
            }
            while k < p.forms.len()
                invariant
                    k <= p.forms.len(),
                    fl == forms_view(p.forms@).map_values(
                        |f: (PluralCategory, Seq<char>)| form_line(f, full),
                    ),
                    strings_view(lines@) == before_forms + fl.take(k as int),
                decreases p.forms.len() - k,
            {
                let mut line = cat("      ", p.forms[k].0.debug_name());
                push_str(&mut line, ": ");
                push_str(&mut line, show_value(p.forms[k].1.as_str(), full).as_str());
                push_line(lines, line);
                proof {
                    assert(fl.take(k + 1) =~= fl.take(k as int).push(fl[k as int]));
                }
                k = k + 1;
            }
            proof {
                assert(fl.take(k as int) =~= fl);
                assert(strings_view(lines@) =~= start + entry_lines(j as nat, e@, full));
            }
        },
    }
}

/// The positions of the resources the view shows (see
/// `selected_resources`), in order.
pub fn select_view_resources(resources: &Vec<Resource>, lang_filter: &Option<String>) -> (r: Vec<usize>)
    ensures
        forall|k: int| 0 <= k < r.len() ==> #[trigger] r@[k] < resources.len(),
        r@.map_values(|i: usize| resources_view(resources@)[i as int]) == selected_resources(
            resources_view(resources@),
            *lang_filter,
        ),
        lang_filter is None ==> r.len() == resources.len() && forall|k: int|
            0 <= k < r.len() ==> #[trigger] r@[k] == k,
{
    let ghost rv = resources_view(resources@);
    let mut out: Vec<usize> = Vec::new();
    let mut i: usize = 0;
    proof {
        reveal(Seq::filter);
        assert(rv.take(0) =~= Seq::<ResourceView>::empty());
    }
    while i < resources.len()
        invariant
            i <= resources.len(),
            rv == resources_view(resources@),
            forall|k: int| 0 <= k < out.len() ==> #[trigger] out@[k] < i,
            lang_filter is None ==> out.len() == i && forall|k: int|
                0 <= k < out.len() ==> #[trigger] out@[k] == k,
            out@.map_values(|j: usize| rv[j as int]) == match *lang_filter {
                None => rv.take(i as int),
                Some(l) => rv.take(i as int).filter(|r: ResourceView| r.metadata.language == l@),
            },
        decreases resources.len() - i,
    {
        proof {
            assert(rv.take(i + 1) =~= rv.take(i as int).push(rv[i as int]));
            match lang_filter {
                None => {},
                Some(l) => {
                    rv.take(i as int).lemma_filter_push(rv[i as int], |r: ResourceView| r.metadata.language == l@);
                },
            }
        }
        let keep = match lang_filter {
            None => true,
            Some(l) => str_eq(resources[i].metadata.language.as_str(), l.as_str()),
        };
        if keep {
            let ghost o0 = out@;
            out.push(i);
            proof {
                assert(out@.map_values(|j: usize| rv[j as int]) =~= o0.map_values(|j: usize| rv[j as int]).push(rv[i as int]));
            }
        }
        i = i + 1;
    }
    proof {
        assert(rv.take(i as int) =~= rv);
    }
    out
}

/// A status filter by view.
pub open spec fn status_filter_of(s: Option<Vec<EntryStatus>>) -> Option<Seq<EntryStatus>> {
    match s {
        None => None,
        Some(v) => Some(v@),
    }
}

/// The positions of the entries that the status filter shows, in order.
pub fn filter_entries_by_status(entries: &Vec<Entry>, statuses: &Option<Vec<EntryStatus>>) -> (r: Vec<usize>)
    ensures
        forall|k: int| 0 <= k < r.len() ==> #[trigger] r@[k] < entries.len(),
        r.len() <= entries.len(),
        r@.map_values(|j: usize| entries_view(entries@)[j as int]) == shown_entries(
            entries_view(entries@),
            status_filter_of(*statuses),
        ),
{
    let ghost ev = entries_view(entries@);
    let ghost f = status_filter_of(*statuses);
    let mut out: Vec<usize> = Vec::new();
    let mut i: usize = 0;
    proof {
        reveal(Seq::filter);
        assert(ev.take(0) =~= Seq::<EntryView>::empty());
    }
    while i < entries.len()
        invariant
            i <= entries.len(),
            ev == entries_view(entries@),
            f == status_filter_of(*statuses),
            forall|k: int| 0 <= k < out.len() ==> #[trigger] out@[k] < i,
            out.len() <= i,
            out@.map_values(|j: usize| ev[j as int]) == shown_entries(ev.take(i as int), f),
        decreases entries.len() - i,
    {
        proof {
            assert(ev.take(i + 1) =~= ev.take(i as int).push(ev[i as int]));
            ev.take(i as int).lemma_filter_push(ev[i as int], |e: EntryView| entry_passes(e, f));
        }
        let keep = match statuses {
            None => true,
            Some(v) => {
                let st = entries[i].status;
                let mut found = false;
                let mut k: usize = 0;
                while k < v.len()
                    invariant
                        k <= v.len(),
                        found == exists|m: int| 0 <= m < k && v@[m] == st,
                    decreases v.len() - k,
                {
                    if v[k] == st {
                        found = true;
                    }
                    k = k + 1;
                }
                found
            },
        };
        if keep {
            let ghost o0 = out@;
            out.push(i);
            proof {
                assert(out@.map_values(|j: usize| ev[j as int]) =~= o0.map_values(|j: usize| ev[j as int]).push(ev[i as int]));
            }
        }
        i = i + 1;
    }
    proof {
        assert(ev.take(i as int) =~= ev);
    }
    out
}

/// What the view shows: each selected resource with its shown entries.
pub open spec fn shown_view(
    rs: Seq<ResourceView>,
    lang: Option<String>,
    f: Option<Seq<EntryStatus>>,
) -> Seq<(ResourceView, Seq<EntryView>)> {
    selected_resources(rs, lang).map_values(
        |r: ResourceView| (r, shown_entries(r.entries, f)),
    )
}

/// The resources and entries that positions point at.
pub open spec fn shown_at(rs: Seq<ResourceView>, shown: Seq<(usize, Vec<usize>)>) -> Seq<
    (ResourceView, Seq<EntryView>),
> {
    shown.map_values(
        |p: (usize, Vec<usize>)|
            (rs[p.0 as int], p.1@.map_values(|j: usize| rs[p.0 as int].entries[j as int])),
    )
}

/// The positions of what the view shows: each selected resource with the
/// positions of its shown entries.
pub fn collect_shown(
    resources: &Vec<Resource>,
    lang_filter: &Option<String>,
    statuses: &Option<Vec<EntryStatus>>,
) -> (r: Vec<(usize, Vec<usize>)>)
    ensures
        forall|k: int|
            0 <= k < r.len() ==> (#[trigger] r@[k]).0 < resources.len() && forall|m: int|
                0 <= m < r@[k].1.len() ==> #[trigger] r@[k].1@[m] < resources@[r@[k].0 as int].entries.len(),
        forall|k: int| 0 <= k < r.len() ==> (#[trigger] r@[k]).1.len() <= resources@[r@[k].0 as int].entries.len(),
        lang_filter is None ==> r.len() == resources.len() && forall|k: int|
            0 <= k < r.len() ==> (#[trigger] r@[k]).0 == k,
        shown_at(resources_view(resources@), r@) == shown_view(
            resources_view(resources@),
            *lang_filter,
            status_filter_of(*statuses),
        ),
{
    let ghost rv = resources_view(resources@);
    let ghost f = status_filter_of(*statuses);
    let sel = select_view_resources(resources, lang_filter);
    let ghost sv = sel@.map_values(|i: usize| rv[i as int]);
    let mut out: Vec<(usize, Vec<usize>)> = Vec::new();
    let mut k: usize = 0;
    while k < sel.len()
        invariant
            k <= sel.len(),
            rv == resources_view(resources@),
            f == status_filter_of(*statuses),
            sv == sel@.map_values(|i: usize| rv[i as int]),
            sv == selected_resources(rv, *lang_filter),
            forall|q: int| 0 <= q < sel.len() ==> #[trigger] sel@[q] < resources.len(),
            lang_filter is None ==> sel.len() == resources.len() && forall|q: int|
                0 <= q < sel.len() ==> #[trigger] sel@[q] == q,
            forall|q: int| 0 <= q < out.len() ==> (#[trigger] out@[q]).1.len() <= resources@[out@[q].0 as int].entries.len(),
            forall|q: int| 0 <= q < out.len() ==> (#[trigger] out@[q]).0 == sel@[q],
            out.len() == k,
            forall|q: int|
                0 <= q < out.len() ==> (#[trigger] out@[q]).0 < resources.len() && forall|m: int|
                    0 <= m < out@[q].1.len() ==> #[trigger] out@[q].1@[m] < resources@[out@[q].0 as int].entries.len(),
            shown_at(rv, out@) == sv.take(k as int).map_values(
                |r: ResourceView| (r, shown_entries(r.entries, f)),
            ),
        decreases sel.len() - k,
    {
        let i = sel[k];
        let idx = filter_entries_by_status(&resources[i].entries, statuses);
        let ghost o0 = out@;
        out.push((i, idx));
        proof {
            assert(rv[i as int].entries == entries_view(resources@[i as int].entries@));
            assert(shown_at(rv, out@) =~= shown_at(rv, o0).push(
                (rv[i as int], shown_entries(rv[i as int].entries, f)),
            ));
            assert(sv.take(k + 1) =~= sv.take(k as int).push(sv[k as int]));
            assert(sv.take(k + 1).map_values(|r: ResourceView| (r, shown_entries(r.entries, f)))
                =~= sv.take(k as int).map_values(|r: ResourceView| (r, shown_entries(r.entries, f))).push(
                (sv[k as int], shown_entries(sv[k as int].entries, f)),
            ));
        }
        k = k + 1;
    }
    proof {
        assert(sv.take(k as int) =~= sv);
    }
    out
}

/// The lines that show the `i`-th shown resource (counting from zero).
pub open spec fn resource_lines(i: nat, r: ResourceView, es: Seq<EntryView>, full: bool) -> Seq<
    Seq<char>,
> {
    seq![
        "\n=== Resource "@ + decimal(i + 1) + " ==="@,
        "Language: "@ + r.metadata.language,
        "Domain: "@ + r.metadata.domain,
        "Entries: "@ + decimal(es.len()),
    ] + entries_lines(es, full)
}

/// The lines that show every shown resource and its entries.
pub open spec fn details_lines(shown: Seq<(ResourceView, Seq<EntryView>)>, full: bool) -> Seq<
    Seq<char>,
>
    decreases shown.len(),
{
    if shown.len() == 0 {
        Seq::empty()
    } else {
        details_lines(shown.drop_last(), full) + resource_lines(
            (shown.len() - 1) as nat,
            shown.last().0,
            shown.last().1,
            full,
        )
    }
}

/// The key lines of the keys-only view: the key, after the language and a
/// tab when no language was requested.
pub open spec fn keys_lines(shown: Seq<(ResourceView, Seq<EntryView>)>, with_lang: bool) -> Seq<
    Seq<char>,
>
    decreases shown.len(),
{
    if shown.len() == 0 {
        Seq::empty()
    } else {
        let r = shown.last().0;
        keys_lines(shown.drop_last(), with_lang) + shown.last().1.map_values(
            |e: EntryView|
                if with_lang {
                    r.metadata.language + "\t"@ + e.id
                } else {
                    e.id
                },
        )
    }
}

/// Appends the lines that show the shown resources at `shown`.
fn push_details(
    lines: &mut Vec<String>,
    resources: &Vec<Resource>,
    shown: &Vec<(usize, Vec<usize>)>,
    full: bool,
)
    requires
        forall|k: int|
            0 <= k < shown.len() ==> (#[trigger] shown@[k]).0 < resources.len() && forall|m: int|
                0 <= m < shown@[k].1.len() ==> #[trigger] shown@[k].1@[m] < resources@[shown@[k].0 as int].entries.len(),
    ensures
        strings_view(final(lines)@) == strings_view(old(lines)@) + details_lines(
            shown_at(resources_view(resources@), shown@),
            full,
        ),
{
    let ghost rv = resources_view(resources@);
    let ghost sa = shown_at(rv, shown@);
    let ghost start = strings_view(lines@);
    let mut k: usize = 0;
    proof {
        assert(sa.take(0) =~= Seq::<(ResourceView, Seq<EntryView>)>::empty());
        assert(start + details_lines(sa.take(0), full) =~= start);
    }
    while k < shown.len()
        invariant
            k <= shown.len(),
            rv == resources_view(resources@),
            sa == shown_at(rv, shown@),
            forall|q: int|
                0 <= q < shown.len() ==> (#[trigger] shown@[q]).0 < resources.len() && forall|m: int|
                    0 <= m < shown@[q].1.len() ==> #[trigger] shown@[q].1@[m] < resources@[shown@[q].0 as int].entries.len(),
            strings_view(lines@) == start + details_lines(sa.take(k as int), full),
        decreases shown.len() - k,
    {
        let ri = shown[k].0;
        let idx = &shown[k].1;
        let r = &resources[ri];
        let ghost es = idx@.map_values(|j: usize| rv[ri as int].entries[j as int]);
        let ghost before = strings_view(lines@);
        let mut head = cat("\n=== Resource ", decimal_string(k + 1).as_str());
        push_str(&mut head, " ===");
        push_line(lines, head);
        push_line(lines, cat("Language: ", r.metadata.language.as_str()));
        push_line(lines, cat("Domain: ", r.metadata.domain.as_str()));
        push_line(lines, cat("Entries: ", decimal_string(idx.len()).as_str()));
        let ghost after_head = strings_view(lines@);
        let mut m: usize = 0;
        proof {
            assert(es.take(0) =~= Seq::<EntryView>::empty());
            assert(after_head + entries_lines(es.take(0), full) =~= after_head);
        }
        while m < idx.len()
            invariant
                m <= idx.len(),
                rv == resources_view(resources@),
                ri < resources.len(),
                r == &resources@[ri as int],
                es == idx@.map_values(|j: usize| rv[ri as int].entries[j as int]),
                forall|q: int| 0 <= q < idx.len() ==> #[trigger] idx@[q] < r.entries.len(),
                strings_view(lines@) == after_head + entries_lines(es.take(m as int), full),
            decreases idx.len() - m,
        {
            let j = idx[m];
            push_entry_lines(lines, m, &r.entries[j], full);
            proof {
                assert(es.take(m + 1).drop_last() =~= es.take(m as int));
                assert(es.take(m + 1).last() == r.entries@[j as int]@);
            }
            m = m + 1;
        }
        proof {
            assert(es.take(m as int) =~= es);
            assert(sa[k as int] == (rv[ri as int], es));
            assert(sa.take(k + 1).drop_last() =~= sa.take(k as int));
            assert(strings_view(lines@) =~= start + details_lines(sa.take(k + 1), full));
        }
        k = k + 1;
    }
    proof {
        assert(sa.take(k as int) =~= sa);
    }
}

/// Appends the key lines of the keys-only view.
fn push_keys(
    lines: &mut Vec<String>,
    resources: &Vec<Resource>,
    shown: &Vec<(usize, Vec<usize>)>,
    with_lang: bool,
)
    requires
        forall|k: int|
            0 <= k < shown.len() ==> (#[trigger] shown@[k]).0 < resources.len() && forall|m: int|
                0 <= m < shown@[k].1.len() ==> #[trigger] shown@[k].1@[m] < resources@[shown@[k].0 as int].entries.len(),
    ensures
        strings_view(final(lines)@) == strings_view(old(lines)@) + keys_lines(
            shown_at(resources_view(resources@), shown@),
            with_lang,
        ),
{
    let ghost rv = resources_view(resources@);
    let ghost sa = shown_at(rv, shown@);
    let ghost start = strings_view(lines@);
    let mut k: usize = 0;
    proof {
        assert(sa.take(0) =~= Seq::<(ResourceView, Seq<EntryView>)>::empty());
        assert(start + keys_lines(sa.take(0), with_lang) =~= start);
    }
    while k < shown.len()
        invariant
            k <= shown.len(),
            rv == resources_view(resources@),
            sa == shown_at(rv, shown@),
            forall|q: int|
                0 <= q < shown.len() ==> (#[trigger] shown@[q]).0 < resources.len() && forall|m: int|
                    0 <= m < shown@[q].1.len() ==> #[trigger] shown@[q].1@[m] < resources@[shown@[q].0 as int].entries.len(),
            strings_view(lines@) == start + keys_lines(sa.take(k as int), with_lang),
        decreases shown.len() - k,
    {
        let ri = shown[k].0;
        let idx = &shown[k].1;
        let r = &resources[ri];
        let ghost es = idx@.map_values(|j: usize| rv[ri as int].entries[j as int]);
        let ghost kl = es.map_values(
            |e: EntryView|
                if with_lang {
                    rv[ri as int].metadata.language + "\t"@ + e.id
                } else {
                    e.id
                },
        );
        let ghost before = strings_view(lines@);
        let mut m: usize = 0;
        proof {
            assert(before + kl.take(0) =~= before);
        }
        while m < idx.len()
            invariant
                m <= idx.len(),
                rv == resources_view(resources@),
                ri < resources.len(),
                r == &resources@[ri as int],
                es == idx@.map_values(|j: usize| rv[ri as int].entries[j as int]),
                kl == es.map_values(
                    |e: EntryView|
                        if with_lang {
                            rv[ri as int].metadata.language + "\t"@ + e.id
                        } else {
                            e.id
                        },
                ),
                forall|q: int| 0 <= q < idx.len() ==> #[trigger] idx@[q] < r.entries.len(),
                strings_view(lines@) == before + kl.take(m as int),
            decreases idx.len() - m,
        {
            let j = idx[m];
            let line = if with_lang {
                let mut l = cat(r.metadata.language.as_str(), "\t");
                push_str(&mut l, r.entries[j].id.as_str());
                l
            } else {
                r.entries[j].id.clone()
            };
            push_line(lines, line);
            proof {
                assert(kl.take(m + 1) =~= kl.take(m as int).push(kl[m as int]));
            }
            m = m + 1;
        }
        proof {
            assert(kl.take(m as int) =~= kl);
            assert(sa[k as int] == (rv[ri as int], es));
            assert(sa.take(k + 1).drop_last() =~= sa.take(k as int));
            assert(strings_view(lines@) =~= start + keys_lines(sa.take(k + 1), with_lang));
        }
        k = k + 1;
    }
    proof {
        assert(sa.take(k as int) =~= sa);
    }
}

/// How many shown entries each language has, over all shown resources.
pub open spec fn lang_tally(shown: Seq<(ResourceView, Seq<EntryView>)>) -> Map<Seq<char>, nat>
    decreases shown.len(),
{
    if shown.len() == 0 {
        Map::empty()
    } else {
        let m = lang_tally(shown.drop_last());
        let l = shown.last().0.metadata.language;
        m.insert(
            l,
            (if m.contains_key(l) {
                m[l]
            } else {
                0
            }) + shown.last().1.len(),
        )
    }
}

/// The keys of all shown entries.
pub open spec fn shown_ids(shown: Seq<(ResourceView, Seq<EntryView>)>) -> Set<Seq<char>>
    decreases shown.len(),
{
    if shown.len() == 0 {
        Set::empty()
    } else {
        shown_ids(shown.drop_last()).union(shown.last().1.map_values(|e: EntryView| e.id).to_set())
    }
}

/// The per-language counts, in language order, stand for `m`.
pub open spec fn tally_matches(t: Seq<(String, usize)>, m: Map<Seq<char>, nat>) -> bool {
    &&& strictly_sorted(keys_of(t))
    &&& forall|l: Seq<char>|
        #![trigger alist_get(t, l)]
        match alist_get(t, l) {
            Some(c) => m.contains_key(l) && m[l] == c,
            None => !m.contains_key(l),
        }
}

/// The summary lines of the view: the number of languages and of distinct
/// keys, then each language's count, in language order.
pub open spec fn summary_lines(tally: Seq<(String, usize)>, unique_keys: nat) -> Seq<Seq<char>> {
    seq![
        "\n=== Summary ==="@,
        "Total languages: "@ + decimal(tally.len()),
        "Total unique keys: "@ + decimal(unique_keys),
    ] + tally.map_values(
        |p: (String, usize)| "  "@ + p.0@ + ": "@ + decimal(p.1 as nat) + " entries"@,
    )
}

/// Counts the shown entries of each language and the distinct shown keys,
/// when every resource is shown.
pub fn summarize_shown(resources: &Vec<Resource>, shown: &Vec<(usize, Vec<usize>)>) -> (r: (
    Vec<(String, usize)>,
    usize,
))
    requires
        shown.len() == resources.len(),
        forall|k: int| 0 <= k < shown.len() ==> (#[trigger] shown@[k]).0 == k,
        forall|k: int|
            0 <= k < shown.len() ==> forall|m: int|
                0 <= m < (#[trigger] shown@[k]).1.len() ==> #[trigger] shown@[k].1@[m] < resources@[k].entries.len(),
        forall|k: int| 0 <= k < shown.len() ==> (#[trigger] shown@[k]).1.len() <= resources@[k].entries.len(),
        total_entries(resources_view(resources@)) <= usize::MAX,
    ensures
        tally_matches(r.0@, lang_tally(shown_at(resources_view(resources@), shown@))),
        r.1 == shown_ids(shown_at(resources_view(resources@), shown@)).len(),
{
    let ghost rv = resources_view(resources@);
    let ghost sa = shown_at(rv, shown@);
    let mut tally: Vec<(String, usize)> = Vec::new();
    let mut ids: Vec<(String, bool)> = Vec::new();
    let mut k: usize = 0;
    proof {
        assert(keys_of(tally@) =~= Seq::empty());
        assert(keys_of(ids@) =~= Seq::empty());
        assert(sa.take(0) =~= Seq::<(ResourceView, Seq<EntryView>)>::empty());
        assert(keys_of(ids@).to_set() =~= Set::empty());
    }
    while k < shown.len()
        invariant
            k <= shown.len(),
            shown.len() == resources.len(),
            rv == resources_view(resources@),
            sa == shown_at(rv, shown@),
            forall|q: int| 0 <= q < shown.len() ==> (#[trigger] shown@[q]).0 == q,
            forall|q: int|
                0 <= q < shown.len() ==> forall|m: int|
                    0 <= m < (#[trigger] shown@[q]).1.len() ==> #[trigger] shown@[q].1@[m] < resources@[q].entries.len(),
            forall|q: int| 0 <= q < shown.len() ==> (#[trigger] shown@[q]).1.len() <= resources@[q].entries.len(),
            total_entries(rv) <= usize::MAX,
            tally_matches(tally@, lang_tally(sa.take(k as int))),
            forall|l: Seq<char>|
                #![trigger alist_get(tally@, l)]
                alist_get(tally@, l) matches Some(c) ==> c <= total_entries(rv.take(k as int)),
            strictly_sorted(keys_of(ids@)),
            keys_of(ids@).to_set() == shown_ids(sa.take(k as int)),
        decreases shown.len() - k,
    {
        let idx = &shown[k].1;
        let r = &resources[k];
        let ghost es = idx@.map_values(|j: usize| rv[k as int].entries[j as int]);
        let ghost l = r.metadata.language@;
        proof {
            assert(sa[k as int] == (rv[k as int], es));
            assert(rv.take(k + 1).drop_last() =~= rv.take(k as int));
            crate::sync::lemma_total_prefix(rv, k + 1);
            assert(total_entries(rv.take(k + 1)) == total_entries(rv.take(k as int)) + rv[k as int].entries.len());
        }
        let ghost t0 = tally@;
        tally_add(&mut tally, r.metadata.language.clone(), idx.len());
        proof {
            assert(sa.take(k + 1).drop_last() =~= sa.take(k as int));
            assert(sa.take(k + 1).last() == (rv[k as int], es));
            let m0 = lang_tally(sa.take(k as int));
            assert forall|q: Seq<char>| #![trigger alist_get(tally@, q)]
                match alist_get(tally@, q) {
                    Some(c) => lang_tally(sa.take(k + 1)).contains_key(q) && lang_tally(sa.take(k + 1))[q] == c,
                    None => !lang_tally(sa.take(k + 1)).contains_key(q),
                } by {
                if q != l {
                    assert(alist_get(tally@, q) == alist_get(t0, q));
                }
            }
        }
        let ghost ids_before = keys_of(ids@).to_set();
        let mut m: usize = 0;
        proof {
            assert(es.take(0).map_values(|e: EntryView| e.id).to_set() =~= Set::empty());
            assert(ids_before.union(Set::empty()) =~= ids_before);
        }
        while m < idx.len()
            invariant
                m <= idx.len(),
                r == &resources@[k as int],
                k < resources.len(),
                rv == resources_view(resources@),
                es == idx@.map_values(|j: usize| rv[k as int].entries[j as int]),
                forall|q: int| 0 <= q < idx.len() ==> #[trigger] idx@[q] < r.entries.len(),
                strictly_sorted(keys_of(ids@)),
                keys_of(ids@).to_set() == ids_before.union(es.take(m as int).map_values(|e: EntryView| e.id).to_set()),
            decreases idx.len() - m,
        {
            let j = idx[m];
            alist_put(&mut ids, r.entries[j].id.clone(), true);
            proof {
                assert(es.take(m + 1).map_values(|e: EntryView| e.id) =~= es.take(m as int).map_values(|e: EntryView| e.id).push(r.entries@[j as int].id@));
                assert(es[m as int] == r.entries@[j as int]@);
                es.take(m as int).map_values(|e: EntryView| e.id).lemma_push_to_set_commute(r.entries@[j as int].id@);
                assert(keys_of(ids@).to_set() =~= ids_before.union(es.take(m + 1).map_values(|e: EntryView| e.id).to_set()));
            }
            m = m + 1;
        }
        proof {
            assert(es.take(m as int) =~= es);
        }
        k = k + 1;
    }
    proof {
        assert(sa.take(k as int) =~= sa);
        assert(keys_of(ids@).no_duplicates()) by {
            assert forall|a: int, b: int| 0 <= a < keys_of(ids@).len() && 0 <= b < keys_of(ids@).len() && a != b implies keys_of(ids@)[a] != keys_of(ids@)[b] by {
                if a < b {
                    crate::sorted::lemma_lt_asym(keys_of(ids@)[a], keys_of(ids@)[b]);
                } else {
                    crate::sorted::lemma_lt_asym(keys_of(ids@)[b], keys_of(ids@)[a]);
                }
            }
        }
        keys_of(ids@).unique_seq_to_set();
    }
    (tally, ids.len())
}

/// What the view command prints, and what it shows. On failure the command
/// exits with status 1 after printing.
#[derive(Debug, Clone)]
pub struct ViewOutput {
    pub stdout: Vec<String>,
    pub stderr: Vec<String>,
    pub failed: bool,
    pub shown: Vec<(usize, Vec<usize>)>,
    pub language_counts: Vec<(String, usize)>,
    pub unique_keys: usize,
}

/// The languages of the resources, in order.
pub open spec fn resource_languages(rs: Seq<ResourceView>) -> Seq<Seq<char>> {
    rs.map_values(|r: ResourceView| r.metadata.language)
}

/// The line that opens a text view.
pub open spec fn view_prelude(opts: ViewOptions) -> Seq<Seq<char>> {
    if !(opts.keys_only && !opts.json) && !opts.json {
        seq!["Processing resources..."@]
    } else {
        Seq::empty()
    }
}

/// Whether some resource has exactly language `l`.
pub open spec fn has_language(rs: Seq<ResourceView>, l: Seq<char>) -> bool {
    exists|i: int| 0 <= i < rs.len() && #[trigger] rs[i].metadata.language == l
}

/// The view command on resources already read: parses the status filter,
/// selects the resources of the requested language (all when none is
/// requested), keeps the entries whose status passes, and produces the text
/// of the view. JSON output is left to the caller, which renders what
/// `shown` points at.
pub fn print_view(resources: &Vec<Resource>, lang_filter: &Option<String>, opts: &ViewOptions) -> (out: ViewOutput)
    requires
        total_entries(resources_view(resources@)) <= usize::MAX,
    ensures
        ({
            let rv = resources_view(resources@);
            let pre = view_prelude(*opts);
            match view_status_filter(opts.status) {
                Err(e) => out.failed && strings_view(out.stdout@) == pre && strings_view(out.stderr@)
                    == seq!["❌ "@ + e],
                Ok(f) => if lang_filter matches Some(l) && !has_language(rv, l@) {
                    &&& out.failed
                    &&& strings_view(out.stdout@) == pre.push("❌ Language not found"@)
                    &&& strings_view(out.stderr@) == seq![
                        "Language '"@ + lang_filter->0@ + "' not found. Available languages: "@
                            + join_seq(resource_languages(rv), ", "@),
                    ]
                } else if selected_resources(rv, *lang_filter).len() == 0 {
                    &&& out.failed
                    &&& strings_view(out.stdout@) == pre.push("❌ No resources found"@)
                    &&& strings_view(out.stderr@) == seq![
                        match lang_filter {
                            Some(l) => "No resources found for language: "@ + l@,
                            None => "No resources found"@,
                        },
                    ]
                } else {
                    let sv = shown_view(rv, *lang_filter, f);
                    &&& !out.failed
                    &&& out.stderr.len() == 0
                    &&& shown_at(rv, out.shown@) == sv
                    &&& forall|k: int|
                        0 <= k < out.shown.len() ==> (#[trigger] out.shown@[k]).0 < resources.len()
                            && forall|m: int|
                            0 <= m < out.shown@[k].1.len() ==> #[trigger] out.shown@[k].1@[m]
                                < resources@[out.shown@[k].0 as int].entries.len()
                    &&& strings_view(out.stdout@) == if opts.json {
                        Seq::empty()
                    } else if opts.keys_only {
                        keys_lines(sv, lang_filter is None)
                    } else {
                        pre + seq!["✅ Found "@ + decimal(sv.len()) + " resource(s)"@] + details_lines(
                            sv,
                            opts.full,
                        ) + if lang_filter is None {
                            summary_lines(out.language_counts@, out.unique_keys as nat)
                        } else {
                            Seq::empty()
                        }
                    }
                    &&& (!opts.json && !opts.keys_only && lang_filter is None) ==> {
                        &&& tally_matches(out.language_counts@, lang_tally(sv))
                        &&& out.unique_keys == shown_ids(sv).len()
                    }
                },
            }
        }),
{
    let keys_only_text = opts.keys_only && !opts.json;
    let mut stdout: Vec<String> = Vec::new();
    let mut stderr: Vec<String> = Vec::new();
    let empty_shown: Vec<(usize, Vec<usize>)> = Vec::new();
    if !keys_only_text && !opts.json {
        push_line(&mut stdout, owned("Processing resources..."));
    }
    proof {
        assert(strings_view(stdout@) =~= view_prelude(*opts));
    }
    let statuses = match parse_status_filter(&opts.status) {
        Ok(f) => f,
        Err(e) => {
            push_line(&mut stderr, cat("❌ ", e.as_str()));
            return ViewOutput {
                stdout,
                stderr,
                failed: true,
                shown: empty_shown,
                language_counts: Vec::new(),
                unique_keys: 0,
            };
        },
    };
    let ghost f = status_filter_of(statuses);
    let ghost rv = resources_view(resources@);
    if let Some(lang) = lang_filter {
        let mut found = false;
        let mut langs: Vec<String> = Vec::new();
        let mut i: usize = 0;
        while i < resources.len()
            invariant
                i <= resources.len(),
                rv == resources_view(resources@),
                found == exists|q: int| 0 <= q < i && #[trigger] rv[q].metadata.language == lang@,
                strings_view(langs@) == resource_languages(rv.take(i as int)),
            decreases resources.len() - i,
        {
            if str_eq(resources[i].metadata.language.as_str(), lang.as_str()) {
                found = true;
            }
            push_line(&mut langs, resources[i].metadata.language.clone());
            proof {
                assert(resource_languages(rv.take(i + 1)) =~= resource_languages(rv.take(i as int)).push(
                    rv[i as int].metadata.language,
                ));
            }
            i = i + 1;
        }
        proof {
            assert(rv.take(i as int) =~= rv);
        }
        if !found {
            push_line(&mut stdout, owned("❌ Language not found"));
            let mut m = cat("Language '", lang.as_str());
            push_str(&mut m, "' not found. Available languages: ");
            push_str(&mut m, join(&langs, ", ").as_str());
            push_line(&mut stderr, m);
            return ViewOutput {
                stdout,
                stderr,
                failed: true,
                shown: empty_shown,
                language_counts: Vec::new(),
                unique_keys: 0,
            };
        }
    }
    let shown = collect_shown(resources, lang_filter, &statuses);
    proof {
        assert(shown_at(rv, shown@).len() == shown.len());
        assert(shown_view(rv, *lang_filter, f).len() == selected_resources(rv, *lang_filter).len());
    }
    if shown.len() == 0 {
        push_line(&mut stdout, owned("❌ No resources found"));
        match lang_filter {
            Some(lang) => push_line(&mut stderr, cat("No resources found for language: ", lang.as_str())),
            None => push_line(&mut stderr, owned("No resources found")),
        }
        return ViewOutput {
            stdout,
            stderr,
            failed: true,
            shown: empty_shown,
            language_counts: Vec::new(),
            unique_keys: 0,
        };
    }
    if opts.json {
        let no_lines: Vec<String> = Vec::new();
        proof {
            assert(strings_view(no_lines@) =~= Seq::empty());
        }
        return ViewOutput {
            stdout: no_lines,
            stderr,
            failed: false,
            shown,
            language_counts: Vec::new(),
            unique_keys: 0,
        };
    }
    if keys_only_text {
        let mut lines: Vec<String> = Vec::new();
        push_keys(&mut lines, resources, &shown, lang_filter.is_none());
        proof {
            assert(strings_view(lines@) =~= Seq::empty() + keys_lines(shown_at(rv, shown@), lang_filter is None));
        }
        return ViewOutput {
            stdout: lines,
            stderr,
            failed: false,
            shown,
            language_counts: Vec::new(),
            unique_keys: 0,
        };
    }
    let mut found_line = cat("✅ Found ", decimal_string(shown.len()).as_str());
    push_str(&mut found_line, " resource(s)");
    push_line(&mut stdout, found_line);
    push_details(&mut stdout, resources, &shown, opts.full);
    let mut language_counts: Vec<(String, usize)> = Vec::new();
    let mut unique_keys: usize = 0;
    if lang_filter.is_none() {
        let (t, u) = summarize_shown(resources, &shown);
        let ghost before = strings_view(stdout@);
        push_line(&mut stdout, owned("\n=== Summary ==="));
        push_line(&mut stdout, cat("Total languages: ", decimal_string(t.len()).as_str()));
        push_line(&mut stdout, cat("Total unique keys: ", decimal_string(u).as_str()));
        let ghost mid = strings_view(stdout@);
        let ghost tl = t@.map_values(
            |p: (String, usize)| "  "@ + p.0@ + ": "@ + decimal(p.1 as nat) + " entries"@,
        );
        let mut k: usize = 0;
        proof {
            assert(mid + tl.take(0) =~= mid);
        }
        while k < t.len()
            invariant
                k <= t.len(),
                tl == t@.map_values(
                    |p: (String, usize)| "  "@ + p.0@ + ": "@ + decimal(p.1 as nat) + " entries"@,
                ),
                strings_view(stdout@) == mid + tl.take(k as int),
            decreases t.len() - k,
        {
            let mut line = cat("  ", t[k].0.as_str());
            push_str(&mut line, ": ");
            push_str(&mut line, decimal_string(t[k].1).as_str());
            push_str(&mut line, " entries");
            push_line(&mut stdout, line);
            proof {
                assert(tl.take(k + 1) =~= tl.take(k as int).push(tl[k as int]));
            }
            k = k + 1;
        }
        proof {
            assert(tl.take(k as int) =~= tl);
            assert(strings_view(stdout@) =~= before + summary_lines(t@, u as nat));
        }
        language_counts = t;
        unique_keys = u;
    }
    ViewOutput { stdout, stderr, failed: false, shown, language_counts, unique_keys }
}


/// The status filter of the view: with a filter, every shown entry has a
/// status in the filter list, and every entry whose status is in the list
/// is shown; without one, every entry is shown.
pub proof fn law_status_filter_shows_listed_statuses(es: Seq<EntryView>, filter: Seq<EntryStatus>)
    ensures
        ({
            let out = shown_entries(es, Some(filter));
            &&& forall|i: int| 0 <= i < out.len() ==> filter.contains(#[trigger] out[i].status)
            &&& forall|i: int| 0 <= i < es.len() && filter.contains(#[trigger] es[i].status) ==> out.contains(es[i])
        }),
        shown_entries(es, None) == es,
{
    let p = |e: EntryView| entry_passes(e, Some(filter));
    let out = es.filter(p);
    assert forall|i: int| 0 <= i < out.len() implies filter.contains(#[trigger] out[i].status) by {
        es.lemma_filter_pred(p, i);
    }
    assert forall|i: int| 0 <= i < es.len() && filter.contains(#[trigger] es[i].status) implies out.contains(es[i]) by {
        es.lemma_filter_contains(p, i);
    }
    let q = |e: EntryView| entry_passes(e, None);
    assert(es.filter(q) =~= es) by {
        lemma_filter_all(es, q);
    }
}

/// Filtering with a predicate that holds everywhere keeps the sequence.
proof fn lemma_filter_all(es: Seq<EntryView>, q: spec_fn(EntryView) -> bool)
    requires
        forall|e: EntryView| #[trigger] q(e),
    ensures
        es.filter(q) == es,
    decreases es.len(),
{
    reveal(Seq::filter);
    if es.len() > 0 {
        lemma_filter_all(es.drop_last(), q);
        assert(es.drop_last().push(es.last()) =~= es);
    }
}

} // verus!
