//! The `edit set` command on a loaded catalog: a value sets or adds a key,
//! no value (or an empty one) removes it, and a status and comment given
//! with a value are written with it.
use crate::model::{
    entries_view, opt_view, resources_view, status_named, Entry, EntryStatus, EntryView, Resource, ResourceView,
    Translation, TranslationView,
};
use crate::text::{owned, push_str, replace_char, replace_seq, str_eq};
use crate::translate::{codec_find, find_entry, find_language, first_entry, first_lang, with_entries};
use vstd::prelude::*;

verus! {

/// What an edit did.
#[derive(Debug, Clone, Copy, PartialEq, Eq, Structural)]
pub enum EditOutcome {
    /// The key was removed.
    Removed,
    /// Removal was asked for a key that is not there.
    NothingToRemove,
    /// An existing entry got the new value.
    Updated,
    /// A new entry was added.
    Added,
}

/// A status as the command line spells it, with `-` and spaces read as `_`.
pub open spec fn status_arg_norm(s: Seq<char>) -> Seq<char> {
    replace_seq(replace_seq(s, '-', '_'), ' ', '_')
}

/// Reads `--status`: absent is no status; otherwise the spelling with `-`
/// and spaces read as `_` must name a status.
pub fn parse_status_opt(status: &Option<String>) -> (r: Result<Option<EntryStatus>, String>)
    ensures
        match status {
            None => r == Ok::<Option<EntryStatus>, String>(None),
            Some(s) => match status_named(status_arg_norm(s@)) {
                Some(st) => r == Ok::<Option<EntryStatus>, String>(Some(st)),
                None => r matches Err(e) && e@ == "Unknown entry status: "@ + status_arg_norm(s@),
            },
        },
{
    match status {
        None => Ok(None),
        Some(s) => {
            let a = replace_char(s.as_str(), '-', '_');
            let b = replace_char(a.as_str(), ' ', '_');
            match EntryStatus::parse(b.as_str()) {
                Ok(st) => Ok(Some(st)),
                Err(e) => Err(e),
            }
        },
    }
}

/// No value, or an empty one, asks for removal.
pub open spec fn removes(value: Option<Seq<char>>) -> bool {
    value is None || value->0.len() == 0
}

/// The resource an edit without a language works on: the only one.
pub open spec fn single_resource_of(rs: Seq<ResourceView>) -> Result<int, Seq<char>> {
    if rs.len() == 1 {
        Ok(0)
    } else {
        Err("Multiple languages present; specify --lang"@)
    }
}

/// The entries without those of key `key`, in order.
pub open spec fn without_key(es: Seq<EntryView>, key: Seq<char>) -> Seq<EntryView>
    decreases es.len(),
{
    if es.len() == 0 {
        Seq::empty()
    } else if es.last().id == key {
        without_key(es.drop_last(), key)
    } else {
        without_key(es.drop_last(), key).push(es.last())
    }
}

/// An existing entry given a new value; a given status and comment replace
/// the entry's own.
pub open spec fn set_entry(e: EntryView, v: Seq<char>, comment: Option<Seq<char>>, status: Option<EntryStatus>) -> EntryView {
    EntryView {
        id: e.id,
        value: TranslationView::Singular(v),
        comment: if comment is Some {
            comment
        } else {
            e.comment
        },
        status: match status {
            Some(s) => s,
            None => e.status,
        },
        custom: e.custom,
    }
}

/// A new entry for `key`; without a status it is taken as translated.
pub open spec fn new_entry(key: Seq<char>, v: Seq<char>, comment: Option<Seq<char>>, status: Option<EntryStatus>) -> EntryView {
    EntryView {
        id: key,
        value: TranslationView::Singular(v),
        comment,
        status: match status {
            Some(s) => s,
            None => EntryStatus::Translated,
        },
        custom: Seq::empty(),
    }
}

/// Removal of `key` from the resource at `i`.
pub open spec fn removal_at(rs: Seq<ResourceView>, i: int, key: Seq<char>) -> (Seq<ResourceView>, EditOutcome) {
    let kept = without_key(rs[i].entries, key);
    (
        rs.update(i, with_entries(rs[i], kept)),
        if kept.len() < rs[i].entries.len() {
            EditOutcome::Removed
        } else {
            EditOutcome::NothingToRemove
        },
    )
}

/// Setting `key` to `v` in language `l`: the first entry of the key in the
/// first resource of `l` is updated; otherwise a new entry goes to that
/// resource; a language without a resource is an error.
pub open spec fn set_in(
    rs: Seq<ResourceView>,
    l: Seq<char>,
    key: Seq<char>,
    v: Seq<char>,
    comment: Option<Seq<char>>,
    status: Option<EntryStatus>,
) -> Result<(Seq<ResourceView>, EditOutcome), Seq<char>> {
    match codec_find(rs, key, l) {
        Some((i, j)) => Ok(
            (
                rs.update(i, with_entries(rs[i], rs[i].entries.update(j, set_entry(rs[i].entries[j], v, comment, status)))),
                EditOutcome::Updated,
            ),
        ),
        None => match first_lang(rs, l) {
            Some(i) => Ok(
                (rs.update(i, with_entries(rs[i], rs[i].entries.push(new_entry(key, v, comment, status)))), EditOutcome::Added),
            ),
            None => Err("Language '"@ + l + "' not found in input"@),
        },
    }
}

/// What `edit set` does to the resources. Removal with a language removes
/// the key from the first resource of that language that holds it (a key
/// that is not there is no error); without a language it works on the only
/// resource. Setting works on the given language, or on the language of the
/// only resource.
pub open spec fn edit_set_result(
    rs: Seq<ResourceView>,
    lang: Option<Seq<char>>,
    key: Seq<char>,
    value: Option<Seq<char>>,
    comment: Option<Seq<char>>,
    status: Option<EntryStatus>,
) -> Result<(Seq<ResourceView>, EditOutcome), Seq<char>> {
    if removes(value) {
        match lang {
            Some(l) => match codec_find(rs, key, l) {
                Some((i, j)) => Ok(removal_at(rs, i, key)),
                None => Ok((rs, EditOutcome::NothingToRemove)),
            },
            None => match single_resource_of(rs) {
                Ok(i) => Ok(removal_at(rs, i, key)),
                Err(e) => Err(e),
            },
        }
    } else {
        match lang {
            Some(l) => set_in(rs, l, key, value->0, comment, status),
            None => match single_resource_of(rs) {
                Ok(i) => set_in(rs, rs[i].metadata.language, key, value->0, comment, status),
                Err(e) => Err(e),
            },
        }
    }
}

/// The entries without those of key `key` (see `without_key`).
fn entries_without(es: &Vec<Entry>, key: &str) -> (r: Vec<Entry>)
    ensures
        entries_view(r@) == without_key(entries_view(es@), key@),
{
    let mut r: Vec<Entry> = Vec::new();
    let mut i: usize = 0;
    while i < es.len()
        invariant
            i <= es.len(),
            entries_view(r@) == without_key(entries_view(es@).take(i as int), key@),
        decreases es.len() - i,
    {
        let ghost before = r@;
        proof {
            let w = entries_view(es@);
            assert(w.take(i as int + 1).drop_last() == w.take(i as int));
            assert(w.take(i as int + 1).last() == es@[i as int]@);
        }
        if !str_eq(es[i].id.as_str(), key) {
            r.push(es[i].duplicate());
            proof {
                assert(entries_view(r@) == entries_view(before).push(es@[i as int]@));
            }
        }
        i = i + 1;
    }
    proof {
        assert(entries_view(es@).take(es.len() as int) == entries_view(es@));
    }
    r
}

proof fn lemma_without_key_len(es: Seq<EntryView>, key: Seq<char>)
    ensures
        without_key(es, key).len() <= es.len(),
    decreases es.len(),
{
    if es.len() > 0 {
        lemma_without_key_len(es.drop_last(), key);
    }
}

/// Removes `key` from the resource at `i`.
fn remove_at(codec: &mut Vec<Resource>, i: usize, key: &str) -> (r: EditOutcome)
    requires
        i < old(codec).len(),
    ensures
        (resources_view(final(codec)@), r) == removal_at(resources_view(old(codec)@), i as int, key@),
{
    let ghost before = codec@;
    let ghost bv = resources_view(codec@);
    let kept = entries_without(&codec[i].entries, key);
    let n_before = codec[i].entries.len();
    let n_after = kept.len();
    codec[i].entries = kept;
    proof {
        assert forall|k: int| 0 <= k < codec.len() && k != i implies codec@[k] == before[k] by {}
        assert(resources_view(codec@) =~= bv.update(
            i as int,
            with_entries(bv[i as int], without_key(bv[i as int].entries, key@)),
        ));
    }
    if n_after < n_before {
        EditOutcome::Removed
    } else {
        EditOutcome::NothingToRemove
    }
}

/// Sets `key` to `value` in language `lang` (see `set_in`).
fn set_at(
    codec: &mut Vec<Resource>,
    lang: &str,
    key: &str,
    value: String,
    comment: &Option<String>,
    status: Option<EntryStatus>,
) -> (r: Result<EditOutcome, String>)
    ensures
        match set_in(resources_view(old(codec)@), lang@, key@, value@, opt_view(*comment), status) {
            Ok((rs, o)) => r == Ok::<EditOutcome, String>(o) && resources_view(final(codec)@) == rs,
            Err(e) => r matches Err(m) && m@ == e && final(codec)@ == old(codec)@,
        },
{
    let ghost before = codec@;
    let ghost bv = resources_view(codec@);
    let ghost vv = value@;
    match find_entry(codec, key, lang) {
        Some((i, j)) => {
            codec[i].entries[j].value = Translation::Singular(value);
            match status {
                Some(s) => {
                    codec[i].entries[j].status = s;
                },
                None => {},
            }
            match comment {
                Some(c) => {
                    codec[i].entries[j].comment = Some(c.clone());
                },
                None => {},
            }
            proof {
                assert forall|k: int| 0 <= k < codec.len() && k != i implies codec@[k] == before[k] by {}
                assert forall|m: int| 0 <= m < codec@[i as int].entries.len() && m != j implies codec@[i as int].entries@[m]
                    == before[i as int].entries@[m] by {}
                assert(entries_view(codec@[i as int].entries@) =~= bv[i as int].entries.update(
                    j as int,
                    set_entry(bv[i as int].entries[j as int], vv, opt_view(*comment), status),
                ));
                assert(resources_view(codec@) =~= bv.update(
                    i as int,
                    with_entries(
                        bv[i as int],
                        bv[i as int].entries.update(j as int, set_entry(bv[i as int].entries[j as int], vv, opt_view(*comment), status)),
                    ),
                ));
            }
            Ok(EditOutcome::Updated)
        },
        None => match find_language(codec, lang) {
            Some(i) => {
                let entry = Entry {
                    id: owned(key),
                    value: Translation::Singular(value),
                    comment: match comment {
                        Some(c) => Some(c.clone()),
                        None => None,
                    },
                    status: match status {
                        Some(s) => s,
                        None => EntryStatus::Translated,
                    },
                    custom: Vec::new(),
                };
                proof {
                    assert(crate::model::pairs_view(entry.custom@) =~= Seq::empty());
                    assert(entry@ == new_entry(key@, vv, opt_view(*comment), status));
                }
                codec[i].entries.push(entry);
                proof {
                    assert forall|k: int| 0 <= k < codec.len() && k != i implies codec@[k] == before[k] by {}
                    assert(entries_view(codec@[i as int].entries@) =~= bv[i as int].entries.push(
                        new_entry(key@, vv, opt_view(*comment), status),
                    ));
                    assert(resources_view(codec@) =~= bv.update(
                        i as int,
                        with_entries(bv[i as int], bv[i as int].entries.push(new_entry(key@, vv, opt_view(*comment), status))),
                    ));
                }
                Ok(EditOutcome::Added)
            },
            None => {
                let mut e = owned("Language '");
                push_str(&mut e, lang);
                push_str(&mut e, "' not found in input");
                Err(e)
            },
        },
    }
}

/// Applies `edit set` to the loaded resources (see `edit_set_result`). On an
/// error nothing is changed.
pub fn apply_edit_set(
    codec: &mut Vec<Resource>,
    lang: &Option<String>,
    key: &str,
    value: Option<String>,
    comment: &Option<String>,
    status: Option<EntryStatus>,
) -> (r: Result<EditOutcome, String>)
    ensures
        match edit_set_result(resources_view(old(codec)@), opt_view(*lang), key@, opt_view(value), opt_view(*comment), status) {
            Ok((rs, o)) => r == Ok::<EditOutcome, String>(o) && resources_view(final(codec)@) == rs,
            Err(e) => r matches Err(m) && m@ == e && final(codec)@ == old(codec)@,
        },
{
    let remove = match &value {
        None => true,
        Some(v) => v.as_str().unicode_len() == 0,
    };
    if remove {
        match lang {
            Some(l) => match find_entry(codec, key, l.as_str()) {
                Some((i, _j)) => Ok(remove_at(codec, i, key)),
                None => Ok(EditOutcome::NothingToRemove),
            },
            None => {
                if codec.len() == 1 {
                    Ok(remove_at(codec, 0, key))
                } else {
                    Err(owned("Multiple languages present; specify --lang"))
                }
            },
        }
    } else {
        let v = match value {
            Some(v) => v,
            None => String::new(),
        };
        match lang {
            Some(l) => set_at(codec, l.as_str(), key, v, comment, status),
            None => {
                if codec.len() == 1 {
                    let l = codec[0].metadata.language.clone();
                    set_at(codec, l.as_str(), key, v, comment, status)
                } else {
                    Err(owned("Multiple languages present; specify --lang"))
                }
            },
        }
    }
}

/// The resource a single-language output gets: the first of the given
/// language, or the only one when no language is given.
pub fn pick_single_resource(codec: &Vec<Resource>, lang: &Option<String>) -> (r: Result<usize, String>)
    ensures
        match lang {
            Some(l) => match first_lang(resources_view(codec@), l@) {
                Some(i) => r == Ok::<usize, String>(i as usize),
                None => r matches Err(e) && e@ == "Language '"@ + l@ + "' not found in input"@,
            },
            None => match single_resource_of(resources_view(codec@)) {
                Ok(i) => r == Ok::<usize, String>(i as usize),
                Err(m) => r matches Err(e) && e@ == m,
            },
        },
{
    match lang {
        Some(l) => match find_language(codec, l.as_str()) {
            Some(i) => Ok(i),
            None => {
                let mut e = owned("Language '");
                push_str(&mut e, l.as_str());
                push_str(&mut e, "' not found in input");
                Err(e)
            },
        },
        None => {
            if codec.len() == 1 {
                Ok(0)
            } else {
                Err(owned("Multiple languages present; specify --lang"))
            }
        },
    }
}

/// Removing a key leaves no entry of it in the resource worked on, and
/// every other entry as it was, in order.
pub proof fn law_removed_key_is_gone(es: Seq<EntryView>, key: Seq<char>)
    ensures
        forall|m: int| 0 <= m < without_key(es, key).len() ==> (#[trigger] without_key(es, key)[m]).id != key,
        forall|e: EntryView| e.id != key ==> (es.contains(e) <==> without_key(es, key).contains(e)),
    decreases es.len(),
{
    if es.len() > 0 {
        law_removed_key_is_gone(es.drop_last(), key);
        let p = without_key(es.drop_last(), key);
        assert forall|e: EntryView| e.id != key implies (es.contains(e) <==> without_key(es, key).contains(e)) by {
            if es.contains(e) {
                let k = choose|k: int| 0 <= k < es.len() && es[k] == e;
                if k < es.len() - 1 {
                    assert(es.drop_last()[k] == e);
                    assert(es.drop_last().contains(e));
                    let m = choose|m: int| 0 <= m < p.len() && p[m] == e;
                    if es.last().id != key {
                        assert(p.push(es.last())[m] == e);
                    }
                } else {
                    assert(p.push(es.last())[p.len() as int] == e);
                }
            }
            if without_key(es, key).contains(e) {
                let m = choose|m: int| 0 <= m < without_key(es, key).len() && without_key(es, key)[m] == e;
                if m < p.len() {
                    assert(p[m] == e);
                    assert(p.contains(e));
                    assert(es.drop_last().contains(e));
                    let k = choose|k: int| 0 <= k < es.drop_last().len() && es.drop_last()[k] == e;
                    assert(es[k] == e);
                } else {
                    assert(es[es.len() - 1] == e);
                }
            }
        }
    }
}

/// A value that `edit set` writes is what a lookup reads back: after
/// setting `key` to `v` in language `l`, the entry that the catalog finds
/// for `key` in `l` holds `v`, and the status and comment when they were
/// given.
pub proof fn law_set_then_lookup(
    rs: Seq<ResourceView>,
    l: Seq<char>,
    key: Seq<char>,
    v: Seq<char>,
    comment: Option<Seq<char>>,
    status: Option<EntryStatus>,
)
    requires
        set_in(rs, l, key, v, comment, status) is Ok,
    ensures
        ({
            let rs2 = set_in(rs, l, key, v, comment, status)->Ok_0.0;
            &&& codec_find(rs2, key, l) is Some
            &&& ({
                let (i, j) = codec_find(rs2, key, l)->0;
                &&& rs2[i].entries[j].id == key
                &&& rs2[i].entries[j].value == TranslationView::Singular(v)
                &&& (status matches Some(s) ==> rs2[i].entries[j].status == s)
                &&& (comment is Some ==> rs2[i].entries[j].comment == comment)
            })
        }),
{
    let rs2 = set_in(rs, l, key, v, comment, status)->Ok_0.0;
    crate::translate::lemma_first_lang_found(rs, l);
    let i = first_lang(rs, l)->0;
    assert(rs2.len() == rs.len());
    assert forall|k: int| 0 <= k < rs.len() implies #[trigger] rs2[k].metadata.language == rs[k].metadata.language by {}
    crate::translate::lemma_first_lang_same_languages(rs2, rs, l);
    let es = rs[i].entries;
    crate::translate::lemma_first_entry_found(es, key);
    match codec_find(rs, key, l) {
        Some((i0, j)) => {
            let es2 = es.update(j, set_entry(es[j], v, comment, status));
            assert(rs2[i].entries == es2);
            assert forall|k: int| 0 <= k < j implies #[trigger] es2[k].id != key by {
                assert(es2[k] == es[k]);
            }
            crate::translate::lemma_first_entry(es2, key, j);
        },
        None => {
            let es2 = es.push(new_entry(key, v, comment, status));
            assert(rs2[i].entries == es2);
            assert forall|k: int| 0 <= k < es.len() implies #[trigger] es2[k].id != key by {
                assert(es2[k] == es[k]);
            }
            crate::translate::lemma_first_entry(es2, key, es.len() as int);
        },
    }
}

} // verus!
