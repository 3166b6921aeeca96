//! The debug command's decisions: how an input is read, and the escaped
//! line breaks (`\n` written as two characters) that become real ones
//! before the resources are shown.
use crate::model::{entries_view, resources_view, Entry, EntryView, Plural, PluralCategory, Resource, ResourceView, Translation, TranslationView};
use crate::text::{chars_of, ends_with, ends_with_seq, push_char};
use vstd::prelude::*;

verus! {

/// How the debug command reads its input.
#[derive(Debug, Clone, Copy, PartialEq, Eq, Structural)]
pub enum DebugRead {
    /// Only as a standard format.
    Standard,
    /// Only as a custom JSON or YAML format.
    Custom,
    /// As a standard format, and as a custom one if that fails.
    StandardThenCustom,
    /// As a standard format; a failure is reported as an unsupported format
    /// or a bad text encoding.
    StandardOrUnsupported,
}

/// An input whose extension may hold a custom format.
pub open spec fn custom_extension(input: Seq<char>) -> bool {
    ends_with_seq(input, ".json"@) || ends_with_seq(input, ".yaml"@) || ends_with_seq(input, ".yml"@)
}

/// How an input is read: strict mode keeps to what the extension says.
pub open spec fn debug_read_of(input: Seq<char>, strict: bool) -> DebugRead {
    if strict {
        if custom_extension(input) {
            DebugRead::Custom
        } else {
            DebugRead::Standard
        }
    } else if custom_extension(input) {
        DebugRead::StandardThenCustom
    } else {
        DebugRead::StandardOrUnsupported
    }
}

/// How the debug command reads `input` (see `debug_read_of`).
pub fn debug_read(input: &str, strict: bool) -> (r: DebugRead)
    ensures
        r == debug_read_of(input@, strict),
{
    let custom = ends_with(input, ".json") || ends_with(input, ".yaml") || ends_with(input, ".yml");
    if strict {
        if custom {
            DebugRead::Custom
        } else {
            DebugRead::Standard
        }
    } else if custom {
        DebugRead::StandardThenCustom
    } else {
        DebugRead::StandardOrUnsupported
    }
}

/// `s` with each escaped line break (a backslash followed by `n`) replaced
/// by a line break, read left to right.
pub open spec fn unescaped(s: Seq<char>) -> Seq<char>
    decreases s.len(),
{
    if s.len() >= 2 && s[0] == '\\' && s[1] == 'n' {
        seq!['\n'] + unescaped(s.skip(2))
    } else if s.len() == 0 {
        Seq::empty()
    } else {
        seq![s[0]] + unescaped(s.skip(1))
    }
}

/// `unescaped` over the characters from `i` on, split off its first step.
proof fn lemma_unescaped_step(s: Seq<char>, i: int)
    requires
        0 <= i < s.len(),
    ensures
        (i + 1 < s.len() && s[i] == '\\' && s[i + 1] == 'n') ==> unescaped(s.skip(i)) == seq!['\n'] + unescaped(
            s.skip(i + 2),
        ),
        !(i + 1 < s.len() && s[i] == '\\' && s[i + 1] == 'n') ==> unescaped(s.skip(i)) == seq![s[i]] + unescaped(
            s.skip(i + 1),
        ),
{
    let t = s.skip(i);
    assert(t.len() == s.len() - i);
    assert(t[0] == s[i]);
    if i + 1 < s.len() {
        assert(t[1] == s[i + 1]);
    }
    if i + 2 <= s.len() {
        assert(t.skip(2) == s.skip(i + 2));
    }
    assert(t.skip(1) == s.skip(i + 1));
}

/// Replaces each escaped line break of `s` by a line break (see
/// `unescaped`).
pub fn unescape_newlines(s: &str) -> (r: String)
    ensures
        r@ == unescaped(s@),
{
    let v = chars_of(s);
    let mut out = String::new();
    let mut i: usize = 0;
    proof {
        assert(s@.skip(0) =~= s@);
        assert(out@ + unescaped(s@) =~= unescaped(s@));
    }
    while i < v.len()
        invariant
            v@ == s@,
            i <= v.len() + 1,
            i <= v.len() ==> out@ + unescaped(s@.skip(i as int)) == unescaped(s@),
            i > v.len() ==> out@ == unescaped(s@),
        decreases v.len() + 1 - i,
    {
        proof {
            lemma_unescaped_step(s@, i as int);
        }
        if i + 1 < v.len() && v[i] == '\\' && v[i + 1] == 'n' {
            let ghost o = out@;
            push_char(&mut out, '\n');
            proof {
                assert(out@ + unescaped(s@.skip(i + 2)) == o + (seq!['\n'] + unescaped(s@.skip(i + 2))));
                if i + 2 > v.len() {
                    assert(false);
                }
            }
            i = i + 2;
        } else {
            let ghost o = out@;
            push_char(&mut out, v[i]);
            proof {
                assert(out@ + unescaped(s@.skip(i + 1)) == o + (seq![s@[i as int]] + unescaped(s@.skip(i + 1))));
            }
            i = i + 1;
        }
    }
    proof {
        if i == v.len() {
            assert(s@.skip(i as int) =~= Seq::<char>::empty());
            assert(out@ + Seq::<char>::empty() == out@);
        }
    }
    out
}

/// A translation with its escaped line breaks unescaped, plural forms
/// included.
pub open spec fn unescaped_translation(t: TranslationView) -> TranslationView {
    match t {
        TranslationView::Empty => TranslationView::Empty,
        TranslationView::Singular(v) => TranslationView::Singular(unescaped(v)),
        TranslationView::Plural(id, forms) => TranslationView::Plural(
            id,
            forms.map_values(|f: (PluralCategory, Seq<char>)| (f.0, unescaped(f.1))),
        ),
    }
}

/// The plural forms with their texts unescaped.
fn unescape_forms(forms: &Vec<(PluralCategory, String)>) -> (r: Vec<(PluralCategory, String)>)
    ensures
        r@.map_values(|f: (PluralCategory, String)| (f.0, f.1@)) == forms@.map_values(
            |f: (PluralCategory, String)| (f.0, f.1@),
        ).map_values(|f: (PluralCategory, Seq<char>)| (f.0, unescaped(f.1))),
{
    let mut r: Vec<(PluralCategory, String)> = Vec::new();
    let mut i: usize = 0;
    while i < forms.len()
        invariant
            i <= forms.len(),
            r.len() == i,
            forall|k: int| 0 <= k < i ==> #[trigger] r@[k].0 == forms@[k].0 && r@[k].1@ == unescaped(forms@[k].1@),
        decreases forms.len() - i,
    {
        let t = unescape_newlines(forms[i].1.as_str());
        r.push((forms[i].0, t));
        i = i + 1;
    }
    proof {
        assert(r@.map_values(|f: (PluralCategory, String)| (f.0, f.1@)) =~= forms@.map_values(
            |f: (PluralCategory, String)| (f.0, f.1@),
        ).map_values(|f: (PluralCategory, Seq<char>)| (f.0, unescaped(f.1))));
    }
    r
}

/// A translation with its escaped line breaks unescaped.
fn unescape_translation(t: &Translation) -> (r: Translation)
    ensures
        r@ == unescaped_translation(t@),
{
    match t {
        Translation::Empty => Translation::Empty,
        Translation::Singular(v) => Translation::Singular(unescape_newlines(v.as_str())),
        Translation::Plural(p) => Translation::Plural(Plural { id: p.id.clone(), forms: unescape_forms(&p.forms) }),
    }
}

/// An entry with its value unescaped.
pub open spec fn unescaped_entry(e: EntryView) -> EntryView {
    EntryView {
        id: e.id,
        value: unescaped_translation(e.value),
        comment: e.comment,
        status: e.status,
        custom: e.custom,
    }
}

/// Unescapes the line breaks in the value of every entry of every resource;
/// nothing else changes.
pub fn unescape_resources(codec: &mut Vec<Resource>)
    ensures
        final(codec).len() == old(codec).len(),
        forall|i: int|
            0 <= i < final(codec).len() ==> {
                let n = #[trigger] resources_view(final(codec)@)[i];
                let o = resources_view(old(codec)@)[i];
                &&& n.metadata == o.metadata
                &&& n.entries == o.entries.map_values(|e: EntryView| unescaped_entry(e))
            },
{
    let ghost c0 = resources_view(codec@);
    let mut i: usize = 0;
    while i < codec.len()
        invariant
            i <= codec.len(),
            codec.len() == c0.len(),
            forall|k: int| i <= k < codec.len() ==> #[trigger] resources_view(codec@)[k] == c0[k],
            forall|k: int|
                0 <= k < i ==> {
                    let n = #[trigger] resources_view(codec@)[k];
                    &&& n.metadata == c0[k].metadata
                    &&& n.entries == c0[k].entries.map_values(|e: EntryView| unescaped_entry(e))
                },
        decreases codec.len() - i,
    {
        let ghost e0 = entries_view(codec@[i as int].entries@);
        proof {
            assert(resources_view(codec@)[i as int] == c0[i as int]);
        }
        let mut j: usize = 0;
        while j < codec[i].entries.len()
            invariant
                i < codec.len(),
                codec.len() == c0.len(),
                e0 == c0[i as int].entries,
                resources_view(codec@)[i as int].metadata == c0[i as int].metadata,
                codec@[i as int].entries.len() == e0.len(),
                j <= e0.len(),
                forall|k: int| 0 <= k < j ==> #[trigger] codec@[i as int].entries@[k]@ == unescaped_entry(e0[k]),
                forall|k: int| j <= k < e0.len() ==> #[trigger] codec@[i as int].entries@[k]@ == e0[k],
                forall|k: int| i < k < codec.len() ==> #[trigger] resources_view(codec@)[k] == c0[k],
                forall|k: int|
                    0 <= k < i ==> {
                        let n = #[trigger] resources_view(codec@)[k];
                        &&& n.metadata == c0[k].metadata
                        &&& n.entries == c0[k].entries.map_values(|e: EntryView| unescaped_entry(e))
                    },
            decreases e0.len() - j,
        {
            let ghost before = codec@;
            let t = unescape_translation(&codec[i].entries[j].value);
            let ghost tv = t@;
            proof {
                assert(before[i as int].entries@[j as int]@ == e0[j as int]);
                assert(tv == unescaped_translation(e0[j as int].value));
            }
            codec[i].entries[j].value = t;
            proof {
                assert forall|k: int| 0 <= k < codec.len() && k != i implies codec@[k] == before[k] by {}
                assert forall|k: int| 0 <= k < codec.len() && k != i implies #[trigger] resources_view(codec@)[k]
                    == resources_view(before)[k] by {
                    assert(codec@[k] == before[k]);
                }
                assert forall|m: int| 0 <= m < codec@[i as int].entries.len() && m != j implies codec@[i as int].entries@[m]
                    == before[i as int].entries@[m] by {}
                assert(codec@[i as int].entries@[j as int]@ =~= unescaped_entry(e0[j as int]));
                assert(codec@[i as int].metadata == before[i as int].metadata);
            }
            j = j + 1;
        }
        proof {
            assert(entries_view(codec@[i as int].entries@) =~= e0.map_values(|e: EntryView| unescaped_entry(e)));
        }
        i = i + 1;
    }
}

} // verus!
