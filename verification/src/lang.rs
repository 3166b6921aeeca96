//! Language codes: normalization, the base subtag, the matching rules that
//! the commands use to pair a requested language with a resource, and the
//! accepted shape of a language code.
use crate::text::{
    chars_of, lower_seq, owned, push_str, replace_char, replace_seq, str_eq, string_of_range,
    to_ascii_lowercase, trim, trim_seq,
};
use vstd::prelude::*;

verus! {

/// A language code trimmed, with `_` turned into `-`, ASCII lower-cased.
pub open spec fn norm_lang(s: Seq<char>) -> Seq<char> {
    lower_seq(replace_seq(trim_seq(s), '_', '-'))
}

/// The part of `s` before its first `c` (all of `s` when there is none).
pub open spec fn prefix_before(s: Seq<char>, c: char) -> Seq<char>
    decreases s.len(),
{
    if s.len() == 0 {
        s
    } else if s[0] == c {
        Seq::empty()
    } else {
        seq![s[0]] + prefix_before(s.drop_first(), c)
    }
}

/// The primary subtag: everything before the first `-`.
pub open spec fn base_lang(s: Seq<char>) -> Seq<char> {
    prefix_before(s, '-')
}

/// Two codes match when they are equal after normalization or share a
/// primary subtag after normalization.
pub open spec fn lang_match(a: Seq<char>, b: Seq<char>) -> bool {
    norm_lang(a) == norm_lang(b) || base_lang(norm_lang(a)) == base_lang(norm_lang(b))
}

/// Two codes are the same language after normalization.
pub open spec fn lang_same(a: Seq<char>, b: Seq<char>) -> bool {
    norm_lang(a) == norm_lang(b)
}

pub open spec fn is_lower_ascii(c: char) -> bool {
    'a' <= c && c <= 'z'
}

pub open spec fn is_upper_ascii(c: char) -> bool {
    'A' <= c && c <= 'Z'
}

/// The accepted shape of a language code: two or three lower-case ASCII
/// letters, optionally followed by `-` and two upper-case ASCII letters
/// (`en`, `fra`, `en-US`).
pub open spec fn valid_lang_code(s: Seq<char>) -> bool {
    let n = s.len();
    ||| ((n == 2 || n == 3) && forall|i: int| 0 <= i < n ==> is_lower_ascii(s[i]))
    ||| ((n == 5 || n == 6) && s[n - 3] == '-' && is_upper_ascii(s[n - 2]) && is_upper_ascii(
        s[n - 1],
    ) && forall|i: int| 0 <= i < n - 3 ==> is_lower_ascii(s[i]))
}

proof fn lemma_prefix_step(s: Seq<char>, i: int, c: char)
    requires
        0 <= i < s.len(),
        s[i] != c,
    ensures
        prefix_before(s.subrange(i, s.len() as int), c) == seq![s[i]] + prefix_before(
            s.subrange(i + 1, s.len() as int),
            c,
        ),
{
    assert(s.subrange(i, s.len() as int).drop_first() =~= s.subrange(i + 1, s.len() as int));
}

/// The part of `s` before its first `c` (`s.split(c).next()`).
pub fn prefix_before_char(s: &str, c: char) -> (r: String)
    ensures
        r@ == prefix_before(s@, c),
{
    let v = chars_of(s);
    let n = v.len();
    let mut i: usize = 0;
    proof {
        assert(v@.subrange(0, n as int) =~= v@);
        assert(v@.subrange(0, 0) + prefix_before(v@.subrange(0, n as int), c) =~= prefix_before(
            v@,
            c,
        ));
    }
    while i < n && v[i] != c
        invariant
            n == v.len(),
            v@ == s@,
            i <= n,
            prefix_before(v@, c) == v@.subrange(0, i as int) + prefix_before(
                v@.subrange(i as int, n as int),
                c,
            ),
        decreases n - i,
    {
        proof {
            lemma_prefix_step(v@, i as int, c);
            assert(v@.subrange(0, i as int) + (seq![v@[i as int]] + prefix_before(
                v@.subrange(i + 1, n as int),
                c,
            )) =~= v@.subrange(0, i + 1) + prefix_before(v@.subrange(i + 1, n as int), c));
        }
        i = i + 1;
    }
    proof {
        let rest = v@.subrange(i as int, n as int);
        assert(prefix_before(rest, c) =~= Seq::<char>::empty());
        assert(v@.subrange(0, i as int) + Seq::<char>::empty() =~= v@.subrange(0, i as int));
    }
    string_of_range(&v, 0, i)
}

/// A language code trimmed, `_` replaced by `-`, ASCII lower-cased.
pub fn normalize_lang(lang: &str) -> (r: String)
    ensures
        r@ == norm_lang(lang@),
{
    let t = trim(lang);
    let u = replace_char(t.as_str(), '_', '-');
    to_ascii_lowercase(u.as_str())
}

/// The primary subtag of a language code: the text before the first `-`.
pub fn lang_base(lang: &str) -> (r: String)
    ensures
        r@ == base_lang(lang@),
{
    prefix_before_char(lang, '-')
}

/// Whether a resource language answers a requested one: equal after
/// normalization, or the same primary subtag (`fr` matches `fr-CA`).
pub fn lang_matches(resource_lang: &str, requested_lang: &str) -> (r: bool)
    ensures
        r == lang_match(resource_lang@, requested_lang@),
{
    let res = normalize_lang(resource_lang);
    let req = normalize_lang(requested_lang);
    if str_eq(res.as_str(), req.as_str()) {
        return true;
    }
    let a = lang_base(res.as_str());
    let b = lang_base(req.as_str());
    str_eq(a.as_str(), b.as_str())
}

/// Whether two language codes are equal after normalization.
pub fn lang_matches_exact(left: &str, right: &str) -> (r: bool)
    ensures
        r == lang_same(left@, right@),
{
    let a = normalize_lang(left);
    let b = normalize_lang(right);
    str_eq(a.as_str(), b.as_str())
}

/// Checks the shape of a language code: `Err` with "Language code cannot be
/// empty" for the empty code, `Err` with "Invalid language code format: ..."
/// for any other code outside `valid_lang_code`, `Ok` otherwise.
pub fn validate_language_code(lang: &str) -> (r: Result<(), String>)
    ensures
        r is Ok <==> valid_lang_code(lang@),
        lang@.len() == 0 ==> (r matches Err(e) && e@ == "Language code cannot be empty"@),
        lang@.len() != 0 && !valid_lang_code(lang@) ==> (r matches Err(e) && e@
            == "Invalid language code format: "@ + lang@
            + ". Expected format: 'en' or 'en-US'"@),
{
    let v = chars_of(lang);
    let n = v.len();
    if n == 0 {
        return Err(owned("Language code cannot be empty"));
    }
    let mut ok = false;
    if n == 2 || n == 3 || n == 5 || n == 6 {
        let primary = if n >= 5 {
            n - 3
        } else {
            n
        };
        let mut all_lower = true;
        let mut i: usize = 0;
        while i < primary
            invariant
                v@ == lang@,
                n == v.len(),
                primary <= n,
                i <= primary,
                all_lower == forall|k: int| 0 <= k < i ==> is_lower_ascii(v@[k]),
            decreases primary - i,
        {
            if !('a' <= v[i] && v[i] <= 'z') {
                all_lower = false;
            }
            i = i + 1;
        }
        if n >= 5 {
            ok = all_lower && v[n - 3] == '-' && 'A' <= v[n - 2] && v[n - 2] <= 'Z' && 'A' <= v[n
                - 1] && v[n - 1] <= 'Z';
        } else {
            ok = all_lower;
        }
    }
    if ok {
        Ok(())
    } else {
        let mut e = owned("Invalid language code format: ");
        push_str(&mut e, lang);
        push_str(&mut e, ". Expected format: 'en' or 'en-US'");
        Err(e)
    }
}

} // verus!
