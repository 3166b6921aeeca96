//! Input patterns: which inputs are globs, where a walk for them starts,
//! which walked files they match, and the order-preserving removal of
//! repeated paths. Glob syntax and matching are `globset`'s; the walk itself
//! reads the disk and is left to the caller.
use crate::paths::{parent_path, path_is_dir, path_parent};
use crate::text::{chars_of, owned, push_str, str_eq, string_of_range, strings_view};
use vstd::prelude::*;

verus! {

/// What `GlobBuilder::new(pattern).literal_separator(true).build()` reports:
/// `None` when the pattern compiles, otherwise the error's text.
pub uninterp spec fn glob_build_outcome(pattern: Seq<char>) -> Option<Seq<char>>;

/// What `GlobSetBuilder::build` reports for the set of `patterns`, each
/// built with `literal_separator`: `None` when the set builds (its matchers
/// compile within `globset`'s size limits), otherwise the error's text.
pub uninterp spec fn glob_set_build_outcome(patterns: Seq<Seq<char>>) -> Option<Seq<char>>;

/// The patterns a built glob set was made from, in order.
pub uninterp spec fn glob_set_patterns(set: globset::GlobSet) -> Seq<Seq<char>>;

/// Whether the glob set built from `patterns` matches `path`.
pub uninterp spec fn glob_set_match(patterns: Seq<Seq<char>>, path: Seq<char>) -> bool;

/// A set of compiled glob patterns, from `globset`.
#[verifier::external_type_specification]
#[verifier::external_body]
pub struct ExGlobSet(globset::GlobSet);

/// A character that makes an input a glob pattern.
pub open spec fn is_glob_meta(c: char) -> bool {
    c == '*' || c == '?' || c == '[' || c == '{'
}

/// Whether `s` holds a glob meta-character.
pub open spec fn has_glob_meta_spec(s: Seq<char>) -> bool {
    exists|i: int| 0 <= i < s.len() && #[trigger] is_glob_meta(s[i])
}

/// The index of the first meta-character of `s`, or its length.
pub open spec fn first_meta(s: Seq<char>) -> nat
    decreases s.len(),
{
    if s.len() == 0 {
        0
    } else if is_glob_meta(s[0]) {
        0
    } else {
        1 + first_meta(s.drop_first())
    }
}

proof fn lemma_first_meta(s: Seq<char>)
    ensures
        first_meta(s) <= s.len(),
        forall|i: int| 0 <= i < first_meta(s) ==> !#[trigger] is_glob_meta(s[i]),
        first_meta(s) < s.len() ==> is_glob_meta(s[first_meta(s) as int]),
    decreases s.len(),
{
    if s.len() > 0 && !is_glob_meta(s[0]) {
        lemma_first_meta(s.drop_first());
        assert forall|i: int| 0 <= i < first_meta(s) implies !#[trigger] is_glob_meta(s[i]) by {
            if i > 0 {
                assert(s[i] == s.drop_first()[i - 1]);
            }
        }
    }
}

/// The text of a pattern before its first meta-character.
pub open spec fn static_prefix_spec(s: Seq<char>) -> Seq<char> {
    s.take(first_meta(s) as int)
}

/// The parent of `p`, or `.` where it has none.
pub open spec fn parent_or_dot(p: Seq<char>) -> Seq<char> {
    match parent_path(p) {
        Some(q) => q,
        None => "."@,
    }
}

/// The directories a walk for `pattern` may start at: for a plain path its
/// parent; for a glob the static prefix when that is a directory, otherwise
/// its parent.
pub open spec fn possible_root(pattern: Seq<char>, root: Seq<char>) -> bool {
    if has_glob_meta_spec(pattern) {
        root == static_prefix_spec(pattern) || root == parent_or_dot(static_prefix_spec(pattern))
    } else {
        root == parent_or_dot(pattern)
    }
}

/// The paths of `s` in order, each kept at its first occurrence only.
pub open spec fn dedup_seq(s: Seq<Seq<char>>) -> Seq<Seq<char>>
    decreases s.len(),
{
    if s.len() == 0 {
        Seq::empty()
    } else {
        let d = dedup_seq(s.drop_last());
        if d.contains(s.last()) {
            d
        } else {
            d.push(s.last())
        }
    }
}

/// The candidates, in order, that the glob set of `patterns` matches.
pub open spec fn matching_paths(patterns: Seq<Seq<char>>, cands: Seq<Seq<char>>) -> Seq<Seq<char>>
    decreases cands.len(),
{
    if cands.len() == 0 {
        Seq::empty()
    } else {
        let prev = matching_paths(patterns, cands.drop_last());
        if glob_set_match(patterns, cands.last()) {
            prev.push(cands.last())
        } else {
            prev
        }
    }
}

/// Every pattern compiles.
pub open spec fn all_globs_valid(patterns: Seq<Seq<char>>) -> bool {
    forall|k: int| 0 <= k < patterns.len() ==> #[trigger] glob_build_outcome(patterns[k]) is None
}

/// The message for a pattern that does not compile.
pub open spec fn invalid_glob_message(pattern: Seq<char>, err: Seq<char>) -> Seq<char> {
    "Invalid glob pattern '"@ + pattern + "': "@ + err
}

/// Compiles `pattern` as `globset` does here and reports its error, if any.
#[verifier::external_body]
fn glob_build_error(pattern: &str) -> (r: Option<String>)
    ensures
        match r {
            Some(e) => glob_build_outcome(pattern@) == Some(e@),
            None => glob_build_outcome(pattern@) is None,
        },
{
    globset::GlobBuilder::new(pattern).literal_separator(true).build().err().map(|e| e.to_string())
}

/// Every pattern compiles and their set builds.
pub open spec fn globs_ready(patterns: Seq<Seq<char>>) -> bool {
    all_globs_valid(patterns) && glob_set_build_outcome(patterns) is None
}

/// Builds the glob set of `patterns` with `GlobSetBuilder`, each pattern
/// built as `glob_build_error` builds it; the set's error, if any.
#[verifier::external_body]
fn build_glob_set(patterns: &Vec<String>) -> (r: Result<globset::GlobSet, String>)
    requires
        all_globs_valid(strings_view(patterns@)),
    ensures
        match r {
            Ok(set) => glob_set_build_outcome(strings_view(patterns@)) is None && glob_set_patterns(set)
                == strings_view(patterns@),
            Err(e) => glob_set_build_outcome(strings_view(patterns@)) == Some(e@),
        },
{
    let mut builder = globset::GlobSetBuilder::new();
    for p in patterns {
        match globset::GlobBuilder::new(p).literal_separator(true).build() {
            Ok(g) => builder.add(g),
            Err(e) => return Err(e.to_string()),
        };
    }
    builder.build().map_err(|e| e.to_string())
}

/// Whether the glob set matches `path` (`GlobSet::is_match`).
#[verifier::external_body]
fn glob_set_is_match(set: &globset::GlobSet, path: &str) -> (r: bool)
    ensures
        r == glob_set_match(glob_set_patterns(*set), path@),
{
    set.is_match(path)
}

/// Whether `s` holds one of `*`, `?`, `[`, `{`.
pub fn has_glob_meta(s: &str) -> (r: bool)
    ensures
        r == has_glob_meta_spec(s@),
{
    let v = chars_of(s);
    let mut i: usize = 0;
    while i < v.len()
        invariant
            v@ == s@,
            i <= v.len(),
            forall|j: int| 0 <= j < i ==> !#[trigger] is_glob_meta(v@[j]),
        decreases v.len() - i,
    {
        let c = v[i];
        if c == '*' || c == '?' || c == '[' || c == '{' {
            assert(is_glob_meta(s@[i as int]));
            return true;
        }
        i = i + 1;
    }
    false
}

/// The text of `pattern` before its first meta-character.
pub fn static_prefix(pattern: &str) -> (r: String)
    ensures
        r@ == static_prefix_spec(pattern@),
{
    let v = chars_of(pattern);
    let mut i: usize = 0;
    proof {
        lemma_first_meta(pattern@);
    }
    while i < v.len() && !(v[i] == '*' || v[i] == '?' || v[i] == '[' || v[i] == '{')
        invariant
            v@ == pattern@,
            i <= first_meta(pattern@),
            first_meta(pattern@) <= v.len(),
            forall|j: int| 0 <= j < first_meta(pattern@) ==> !#[trigger] is_glob_meta(pattern@[j]),
            first_meta(pattern@) < pattern@.len() ==> is_glob_meta(pattern@[first_meta(pattern@) as int]),
        decreases v.len() - i,
    {
        assert(!is_glob_meta(pattern@[i as int]));
        i = i + 1;
    }
    proof {
        if i < v.len() {
            assert(is_glob_meta(pattern@[i as int]));
        }
        assert(i == first_meta(pattern@));
        assert(v@.subrange(0, i as int) == pattern@.take(i as int));
    }
    string_of_range(&v, 0, i)
}

/// The parent of `p`, or `.` where it has none.
fn parent_or_current(p: &str) -> (r: String)
    ensures
        r@ == parent_or_dot(p@),
{
    match path_parent(p) {
        Some(q) => q,
        None => owned("."),
    }
}

/// Where a walk for `pattern` starts: the parent of a plain path; for a glob
/// its static prefix when that is a directory now, otherwise the prefix's
/// parent. Which of the two a glob gets depends on the disk.
pub fn walk_root(pattern: &str) -> (r: String)
    ensures
        possible_root(pattern@, r@),
{
    if has_glob_meta(pattern) {
        let prefix = static_prefix(pattern);
        if path_is_dir(prefix.as_str()) {
            prefix
        } else {
            parent_or_current(prefix.as_str())
        }
    } else {
        parent_or_current(pattern)
    }
}

/// Whether `v` holds a string with the text of `s`.
pub fn holds_str(v: &Vec<String>, s: &str) -> (r: bool)
    ensures
        r == strings_view(v@).contains(s@),
{
    let mut i: usize = 0;
    while i < v.len()
        invariant
            i <= v.len(),
            forall|j: int| 0 <= j < i ==> v@[j]@ != s@,
        decreases v.len() - i,
    {
        if str_eq(v[i].as_str(), s) {
            assert(strings_view(v@)[i as int] == s@);
            return true;
        }
        i = i + 1;
    }
    proof {
        if strings_view(v@).contains(s@) {
            let j = choose|j: int| 0 <= j < strings_view(v@).len() && strings_view(v@)[j] == s@;
            assert(v@[j]@ == s@);
        }
    }
    false
}

/// The strings of `v` in order, each kept at its first occurrence only.
pub fn dedup_strings(v: &Vec<String>) -> (r: Vec<String>)
    ensures
        strings_view(r@) == dedup_seq(strings_view(v@)),
{
    let mut r: Vec<String> = Vec::new();
    let mut i: usize = 0;
    while i < v.len()
        invariant
            i <= v.len(),
            strings_view(r@) == dedup_seq(strings_view(v@).take(i as int)),
        decreases v.len() - i,
    {
        let ghost before = r@;
        proof {
            assert(strings_view(v@).take(i as int + 1).drop_last() == strings_view(v@).take(i as int));
            assert(strings_view(v@).take(i as int + 1).last() == v@[i as int]@);
        }
        if !holds_str(&r, v[i].as_str()) {
            r.push(v[i].clone());
            proof {
                assert(strings_view(r@) == strings_view(before).push(v@[i as int]@));
            }
        }
        i = i + 1;
    }
    proof {
        assert(strings_view(v@).take(v.len() as int) == strings_view(v@));
    }
    r
}

/// The distinct directories to walk for `inputs`, in the order of the
/// inputs: each input's root (see `walk_root`), repeats dropped.
pub fn walk_roots(inputs: &Vec<String>) -> (r: Vec<String>)
    ensures
        exists|raw: Seq<Seq<char>>|
            raw.len() == inputs.len() && (forall|i: int| 0 <= i < raw.len() ==> #[trigger] possible_root(inputs@[i]@, raw[i]))
                && strings_view(r@) == dedup_seq(raw),
{
    let mut raw: Vec<String> = Vec::new();
    let mut i: usize = 0;
    while i < inputs.len()
        invariant
            i <= inputs.len(),
            raw.len() == i,
            forall|j: int| 0 <= j < i ==> #[trigger] possible_root(inputs@[j]@, raw@[j]@),
        decreases inputs.len() - i,
    {
        let root = walk_root(inputs[i].as_str());
        raw.push(root);
        i = i + 1;
    }
    let r = dedup_strings(&raw);
    proof {
        let w = strings_view(raw@);
        assert forall|j: int| 0 <= j < w.len() implies #[trigger] possible_root(inputs@[j]@, w[j]) by {
            assert(w[j] == raw@[j]@);
        }
        assert(w.len() == inputs.len());
    }
    r
}

/// The errors of checking `patterns`: the first pattern that does not
/// compile, or, when all do, the set that does not build.
pub open spec fn check_globs_error(patterns: Seq<Seq<char>>, e: Seq<char>) -> bool {
    ||| exists|k: int|
        0 <= k < patterns.len() && all_globs_valid(patterns.take(k)) && #[trigger] glob_build_outcome(patterns[k])
            is Some && e == invalid_glob_message(patterns[k], glob_build_outcome(patterns[k])->0)
    ||| (all_globs_valid(patterns) && glob_set_build_outcome(patterns) is Some && e
        == "Failed to build glob set: "@ + glob_set_build_outcome(patterns)->0)
}

/// Checks that every pattern compiles and that their set builds: the first
/// pattern that does not compile gives "Invalid glob pattern '<pattern>':
/// <error>"; a set that does not build gives "Failed to build glob set:
/// <error>".
pub fn check_globs(patterns: &Vec<String>) -> (r: Result<(), String>)
    ensures
        r is Ok <==> globs_ready(strings_view(patterns@)),
        r matches Err(e) ==> check_globs_error(strings_view(patterns@), e@),
{
    let mut i: usize = 0;
    while i < patterns.len()
        invariant
            i <= patterns.len(),
            all_globs_valid(strings_view(patterns@).take(i as int)),
        decreases patterns.len() - i,
    {
        match glob_build_error(patterns[i].as_str()) {
            Some(err) => {
                let mut e = owned("Invalid glob pattern '");
                push_str(&mut e, patterns[i].as_str());
                push_str(&mut e, "': ");
                push_str(&mut e, err.as_str());
                proof {
                    assert(!all_globs_valid(strings_view(patterns@))) by {
                        assert(strings_view(patterns@)[i as int] == patterns@[i as int]@);
                    }
                }
                return Err(e);
            },
            None => {
                proof {
                    let w = strings_view(patterns@);
                    assert forall|k: int| 0 <= k < w.take(i as int + 1).len() implies #[trigger] glob_build_outcome(
                        w.take(i as int + 1)[k],
                    ) is None by {
                        if k < i {
                            assert(w.take(i as int + 1)[k] == w.take(i as int)[k]);
                        }
                    }
                }
            },
        }
        i = i + 1;
    }
    proof {
        assert(strings_view(patterns@).take(patterns.len() as int) == strings_view(patterns@));
    }
    match build_glob_set(patterns) {
        Ok(_) => Ok(()),
        Err(err) => {
            let mut e = owned("Failed to build glob set: ");
            push_str(&mut e, err.as_str());
            Err(e)
        },
    }
}

/// The walked files, in order, that the glob set of `patterns` matches.
pub fn select_matches(patterns: &Vec<String>, candidates: &Vec<String>) -> (r: Vec<String>)
    requires
        globs_ready(strings_view(patterns@)),
    ensures
        strings_view(r@) == matching_paths(strings_view(patterns@), strings_view(candidates@)),
{
    let set = match build_glob_set(patterns) {
        Ok(set) => set,
        Err(_) => {
            proof {
                assert(false);
            }
            return Vec::new();
        },
    };
    let mut r: Vec<String> = Vec::new();
    let mut i: usize = 0;
    while i < candidates.len()
        invariant
            i <= candidates.len(),
            glob_set_patterns(set) == strings_view(patterns@),
            strings_view(r@) == matching_paths(strings_view(patterns@), strings_view(candidates@).take(i as int)),
        decreases candidates.len() - i,
    {
        let ghost before = r@;
        proof {
            let c = strings_view(candidates@);
            assert(c.take(i as int + 1).drop_last() == c.take(i as int));
            assert(c.take(i as int + 1).last() == candidates@[i as int]@);
        }
        if glob_set_is_match(&set, candidates[i].as_str()) {
            r.push(candidates[i].clone());
            proof {
                assert(strings_view(r@) == strings_view(before).push(candidates@[i as int]@));
            }
        }
        i = i + 1;
    }
    proof {
        assert(strings_view(candidates@).take(candidates.len() as int) == strings_view(candidates@));
    }
    r
}

/// The walked files that the patterns match, once the patterns are checked
/// (see `check_globs`): the check's error, or the matches in walk order.
pub fn match_walked(patterns: &Vec<String>, walked: &Vec<String>) -> (r: Result<Vec<String>, String>)
    ensures
        globs_ready(strings_view(patterns@)) ==> (r matches Ok(v) && strings_view(v@) == matching_paths(
            strings_view(patterns@),
            strings_view(walked@),
        )),
        !globs_ready(strings_view(patterns@)) ==> (r matches Err(e) && check_globs_error(strings_view(patterns@), e@)),
{
    match check_globs(patterns) {
        Ok(()) => Ok(select_matches(patterns, walked)),
        Err(e) => Err(e),
    }
}

/// What the expansion yields from the matched files: the inputs themselves
/// when nothing matched (so that reading them reports the problem), and
/// otherwise the matches with repeats dropped.
pub fn finish_expansion(inputs: &Vec<String>, matched: &Vec<String>) -> (r: Vec<String>)
    ensures
        strings_view(r@) == if matched.len() == 0 {
            strings_view(inputs@)
        } else {
            dedup_seq(strings_view(matched@))
        },
{
    if matched.len() == 0 {
        let mut r: Vec<String> = Vec::new();
        let mut i: usize = 0;
        while i < inputs.len()
            invariant
                i <= inputs.len(),
                strings_view(r@) == strings_view(inputs@).take(i as int),
            decreases inputs.len() - i,
        {
            let ghost before = r@;
            r.push(inputs[i].clone());
            proof {
                let w = strings_view(inputs@);
                assert(w.take(i as int + 1) == w.take(i as int).push(inputs@[i as int]@));
                assert(strings_view(r@) == strings_view(before).push(inputs@[i as int]@));
            }
            i = i + 1;
        }
        proof {
            assert(strings_view(inputs@).take(inputs.len() as int) == strings_view(inputs@));
        }
        r
    } else {
        dedup_strings(matched)
    }
}

/// Repeats are dropped: the deduplicated paths are pairwise distinct, and a
/// path occurs in them exactly when it occurs in the input.
pub proof fn law_dedup_keeps_each_path_once(s: Seq<Seq<char>>)
    ensures
        forall|i: int, j: int| 0 <= i < j < dedup_seq(s).len() ==> dedup_seq(s)[i] != dedup_seq(s)[j],
        forall|p: Seq<char>| dedup_seq(s).contains(p) <==> s.contains(p),
    decreases s.len(),
{
    if s.len() > 0 {
        law_dedup_keeps_each_path_once(s.drop_last());
        let d = dedup_seq(s.drop_last());
        assert forall|p: Seq<char>| dedup_seq(s).contains(p) <==> s.contains(p) by {
            if s.contains(p) {
                let k = choose|k: int| 0 <= k < s.len() && s[k] == p;
                if k < s.len() - 1 {
                    assert(s.drop_last()[k] == p);
                    assert(s.drop_last().contains(p));
                    if !d.contains(s.last()) {
                        let m = choose|m: int| 0 <= m < d.len() && d[m] == p;
                        assert(d.push(s.last())[m] == p);
                    }
                } else if !d.contains(s.last()) {
                    assert(d.push(s.last())[d.len() as int] == p);
                }
            }
            if dedup_seq(s).contains(p) {
                let m = choose|m: int| 0 <= m < dedup_seq(s).len() && dedup_seq(s)[m] == p;
                if m < d.len() {
                    assert(d[m] == p);
                    assert(s.drop_last().contains(p));
                    let k = choose|k: int| 0 <= k < s.drop_last().len() && s.drop_last()[k] == p;
                    assert(s[k] == p);
                } else {
                    assert(s[s.len() - 1] == p);
                }
            }
        }
    }
}

} // verus!
