//! Text in the order of `String`'s `Ord` (code point by code point, a proper
//! prefix first), and association lists kept strictly sorted by such keys:
//! the ordered maps and sets that reports are built from.
use crate::text::str_eq;
use vstd::prelude::*;

verus! {

/// `a` comes strictly before `b`: at the first differing position `a` has the
/// smaller character, or `a` is a proper prefix of `b`.
pub open spec fn seq_lt(a: Seq<char>, b: Seq<char>) -> bool
    decreases a.len(),
{
    if b.len() == 0 {
        false
    } else if a.len() == 0 {
        true
    } else if a[0] != b[0] {
        (a[0] as int) < (b[0] as int)
    } else {
        seq_lt(a.drop_first(), b.drop_first())
    }
}

pub proof fn lemma_lt_irrefl(a: Seq<char>)
    ensures
        !seq_lt(a, a),
    decreases a.len(),
{
    if a.len() > 0 {
        lemma_lt_irrefl(a.drop_first());
    }
}

pub proof fn lemma_lt_trans(a: Seq<char>, b: Seq<char>, c: Seq<char>)
    requires
        seq_lt(a, b),
        seq_lt(b, c),
    ensures
        seq_lt(a, c),
    decreases a.len(),
{
    if a.len() > 0 && b.len() > 0 && c.len() > 0 {
        if a[0] == b[0] && b[0] == c[0] {
            lemma_lt_trans(a.drop_first(), b.drop_first(), c.drop_first());
        }
    }
}

pub proof fn lemma_lt_total(a: Seq<char>, b: Seq<char>)
    ensures
        a == b || seq_lt(a, b) || seq_lt(b, a),
    decreases a.len(),
{
    if a.len() == 0 && b.len() == 0 {
        assert(a =~= b);
    } else if a.len() == 0 || b.len() == 0 {
    } else if a[0] == b[0] {
        lemma_lt_total(a.drop_first(), b.drop_first());
        if a.drop_first() == b.drop_first() {
            assert(a =~= seq![a[0]] + a.drop_first());
            assert(b =~= seq![b[0]] + b.drop_first());
        }
    }
}

pub proof fn lemma_lt_asym(a: Seq<char>, b: Seq<char>)
    requires
        seq_lt(a, b),
    ensures
        !seq_lt(b, a),
        a != b,
{
    lemma_lt_irrefl(a);
    if seq_lt(b, a) {
        lemma_lt_trans(a, b, a);
    }
}

/// Whether `a` comes strictly before `b` in `String` order.
pub fn str_lt(a: &str, b: &str) -> (r: bool)
    ensures
        r == seq_lt(a@, b@),
{
    let x = crate::text::chars_of(a);
    let y = crate::text::chars_of(b);
    let mut i: usize = 0;
    proof {
        assert(x@.skip(0) =~= x@);
        assert(y@.skip(0) =~= y@);
    }
    while i < x.len() && i < y.len() && x[i] == y[i]
        invariant
            x@ == a@,
            y@ == b@,
            i <= x.len(),
            i <= y.len(),
            seq_lt(a@, b@) == seq_lt(x@.skip(i as int), y@.skip(i as int)),
        decreases x.len() - i,
    {
        proof {
            assert(x@.skip(i as int).drop_first() =~= x@.skip(i + 1));
            assert(y@.skip(i as int).drop_first() =~= y@.skip(i + 1));
        }
        i = i + 1;
    }
    if i == y.len() {
        false
    } else if i == x.len() {
        true
    } else {
        x[i] < y[i]
    }
}

/// The keys of an association list.
pub open spec fn keys_of<V>(v: Seq<(String, V)>) -> Seq<Seq<char>> {
    v.map_values(|p: (String, V)| p.0@)
}

/// Keys in strictly increasing order (hence without repetition).
pub open spec fn strictly_sorted(ks: Seq<Seq<char>>) -> bool {
    forall|i: int, j: int| 0 <= i < j < ks.len() ==> seq_lt(#[trigger] ks[i], #[trigger] ks[j])
}

/// The value stored under `k`, if any.
pub open spec fn alist_get<V>(v: Seq<(String, V)>, k: Seq<char>) -> Option<V> {
    if exists|i: int| 0 <= i < v.len() && (#[trigger] v[i]).0@ == k {
        Some(v[choose|i: int| 0 <= i < v.len() && (#[trigger] v[i]).0@ == k].1)
    } else {
        None
    }
}

/// In a strictly sorted list the entry at `i` is the one stored under its
/// key.
pub proof fn lemma_alist_get_at<V>(v: Seq<(String, V)>, i: int)
    requires
        strictly_sorted(keys_of(v)),
        0 <= i < v.len(),
    ensures
        alist_get(v, v[i].0@) == Some(v[i].1),
{
    let k = v[i].0@;
    assert(keys_of(v)[i] == k);
    assert(0 <= i < v.len() && (v[i]).0@ == k);
    assert forall|j: int| 0 <= j < v.len() && (#[trigger] v[j]).0@ == k implies j == i by {
        assert(keys_of(v)[j] == k);
        if j < i {
            assert(seq_lt(keys_of(v)[j], keys_of(v)[i]));
            lemma_lt_irrefl(k);
        } else if j > i {
            assert(seq_lt(keys_of(v)[i], keys_of(v)[j]));
            lemma_lt_irrefl(k);
        }
    }
}

/// A key found in a list is one of its keys.
pub proof fn lemma_alist_get_contains<V>(v: Seq<(String, V)>, k: Seq<char>)
    requires
        alist_get(v, k) is Some,
    ensures
        keys_of(v).contains(k),
{
    let i = choose|i: int| 0 <= i < v.len() && (#[trigger] v[i]).0@ == k;
    assert(keys_of(v)[i] == k);
}

/// Where `k` is, or would go, in a strictly sorted list: `(p, true)` when
/// the key at `p` is `k`; `(p, false)` when every key before `p` is smaller
/// and every key from `p` on is larger.
pub fn find_slot<V>(v: &Vec<(String, V)>, k: &str) -> (r: (usize, bool))
    requires
        strictly_sorted(keys_of(v@)),
    ensures
        r.0 <= v.len(),
        r.1 ==> r.0 < v.len() && v@[r.0 as int].0@ == k@,
        !r.1 ==> forall|i: int| 0 <= i < v.len() ==> (i < r.0 ==> seq_lt(v@[i].0@, k@)) && (i
            >= r.0 ==> seq_lt(k@, v@[i].0@)),
        forall|i: int| 0 <= i < r.0 ==> seq_lt(v@[i].0@, k@),
{
    let mut p: usize = 0;
    while p < v.len() && str_lt(v[p].0.as_str(), k)
        invariant
            p <= v.len(),
            strictly_sorted(keys_of(v@)),
            forall|i: int| 0 <= i < p ==> seq_lt(v@[i].0@, k@),
        decreases v.len() - p,
    {
        p = p + 1;
    }
    if p < v.len() && str_eq(v[p].0.as_str(), k) {
        return (p, true);
    }
    proof {
        if p < v.len() {
            lemma_lt_total(v@[p as int].0@, k@);
            assert(seq_lt(k@, v@[p as int].0@));
            assert forall|i: int| p <= i < v.len() implies seq_lt(k@, v@[i].0@) by {
                if i > p {
                    assert(seq_lt(keys_of(v@)[p as int], keys_of(v@)[i]));
                    lemma_lt_trans(k@, v@[p as int].0@, v@[i].0@);
                }
            }
        }
    }
    (p, false)
}

/// The value stored under `k` in a strictly sorted list, if any.
pub fn alist_lookup<V>(v: &Vec<(String, V)>, k: &str) -> (r: Option<usize>)
    requires
        strictly_sorted(keys_of(v@)),
    ensures
        match r {
            Some(i) => i < v.len() && v@[i as int].0@ == k@ && alist_get(v@, k@) == Some(
                v@[i as int].1,
            ),
            None => alist_get(v@, k@) is None,
        },
{
    let (p, found) = find_slot(v, k);
    if found {
        proof {
            lemma_alist_get_at(v@, p as int);
        }
        Some(p)
    } else {
        proof {
            assert forall|i: int| 0 <= i < v.len() implies (#[trigger] v@[i]).0@ != k@ by {
                if i < p {
                    lemma_lt_asym(v@[i].0@, k@);
                } else {
                    lemma_lt_asym(k@, v@[i].0@);
                }
            }
        }
        None
    }
}

/// Replacing the value at `p` of a strictly sorted list keeps its keys, and
/// changes only what is stored under the key at `p`.
pub proof fn lemma_alist_set<V>(v: Seq<(String, V)>, p: int, e: (String, V))
    requires
        strictly_sorted(keys_of(v)),
        0 <= p < v.len(),
        e.0@ == v[p].0@,
    ensures
        keys_of(v.update(p, e)) == keys_of(v),
        strictly_sorted(keys_of(v.update(p, e))),
        alist_get(v.update(p, e), e.0@) == Some(e.1),
        forall|q: Seq<char>| q != e.0@ ==> alist_get(v.update(p, e), q) == alist_get(v, q),
{
    let w = v.update(p, e);
    assert(keys_of(w) =~= keys_of(v));
    lemma_alist_get_at(w, p);
    assert forall|q: Seq<char>| q != e.0@ implies alist_get(w, q) == alist_get(v, q) by {
        if exists|i: int| 0 <= i < w.len() && (#[trigger] w[i]).0@ == q {
            let i = choose|i: int| 0 <= i < w.len() && (#[trigger] w[i]).0@ == q;
            lemma_alist_get_at(w, i);
            lemma_alist_get_at(v, i);
        } else {
            assert forall|i: int| 0 <= i < v.len() implies (#[trigger] v[i]).0@ != q by {
                assert(w[i].0@ == v[i].0@);
            }
        }
    }
}

/// Inserting a key not present at its slot keeps the list strictly sorted.
pub proof fn lemma_insert_sorted<V>(v: Seq<(String, V)>, p: int, e: (String, V))
    requires
        strictly_sorted(keys_of(v)),
        0 <= p <= v.len(),
        forall|i: int| 0 <= i < v.len() ==> (i < p ==> seq_lt(v[i].0@, e.0@)) && (i >= p ==> seq_lt(
            e.0@,
            v[i].0@,
        )),
    ensures
        strictly_sorted(keys_of(v.insert(p, e))),
        keys_of(v.insert(p, e)) == keys_of(v).insert(p, e.0@),
{
    let w = v.insert(p, e);
    assert(keys_of(w) =~= keys_of(v).insert(p, e.0@));
    assert forall|i: int, j: int| 0 <= i < j < w.len() implies seq_lt(
        #[trigger] keys_of(w)[i],
        #[trigger] keys_of(w)[j],
    ) by {
        if i < p && j < p {
            assert(seq_lt(keys_of(v)[i], keys_of(v)[j]));
        } else if i < p && j == p {
        } else if i < p && j > p {
            assert(seq_lt(keys_of(v)[i], keys_of(v)[j - 1]));
        } else if i == p {
        } else {
            assert(seq_lt(keys_of(v)[i - 1], keys_of(v)[j - 1]));
        }
    }
}

/// Stores `x` under `k` in a strictly sorted list: replaces the value when
/// `k` is present, inserts it in order otherwise.
pub fn alist_put<V>(v: &mut Vec<(String, V)>, k: String, x: V)
    requires
        strictly_sorted(keys_of(old(v)@)),
    ensures
        strictly_sorted(keys_of(final(v)@)),
        alist_get(final(v)@, k@) == Some(x),
        forall|q: Seq<char>| q != k@ ==> alist_get(final(v)@, q) == alist_get(old(v)@, q),
        keys_of(final(v)@).to_set() == keys_of(old(v)@).to_set().insert(k@),
        final(v).len() <= old(v).len() + 1,
{
    let (p, found) = find_slot(v, k.as_str());
    let ghost before = v@;
    if found {
        let old_key = v[p].0.clone();
        v.set(p, (old_key, x));
        proof {
            assert(keys_of(v@) =~= keys_of(before));
            lemma_alist_get_at(v@, p as int);
            assert forall|q: Seq<char>| q != k@ implies alist_get(v@, q) == alist_get(before, q) by {
                if exists|i: int| 0 <= i < v@.len() && (#[trigger] v@[i]).0@ == q {
                    let i = choose|i: int| 0 <= i < v@.len() && (#[trigger] v@[i]).0@ == q;
                    lemma_alist_get_at(v@, i);
                    lemma_alist_get_at(before, i);
                } else {
                    assert forall|i: int| 0 <= i < before.len() implies (#[trigger] before[i]).0@ != q by {
                        assert(v@[i].0@ == before[i].0@ || i == p);
                    }
                }
            }
            assert(keys_of(v@).to_set() =~= keys_of(before).to_set().insert(k@)) by {
                assert(keys_of(before)[p as int] == k@);
            }
        }
    } else {
        let ghost kv = k@;
        v.insert(p, (k, x));
        proof {
            lemma_insert_sorted(before, p as int, (v@[p as int].0, x));
            assert(v@ == before.insert(p as int, v@[p as int]));
            lemma_alist_get_at(v@, p as int);
            assert forall|q: Seq<char>| q != kv implies alist_get(v@, q) == alist_get(before, q) by {
                if exists|i: int| 0 <= i < v@.len() && (#[trigger] v@[i]).0@ == q {
                    let i = choose|i: int| 0 <= i < v@.len() && (#[trigger] v@[i]).0@ == q;
                    lemma_alist_get_at(v@, i);
                    let j = if i < p { i } else { i - 1 };
                    assert(before[j] == v@[i]);
                    lemma_alist_get_at(before, j);
                } else {
                    assert forall|i: int| 0 <= i < before.len() implies (#[trigger] before[i]).0@ != q by {
                        if i < p {
                            assert(v@[i] == before[i]);
                        } else {
                            assert(v@[i + 1] == before[i]);
                        }
                    }
                }
            }
            assert(keys_of(v@).to_set() =~= keys_of(before).to_set().insert(kv)) by {
                assert forall|q: Seq<char>| keys_of(before).to_set().insert(kv).contains(q) implies keys_of(v@).to_set().contains(q) by {
                    if q == kv {
                        assert(keys_of(v@)[p as int] == kv);
                    } else {
                        let i = choose|i: int| 0 <= i < keys_of(before).len() && keys_of(before)[i] == q;
                        if i < p {
                            assert(keys_of(v@)[i] == q);
                        } else {
                            assert(keys_of(v@)[i + 1] == q);
                        }
                    }
                }
                assert forall|q: Seq<char>| keys_of(v@).to_set().contains(q) implies keys_of(before).to_set().insert(kv).contains(q) by {
                    let i = choose|i: int| 0 <= i < keys_of(v@).len() && keys_of(v@)[i] == q;
                    if i < p {
                        assert(keys_of(before)[i] == q);
                    } else if i > p {
                        assert(keys_of(before)[i - 1] == q);
                    }
                }
            }
        }
    }
}

/// Adds `n` to the count stored under `k`, storing `n` when `k` is new.
pub fn tally_add(v: &mut Vec<(String, usize)>, k: String, n: usize)
    requires
        strictly_sorted(keys_of(old(v)@)),
        alist_get(old(v)@, k@) matches Some(c) ==> c + n <= usize::MAX,
    ensures
        strictly_sorted(keys_of(final(v)@)),
        alist_get(final(v)@, k@) == Some(
            match alist_get(old(v)@, k@) {
                Some(c) => (c + n) as usize,
                None => n,
            },
        ),
        forall|q: Seq<char>| q != k@ ==> alist_get(final(v)@, q) == alist_get(old(v)@, q),
        keys_of(final(v)@).to_set() == keys_of(old(v)@).to_set().insert(k@),
{
    match alist_lookup(v, k.as_str()) {
        Some(i) => {
            let c = v[i].1;
            alist_put(v, k, c + n);
        },
        None => {
            alist_put(v, k, n);
        },
    }
}

} // verus!
