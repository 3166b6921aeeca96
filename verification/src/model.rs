//! The localization data model the commands work on: a resource is the set of
//! entries of one language; an entry has a key, a translation, a review
//! status and an optional comment. Each type has a view over `Seq<char>`, and
//! copying and comparison are stated against those views.
use crate::text::{owned, str_eq};
use vstd::prelude::*;

verus! {

/// The review state of an entry.
#[derive(Debug, Clone, Copy, PartialEq, Eq, Structural)]
pub enum EntryStatus {
    DoNotTranslate,
    New,
    Stale,
    NeedsReview,
    Translated,
}

/// A CLDR plural category.
#[derive(Debug, Clone, Copy, PartialEq, Eq, Structural)]
pub enum PluralCategory {
    Zero,
    One,
    Two,
    Few,
    Many,
    Other,
}

/// A plural translation: its identifier and one text per category, in
/// category order.
#[derive(Debug, Clone)]
pub struct Plural {
    pub id: String,
    pub forms: Vec<(PluralCategory, String)>,
}

/// The value of an entry.
#[derive(Debug, Clone)]
pub enum Translation {
    Empty,
    Singular(String),
    Plural(Plural),
}

/// One localized key.
#[derive(Debug, Clone)]
pub struct Entry {
    pub id: String,
    pub value: Translation,
    pub comment: Option<String>,
    pub status: EntryStatus,
    pub custom: Vec<(String, String)>,
}

/// What a resource says about itself: language, domain and free-form fields.
#[derive(Debug, Clone)]
pub struct Metadata {
    pub language: String,
    pub domain: String,
    pub custom: Vec<(String, String)>,
}

/// All entries of one language.
#[derive(Debug, Clone)]
pub struct Resource {
    pub metadata: Metadata,
    pub entries: Vec<Entry>,
}

pub enum TranslationView {
    Empty,
    Singular(Seq<char>),
    Plural(Seq<char>, Seq<(PluralCategory, Seq<char>)>),
}

pub struct EntryView {
    pub id: Seq<char>,
    pub value: TranslationView,
    pub comment: Option<Seq<char>>,
    pub status: EntryStatus,
    pub custom: Seq<(Seq<char>, Seq<char>)>,
}

pub struct MetadataView {
    pub language: Seq<char>,
    pub domain: Seq<char>,
    pub custom: Seq<(Seq<char>, Seq<char>)>,
}

pub struct ResourceView {
    pub metadata: MetadataView,
    pub entries: Seq<EntryView>,
}

pub open spec fn opt_view(o: Option<String>) -> Option<Seq<char>> {
    match o {
        Some(s) => Some(s@),
        None => None,
    }
}

pub open spec fn pairs_view(v: Seq<(String, String)>) -> Seq<(Seq<char>, Seq<char>)> {
    v.map_values(|p: (String, String)| (p.0@, p.1@))
}

pub open spec fn forms_view(v: Seq<(PluralCategory, String)>) -> Seq<(PluralCategory, Seq<char>)> {
    v.map_values(|p: (PluralCategory, String)| (p.0, p.1@))
}

impl View for Translation {
    type V = TranslationView;

    open spec fn view(&self) -> TranslationView {
        match self {
            Translation::Empty => TranslationView::Empty,
            Translation::Singular(s) => TranslationView::Singular(s@),
            Translation::Plural(p) => TranslationView::Plural(p.id@, forms_view(p.forms@)),
        }
    }
}

impl View for Entry {
    type V = EntryView;

    open spec fn view(&self) -> EntryView {
        EntryView {
            id: self.id@,
            value: self.value@,
            comment: opt_view(self.comment),
            status: self.status,
            custom: pairs_view(self.custom@),
        }
    }
}

impl View for Metadata {
    type V = MetadataView;

    open spec fn view(&self) -> MetadataView {
        MetadataView {
            language: self.language@,
            domain: self.domain@,
            custom: pairs_view(self.custom@),
        }
    }
}

pub open spec fn entries_view(v: Seq<Entry>) -> Seq<EntryView> {
    v.map_values(|e: Entry| e@)
}

impl View for Resource {
    type V = ResourceView;

    open spec fn view(&self) -> ResourceView {
        ResourceView { metadata: self.metadata@, entries: entries_view(self.entries@) }
    }
}

pub open spec fn resources_view(v: Seq<Resource>) -> Seq<ResourceView> {
    v.map_values(|r: Resource| r@)
}

/// The spelling of each status in files and on the command line.
pub open spec fn status_name(s: EntryStatus) -> Seq<char> {
    match s {
        EntryStatus::DoNotTranslate => "do_not_translate"@,
        EntryStatus::New => "new"@,
        EntryStatus::Stale => "stale"@,
        EntryStatus::NeedsReview => "needs_review"@,
        EntryStatus::Translated => "translated"@,
    }
}

/// The status spelled `s`, if any.
pub open spec fn status_named(s: Seq<char>) -> Option<EntryStatus> {
    if s == "do_not_translate"@ {
        Some(EntryStatus::DoNotTranslate)
    } else if s == "new"@ {
        Some(EntryStatus::New)
    } else if s == "stale"@ {
        Some(EntryStatus::Stale)
    } else if s == "needs_review"@ {
        Some(EntryStatus::NeedsReview)
    } else if s == "translated"@ {
        Some(EntryStatus::Translated)
    } else {
        None
    }
}

/// The lower-case spelling of each plural category.
pub open spec fn category_name(c: PluralCategory) -> Seq<char> {
    match c {
        PluralCategory::Zero => "zero"@,
        PluralCategory::One => "one"@,
        PluralCategory::Two => "two"@,
        PluralCategory::Few => "few"@,
        PluralCategory::Many => "many"@,
        PluralCategory::Other => "other"@,
    }
}

/// The debug spelling of each plural category (`{:?}`).
pub open spec fn category_debug_name(c: PluralCategory) -> Seq<char> {
    match c {
        PluralCategory::Zero => "Zero"@,
        PluralCategory::One => "One"@,
        PluralCategory::Two => "Two"@,
        PluralCategory::Few => "Few"@,
        PluralCategory::Many => "Many"@,
        PluralCategory::Other => "Other"@,
    }
}

impl EntryStatus {
    /// The spelling of the status.
    pub fn label(&self) -> (r: &'static str)
        ensures
            r@ == status_name(*self),
    {
        match self {
            EntryStatus::DoNotTranslate => "do_not_translate",
            EntryStatus::New => "new",
            EntryStatus::Stale => "stale",
            EntryStatus::NeedsReview => "needs_review",
            EntryStatus::Translated => "translated",
        }
    }

    /// Reads a status from its spelling; any other text is refused with
    /// "Unknown entry status: ...".
    pub fn parse(s: &str) -> (r: Result<EntryStatus, String>)
        ensures
            match status_named(s@) {
                Some(st) => r == Ok::<EntryStatus, String>(st),
                None => r matches Err(e) && e@ == "Unknown entry status: "@ + s@,
            },
    {
        if str_eq(s, "do_not_translate") {
            Ok(EntryStatus::DoNotTranslate)
        } else if str_eq(s, "new") {
            Ok(EntryStatus::New)
        } else if str_eq(s, "stale") {
            Ok(EntryStatus::Stale)
        } else if str_eq(s, "needs_review") {
            Ok(EntryStatus::NeedsReview)
        } else if str_eq(s, "translated") {
            Ok(EntryStatus::Translated)
        } else {
            let mut e = owned("Unknown entry status: ");
            e.append(s);
            Err(e)
        }
    }
}

impl PluralCategory {
    /// The lower-case spelling of the category.
    pub fn label(&self) -> (r: &'static str)
        ensures
            r@ == category_name(*self),
    {
        match self {
            PluralCategory::Zero => "zero",
            PluralCategory::One => "one",
            PluralCategory::Two => "two",
            PluralCategory::Few => "few",
            PluralCategory::Many => "many",
            PluralCategory::Other => "other",
        }
    }

    /// The debug spelling of the category.
    pub fn debug_name(&self) -> (r: &'static str)
        ensures
            r@ == category_debug_name(*self),
    {
        match self {
            PluralCategory::Zero => "Zero",
            PluralCategory::One => "One",
            PluralCategory::Two => "Two",
            PluralCategory::Few => "Few",
            PluralCategory::Many => "Many",
            PluralCategory::Other => "Other",
        }
    }
}

/// A copy of an optional string.
pub fn dup_opt(o: &Option<String>) -> (r: Option<String>)
    ensures
        opt_view(r) == opt_view(*o),
{
    match o {
        Some(s) => Some(s.clone()),
        None => None,
    }
}

/// Whether two optional strings hold the same text.
pub fn opt_eq(a: &Option<String>, b: &Option<String>) -> (r: bool)
    ensures
        r == (opt_view(*a) == opt_view(*b)),
{
    match (a, b) {
        (Some(x), Some(y)) => str_eq(x.as_str(), y.as_str()),
        (None, None) => true,
        _ => false,
    }
}

/// A copy of a list of string pairs.
pub fn dup_pairs(v: &Vec<(String, String)>) -> (r: Vec<(String, String)>)
    ensures
        pairs_view(r@) == pairs_view(v@),
{
    let mut r: Vec<(String, String)> = Vec::new();
    let mut i: usize = 0;
    while i < v.len()
        invariant
            i <= v.len(),
            r@.len() == i,
            forall|k: int| 0 <= k < i ==> (r@[k].0@, r@[k].1@) == (v@[k].0@, v@[k].1@),
        decreases v.len() - i,
    {
        let p = (v[i].0.clone(), v[i].1.clone());
        r.push(p);
        i = i + 1;
    }
    proof {
        assert(pairs_view(r@) =~= pairs_view(v@));
    }
    r
}

/// Whether two lists of string pairs hold the same text.
pub fn pairs_eq(a: &Vec<(String, String)>, b: &Vec<(String, String)>) -> (r: bool)
    ensures
        r == (pairs_view(a@) == pairs_view(b@)),
{
    if a.len() != b.len() {
        proof {
            assert(pairs_view(a@).len() != pairs_view(b@).len());
        }
        return false;
    }
    let mut i: usize = 0;
    while i < a.len()
        invariant
            a.len() == b.len(),
            i <= a.len(),
            forall|k: int| 0 <= k < i ==> pairs_view(a@)[k] == pairs_view(b@)[k],
        decreases a.len() - i,
    {
        if !str_eq(a[i].0.as_str(), b[i].0.as_str()) || !str_eq(a[i].1.as_str(), b[i].1.as_str()) {
            proof {
                assert(pairs_view(a@)[i as int] != pairs_view(b@)[i as int]);
            }
            return false;
        }
        i = i + 1;
    }
    proof {
        assert(pairs_view(a@) =~= pairs_view(b@));
    }
    true
}

/// A copy of a list of plural forms.
pub fn dup_forms(v: &Vec<(PluralCategory, String)>) -> (r: Vec<(PluralCategory, String)>)
    ensures
        forms_view(r@) == forms_view(v@),
{
    let mut r: Vec<(PluralCategory, String)> = Vec::new();
    let mut i: usize = 0;
    while i < v.len()
        invariant
            i <= v.len(),
            r@.len() == i,
            forall|k: int| 0 <= k < i ==> (r@[k].0, r@[k].1@) == (v@[k].0, v@[k].1@),
        decreases v.len() - i,
    {
        let p = (v[i].0, v[i].1.clone());
        r.push(p);
        i = i + 1;
    }
    proof {
        assert(forms_view(r@) =~= forms_view(v@));
    }
    r
}

/// Whether two lists of plural forms are the same.
pub fn forms_eq(a: &Vec<(PluralCategory, String)>, b: &Vec<(PluralCategory, String)>) -> (r:
    bool)
    ensures
        r == (forms_view(a@) == forms_view(b@)),
{
    if a.len() != b.len() {
        proof {
            assert(forms_view(a@).len() != forms_view(b@).len());
        }
        return false;
    }
    let mut i: usize = 0;
    while i < a.len()
        invariant
            a.len() == b.len(),
            i <= a.len(),
            forall|k: int| 0 <= k < i ==> forms_view(a@)[k] == forms_view(b@)[k],
        decreases a.len() - i,
    {
        if a[i].0 != b[i].0 || !str_eq(a[i].1.as_str(), b[i].1.as_str()) {
            proof {
                assert(forms_view(a@)[i as int] != forms_view(b@)[i as int]);
            }
            return false;
        }
        i = i + 1;
    }
    proof {
        assert(forms_view(a@) =~= forms_view(b@));
    }
    true
}

impl Translation {
    /// A copy of the translation.
    pub fn duplicate(&self) -> (r: Translation)
        ensures
            r@ == self@,
    {
        match self {
            Translation::Empty => Translation::Empty,
            Translation::Singular(s) => Translation::Singular(s.clone()),
            Translation::Plural(p) => Translation::Plural(
                Plural { id: p.id.clone(), forms: dup_forms(&p.forms) },
            ),
        }
    }

    /// Whether two translations are the same value.
    pub fn same_as(&self, other: &Translation) -> (r: bool)
        ensures
            r == (self@ == other@),
    {
        match (self, other) {
            (Translation::Empty, Translation::Empty) => true,
            (Translation::Singular(a), Translation::Singular(b)) => str_eq(a.as_str(), b.as_str()),
            (Translation::Plural(a), Translation::Plural(b)) => str_eq(a.id.as_str(), b.id.as_str())
                && forms_eq(&a.forms, &b.forms),
            _ => false,
        }
    }

    /// Whether two translations are of the same kind (empty, singular or
    /// plural), whatever their text.
    pub fn same_kind(&self, other: &Translation) -> (r: bool)
        ensures
            r == same_kind_spec(self@, other@),
    {
        match (self, other) {
            (Translation::Empty, Translation::Empty) => true,
            (Translation::Singular(_), Translation::Singular(_)) => true,
            (Translation::Plural(_), Translation::Plural(_)) => true,
            _ => false,
        }
    }
}

pub open spec fn same_kind_spec(a: TranslationView, b: TranslationView) -> bool {
    ||| (a is Empty && b is Empty)
    ||| (a is Singular && b is Singular)
    ||| (a is Plural && b is Plural)
}

impl Entry {
    /// A copy of the entry.
    pub fn duplicate(&self) -> (r: Entry)
        ensures
            r@ == self@,
    {
        Entry {
            id: self.id.clone(),
            value: self.value.duplicate(),
            comment: dup_opt(&self.comment),
            status: self.status,
            custom: dup_pairs(&self.custom),
        }
    }
}

impl Metadata {
    /// A copy of the metadata.
    pub fn duplicate(&self) -> (r: Metadata)
        ensures
            r@ == self@,
    {
        Metadata {
            language: self.language.clone(),
            domain: self.domain.clone(),
            custom: dup_pairs(&self.custom),
        }
    }
}

/// A copy of a list of entries.
pub fn dup_entries(v: &Vec<Entry>) -> (r: Vec<Entry>)
    ensures
        entries_view(r@) == entries_view(v@),
{
    let mut r: Vec<Entry> = Vec::new();
    let mut i: usize = 0;
    while i < v.len()
        invariant
            i <= v.len(),
            r@.len() == i,
            forall|k: int| 0 <= k < i ==> r@[k]@ == v@[k]@,
        decreases v.len() - i,
    {
        r.push(v[i].duplicate());
        i = i + 1;
    }
    proof {
        assert(entries_view(r@) =~= entries_view(v@));
    }
    r
}

impl Resource {
    /// A copy of the resource.
    pub fn duplicate(&self) -> (r: Resource)
        ensures
            r@ == self@,
    {
        Resource { metadata: self.metadata.duplicate(), entries: dup_entries(&self.entries) }
    }
}

/// A copy of a list of resources.
pub fn dup_resources(v: &Vec<Resource>) -> (r: Vec<Resource>)
    ensures
        resources_view(r@) == resources_view(v@),
{
    let mut r: Vec<Resource> = Vec::new();
    let mut i: usize = 0;
    while i < v.len()
        invariant
            i <= v.len(),
            r@.len() == i,
            forall|k: int| 0 <= k < i ==> r@[k]@ == v@[k]@,
        decreases v.len() - i,
    {
        r.push(v[i].duplicate());
        i = i + 1;
    }
    proof {
        assert(resources_view(r@) =~= resources_view(v@));
    }
    r
}

/// The value of the first pair whose key is `key`.
pub open spec fn assoc_get(v: Seq<(Seq<char>, Seq<char>)>, key: Seq<char>) -> Option<Seq<char>>
    decreases v.len(),
{
    if v.len() == 0 {
        None
    } else if v[0].0 == key {
        Some(v[0].1)
    } else {
        assoc_get(v.drop_first(), key)
    }
}

proof fn lemma_assoc_get_prefix(v: Seq<(Seq<char>, Seq<char>)>, key: Seq<char>, i: int)
    requires
        0 <= i < v.len(),
        forall|k: int| 0 <= k < i ==> v[k].0 != key,
    ensures
        assoc_get(v, key) == assoc_get(v.subrange(i, v.len() as int), key),
    decreases i,
{
    if i > 0 {
        assert(v[0].0 != key);
        assert(assoc_get(v, key) == assoc_get(v.drop_first(), key));
        assert(v.drop_first().subrange(i - 1, v.drop_first().len() as int) =~= v.subrange(
            i,
            v.len() as int,
        ));
        lemma_assoc_get_prefix(v.drop_first(), key, i - 1);
    } else {
        assert(v.subrange(0, v.len() as int) =~= v);
    }
}

proof fn lemma_assoc_get_none(v: Seq<(Seq<char>, Seq<char>)>, key: Seq<char>)
    requires
        forall|k: int| 0 <= k < v.len() ==> v[k].0 != key,
    ensures
        assoc_get(v, key) is None,
    decreases v.len(),
{
    if v.len() > 0 {
        lemma_assoc_get_none(v.drop_first(), key);
    }
}

/// Replacing the value of the first pair with key `k` changes only what is
/// found under `k`.
pub proof fn lemma_assoc_update(v: Seq<(Seq<char>, Seq<char>)>, i: int, k: Seq<char>, x: Seq<char>)
    requires
        0 <= i < v.len(),
        v[i].0 == k,
        forall|m: int| 0 <= m < i ==> #[trigger] v[m].0 != k,
    ensures
        assoc_get(v.update(i, (k, x)), k) == Some(x),
        forall|q: Seq<char>| q != k ==> assoc_get(v.update(i, (k, x)), q) == assoc_get(v, q),
    decreases v.len(),
{
    let w = v.update(i, (k, x));
    if i > 0 {
        assert forall|m: int| 0 <= m < i - 1 implies #[trigger] v.drop_first()[m].0 != k by {
            assert(v.drop_first()[m] == v[m + 1]);
        }
        lemma_assoc_update(v.drop_first(), i - 1, k, x);
        assert(w.drop_first() =~= v.drop_first().update(i - 1, (k, x)));
    } else {
        assert(w.drop_first() =~= v.drop_first());
    }
    assert forall|q: Seq<char>| q != k implies assoc_get(w, q) == assoc_get(v, q) by {
        if i > 0 {
            assert(w[0] == v[0]);
            if v[0].0 != q {
                assert(assoc_get(w.drop_first(), q) == assoc_get(v.drop_first(), q));
            }
        } else {
            assert(w[0].0 == k);
            assert(assoc_get(w, q) == assoc_get(w.drop_first(), q));
            assert(assoc_get(v, q) == assoc_get(v.drop_first(), q));
        }
    }
}

/// Appending a pair for a key not yet present changes only what is found
/// under that key.
pub proof fn lemma_assoc_push(v: Seq<(Seq<char>, Seq<char>)>, k: Seq<char>, x: Seq<char>)
    requires
        assoc_get(v, k) is None,
    ensures
        assoc_get(v.push((k, x)), k) == Some(x),
        forall|q: Seq<char>| q != k ==> assoc_get(v.push((k, x)), q) == assoc_get(v, q),
    decreases v.len(),
{
    let w = v.push((k, x));
    if v.len() > 0 {
        lemma_assoc_push(v.drop_first(), k, x);
        assert(w.drop_first() =~= v.drop_first().push((k, x)));
        assert(w[0] == v[0]);
    } else {
        assert(w.drop_first() =~= Seq::<(Seq<char>, Seq<char>)>::empty());
    }
    assert forall|q: Seq<char>| q != k implies assoc_get(w, q) == assoc_get(v, q) by {
        if v.len() > 0 {
            assert(w[0] == v[0]);
            if v[0].0 != q {
                assert(assoc_get(w.drop_first(), q) == assoc_get(v.drop_first(), q));
            }
        } else {
            assert(w.drop_first() =~= Seq::<(Seq<char>, Seq<char>)>::empty());
            assert(assoc_get(w, q) == assoc_get(w.drop_first(), q));
        }
    }
}

/// No key occurs twice: the invariant of an association list that stands
/// for a map.
pub open spec fn keys_distinct(v: Seq<(Seq<char>, Seq<char>)>) -> bool {
    forall|i: int, j: int| 0 <= i < j < v.len() ==> #[trigger] v[i].0 != #[trigger] v[j].0
}

/// The free-form maps of a resource hold each key once: its metadata's and
/// each entry's.
pub open spec fn resource_maps_wf(r: ResourceView) -> bool {
    &&& keys_distinct(r.metadata.custom)
    &&& forall|i: int| 0 <= i < r.entries.len() ==> keys_distinct(#[trigger] r.entries[i].custom)
}

/// Every resource of a catalog holds each key of its maps once.
pub open spec fn catalog_maps_wf(rs: Seq<ResourceView>) -> bool {
    forall|i: int| 0 <= i < rs.len() ==> resource_maps_wf(#[trigger] rs[i])
}

/// A key that nothing is found under occurs in no pair.
pub proof fn lemma_assoc_get_absent(v: Seq<(Seq<char>, Seq<char>)>, key: Seq<char>)
    requires
        assoc_get(v, key) is None,
    ensures
        forall|k: int| 0 <= k < v.len() ==> #[trigger] v[k].0 != key,
    decreases v.len(),
{
    if v.len() > 0 {
        lemma_assoc_get_absent(v.drop_first(), key);
        assert forall|k: int| 0 <= k < v.len() implies #[trigger] v[k].0 != key by {
            if k > 0 {
                assert(v[k] == v.drop_first()[k - 1]);
            }
        }
    }
}

/// Adding a pair for a key that is absent keeps the keys distinct.
pub proof fn lemma_push_absent_distinct(v: Seq<(Seq<char>, Seq<char>)>, k: Seq<char>, x: Seq<char>)
    requires
        keys_distinct(v),
        assoc_get(v, k) is None,
    ensures
        keys_distinct(v.push((k, x))),
{
    lemma_assoc_get_absent(v, k);
    let w = v.push((k, x));
    assert forall|i: int, j: int| 0 <= i < j < w.len() implies #[trigger] w[i].0 != #[trigger] w[j].0 by {
        if j == v.len() {
            assert(v[i].0 != k);
        } else {
            assert(w[i] == v[i] && w[j] == v[j]);
        }
    }
}

/// Stores `x` under `k`, replacing the value found there or adding a pair
/// (`HashMap::insert`).
pub fn assoc_set(v: &mut Vec<(String, String)>, k: &str, x: &str)
    ensures
        assoc_get(pairs_view(final(v)@), k@) == Some(x@),
        forall|q: Seq<char>| q != k@ ==> assoc_get(pairs_view(final(v)@), q) == assoc_get(pairs_view(old(v)@), q),
        keys_distinct(pairs_view(old(v)@)) ==> keys_distinct(pairs_view(final(v)@)),
{
    let ghost r0 = pairs_view(v@);
    match assoc_find(v, k) {
        Some(i) => {
            v.set(i, (owned(k), owned(x)));
            proof {
                lemma_assoc_update(r0, i as int, k@, x@);
                assert(pairs_view(v@) =~= r0.update(i as int, (k@, x@)));
                let w = pairs_view(v@);
                if keys_distinct(r0) {
                    assert forall|a: int, b: int| 0 <= a < b < w.len() implies #[trigger] w[a].0 != #[trigger] w[b].0 by {
                        assert(w[a].0 == r0[a].0 && w[b].0 == r0[b].0);
                    }
                }
            }
        },
        None => {
            v.push((owned(k), owned(x)));
            proof {
                lemma_assoc_push(r0, k@, x@);
                assert(pairs_view(v@) =~= r0.push((k@, x@)));
                if keys_distinct(r0) {
                    lemma_push_absent_distinct(r0, k@, x@);
                }
            }
        },
    }
}

/// The index of the first pair whose key is `key`, if any.
pub fn assoc_find(v: &Vec<(String, String)>, key: &str) -> (r: Option<usize>)
    ensures
        match r {
            Some(i) => i < v.len() && v@[i as int].0@ == key@ && assoc_get(pairs_view(v@), key@)
                == Some(v@[i as int].1@) && forall|k: int| 0 <= k < i ==> #[trigger] v@[k].0@ != key@,
            None => assoc_get(pairs_view(v@), key@) is None,
        },
{
    let mut i: usize = 0;
    while i < v.len()
        invariant
            i <= v.len(),
            forall|k: int| 0 <= k < i ==> v@[k].0@ != key@,
        decreases v.len() - i,
    {
        if str_eq(v[i].0.as_str(), key) {
            proof {
                lemma_assoc_get_prefix(pairs_view(v@), key@, i as int);
            }
            return Some(i);
        }
        i = i + 1;
    }
    proof {
        lemma_assoc_get_none(pairs_view(v@), key@);
    }
    None
}

/// The value stored under `key`, if any.
pub fn assoc_lookup(v: &Vec<(String, String)>, key: &str) -> (r: Option<String>)
    ensures
        opt_view(r) == assoc_get(pairs_view(v@), key@),
{
    match assoc_find(v, key) {
        Some(i) => Some(v[i].1.clone()),
        None => None,
    }
}

} // verus!
