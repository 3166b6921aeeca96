//! The custom formats: a language map (one key, one value per language),
//! in JSON or YAML, and a JSON array of such maps, read with `serde_json`
//! or `serde_yaml` and turned into resources.
use crate::model::{
    catalog_maps_wf, keys_distinct, resource_maps_wf, assoc_get, dup_entries, entries_view, pairs_view, resources_view, Entry, EntryStatus, EntryView, Metadata,
    MetadataView, Resource, ResourceView, Translation, TranslationView,
};
use crate::sorted::{alist_get, alist_lookup, alist_put, keys_of, lemma_alist_get_at, strictly_sorted};
use crate::text::{decimal, decimal_string, owned, push_str};
use vstd::prelude::*;

verus! {

/// What `serde_json::from_str::<BTreeMap<String, String>>` makes of `text`:
/// the members in key order, or the text of the error.
pub uninterp spec fn json_string_map(text: Seq<char>) -> Result<Seq<(Seq<char>, Seq<char>)>, Seq<char>>;

/// What `serde_json::from_str::<Vec<BTreeMap<String, String>>>` makes of
/// `text`: the maps, each with its members in key order, or the text of the
/// error.
pub uninterp spec fn json_string_map_array(text: Seq<char>) -> Result<Seq<Seq<(Seq<char>, Seq<char>)>>, Seq<char>>;

/// The views of a list of maps.
pub open spec fn maps_view(v: Seq<Vec<(String, String)>>) -> Seq<Seq<(Seq<char>, Seq<char>)>> {
    v.map_values(|m: Vec<(String, String)>| pairs_view(m@))
}

/// Reads a JSON object of strings with `serde_json`, as a `BTreeMap`, whose
/// members come out in increasing key order.
#[verifier::external_body]
fn parse_string_map(text: &str) -> (r: Result<Vec<(String, String)>, String>)
    ensures
        match r {
            Ok(v) => json_string_map(text@) == Ok::<Seq<(Seq<char>, Seq<char>)>, Seq<char>>(pairs_view(v@))
                && strictly_sorted(keys_of(v@)),
            Err(e) => json_string_map(text@) == Err::<Seq<(Seq<char>, Seq<char>)>, Seq<char>>(e@),
        },
{
    match serde_json::from_str::<std::collections::BTreeMap<String, String>>(text) {
        Ok(m) => Ok(m.into_iter().collect()),
        Err(e) => Err(e.to_string()),
    }
}

/// Reads a JSON array of objects of strings with `serde_json`, each object
/// as a `BTreeMap`, whose members come out in increasing key order.
#[verifier::external_body]
fn parse_string_map_array(text: &str) -> (r: Result<Vec<Vec<(String, String)>>, String>)
    ensures
        match r {
            Ok(v) => json_string_map_array(text@) == Ok::<Seq<Seq<(Seq<char>, Seq<char>)>>, Seq<char>>(maps_view(v@))
                && forall|i: int| 0 <= i < v.len() ==> strictly_sorted(keys_of(#[trigger] v@[i]@)),
            Err(e) => json_string_map_array(text@) == Err::<Seq<Seq<(Seq<char>, Seq<char>)>>, Seq<char>>(e@),
        },
{
    match serde_json::from_str::<Vec<std::collections::BTreeMap<String, String>>>(text) {
        Ok(v) => Ok(v.into_iter().map(|m| m.into_iter().collect()).collect()),
        Err(e) => Err(e.to_string()),
    }
}

/// The key of a language map: its `key` member, else its `en` member, else
/// its first value.
pub open spec fn map_key(m: Seq<(Seq<char>, Seq<char>)>) -> Seq<char> {
    match assoc_get(m, "key"@) {
        Some(k) => k,
        None => match assoc_get(m, "en"@) {
            Some(v) => v,
            None => m[0].1,
        },
    }
}

/// The metadata of a resource read from a custom format.
pub open spec fn custom_metadata(lang: Seq<char>, format: Seq<char>) -> MetadataView {
    MetadataView {
        language: lang,
        domain: Seq::empty(),
        custom: seq![("source_language"@, "en"@), ("version"@, "1.0"@), ("format"@, format)],
    }
}

/// The entry a language map gives one language.
pub open spec fn map_entry(key: Seq<char>, v: Seq<char>) -> EntryView {
    EntryView {
        id: key,
        value: TranslationView::Singular(v),
        comment: None,
        status: EntryStatus::NeedsReview,
        custom: seq![("extraction_state"@, "manual"@)],
    }
}

/// The resources of a language map: one per member but `key`, in order,
/// tagged with the name of the format they were read from.
pub open spec fn language_map_resources(m: Seq<(Seq<char>, Seq<char>)>, key: Seq<char>, format: Seq<char>) -> Seq<
    ResourceView,
>
    decreases m.len(),
{
    if m.len() == 0 {
        Seq::empty()
    } else {
        let prev = language_map_resources(m.drop_last(), key, format);
        if m.last().0 == "key"@ {
            prev
        } else {
            prev.push(
                ResourceView {
                    metadata: custom_metadata(m.last().0, format),
                    entries: seq![map_entry(key, m.last().1)],
                },
            )
        }
    }
}

/// What reading a JSON language map gives.
pub open spec fn json_language_map_result(input: Seq<char>, text: Seq<char>) -> Result<Seq<ResourceView>, Seq<char>> {
    match json_string_map(text) {
        Err(e) => Err(
            "Error parsing JSON from "@ + input + ": "@ + e
                + ". Expected format: {\"en\": \"Hello\", \"fr\": \"Bonjour\"}"@,
        ),
        Ok(m) => if m.len() == 0 {
            Err("Error: JSON object is empty"@)
        } else {
            Ok(language_map_resources(m, map_key(m), "JSONLanguageMap"@))
        },
    }
}

/// What `serde_yaml::from_str::<BTreeMap<String, String>>` makes of `text`:
/// the members in key order, or the text of the error.
pub uninterp spec fn yaml_string_map(text: Seq<char>) -> Result<Seq<(Seq<char>, Seq<char>)>, Seq<char>>;

/// Reads a YAML mapping of strings with `serde_yaml`, as a `BTreeMap`, whose
/// members come out in increasing key order.
#[verifier::external_body]
fn parse_yaml_string_map(text: &str) -> (r: Result<Vec<(String, String)>, String>)
    ensures
        match r {
            Ok(v) => yaml_string_map(text@) == Ok::<Seq<(Seq<char>, Seq<char>)>, Seq<char>>(pairs_view(v@))
                && strictly_sorted(keys_of(v@)),
            Err(e) => yaml_string_map(text@) == Err::<Seq<(Seq<char>, Seq<char>)>, Seq<char>>(e@),
        },
{
    match serde_yaml::from_str::<std::collections::BTreeMap<String, String>>(text) {
        Ok(m) => Ok(m.into_iter().collect()),
        Err(e) => Err(e.to_string()),
    }
}

/// What reading a YAML language map gives: the same resources as a JSON
/// language map, tagged as read from YAML.
pub open spec fn yaml_language_map_result(input: Seq<char>, text: Seq<char>) -> Result<Seq<ResourceView>, Seq<char>> {
    match yaml_string_map(text) {
        Err(e) => Err("Error parsing YAML from "@ + input + ": "@ + e),
        Ok(m) => if m.len() == 0 {
            Err("Error: YAML object is empty"@)
        } else {
            Ok(language_map_resources(m, map_key(m), "YAMLLanguageMap"@))
        },
    }
}

/// The metadata of a resource read from a custom format.
fn custom_metadata_of(lang: &str, format: &str) -> (r: Metadata)
    ensures
        r@ == custom_metadata(lang@, format@),
{
    let mut custom: Vec<(String, String)> = Vec::new();
    custom.push((owned("source_language"), owned("en")));
    custom.push((owned("version"), owned("1.0")));
    custom.push((owned("format"), owned(format)));
    let r = Metadata { language: owned(lang), domain: String::new(), custom };
    proof {
        assert(pairs_view(r.custom@) =~= custom_metadata(lang@, format@).custom);
        assert(r.domain@ =~= Seq::<char>::empty());
    }
    r
}

/// The key of a language map (see `map_key`).
fn map_key_of(m: &Vec<(String, String)>) -> (r: String)
    requires
        m.len() > 0,
    ensures
        r@ == map_key(pairs_view(m@)),
{
    match crate::model::assoc_lookup(m, "key") {
        Some(k) => k,
        None => match crate::model::assoc_lookup(m, "en") {
            Some(v) => v,
            None => m[0].1.clone(),
        },
    }
}

/// The metadata and entries read from a custom format hold each key once.
proof fn lemma_custom_maps_distinct(lang: Seq<char>, format: Seq<char>, key: Seq<char>, v: Seq<char>, index: nat)
    ensures
        keys_distinct(custom_metadata(lang, format).custom),
        keys_distinct(map_entry(key, v).custom),
        keys_distinct(array_entry(key, v, index).custom),
{
    reveal_strlit("source_language");
    reveal_strlit("version");
    reveal_strlit("format");
    reveal_strlit("extraction_state");
    reveal_strlit("array_index");
    assert("source_language"@.len() != "version"@.len());
    assert("source_language"@.len() != "format"@.len());
    assert("version"@[0] != "format"@[0]);
    assert("extraction_state"@.len() != "array_index"@.len());
}

/// The resources of a language map hold each key of their maps once.
proof fn lemma_language_map_wf(m: Seq<(Seq<char>, Seq<char>)>, key: Seq<char>, format: Seq<char>)
    ensures
        catalog_maps_wf(language_map_resources(m, key, format)),
    decreases m.len(),
{
    if m.len() > 0 {
        lemma_language_map_wf(m.drop_last(), key, format);
        lemma_custom_maps_distinct(m.last().0, format, key, m.last().1, 0);
    }
}

/// The entries a JSON array gives a language hold each key of their maps
/// once.
proof fn lemma_array_entries_wf(arr: Seq<Seq<(Seq<char>, Seq<char>)>>, lang: Seq<char>)
    ensures
        forall|i: int| 0 <= i < array_entries(arr, lang).len() ==> keys_distinct(#[trigger] array_entries(arr, lang)[i].custom),
    decreases arr.len(),
{
    if arr.len() > 0 {
        lemma_array_entries_wf(arr.drop_last(), lang);
        let m = arr.last();
        lemma_element_entries_wf(m, (arr.len() - 1) as nat, map_key(m), lang);
        let a = array_entries(arr.drop_last(), lang);
        let b = element_entries(m, (arr.len() - 1) as nat, map_key(m), lang);
        assert forall|i: int| 0 <= i < (a + b).len() implies keys_distinct(#[trigger] (a + b)[i].custom) by {
            if i < a.len() {
                assert((a + b)[i] == a[i]);
            } else {
                assert((a + b)[i] == b[i - a.len()]);
            }
        }
    }
}

proof fn lemma_element_entries_wf(m: Seq<(Seq<char>, Seq<char>)>, index: nat, key: Seq<char>, lang: Seq<char>)
    ensures
        forall|i: int|
            0 <= i < element_entries(m, index, key, lang).len() ==> keys_distinct(
                #[trigger] element_entries(m, index, key, lang)[i].custom,
            ),
    decreases m.len(),
{
    if m.len() > 0 {
        lemma_element_entries_wf(m.drop_last(), index, key, lang);
        lemma_custom_maps_distinct(lang, "JSONArrayLanguageMap"@, key, m.last().1, index);
    }
}

/// The resources of a parsed language map, tagged with `format`.
fn map_resources(m: &Vec<(String, String)>, format: &str) -> (r: Vec<Resource>)
    requires
        m.len() > 0,
    ensures
        resources_view(r@) == language_map_resources(pairs_view(m@), map_key(pairs_view(m@)), format@),
        catalog_maps_wf(resources_view(r@)),
{
    let key = map_key_of(m);
    let ghost mv = pairs_view(m@);
    let mut out: Vec<Resource> = Vec::new();
    let mut i: usize = 0;
    while i < m.len()
        invariant
            i <= m.len(),
            mv == pairs_view(m@),
            resources_view(out@) == language_map_resources(mv.take(i as int), key@, format@),
        decreases m.len() - i,
    {
        let ghost before = out@;
        proof {
            assert(mv.take(i as int + 1).drop_last() == mv.take(i as int));
            assert(mv.take(i as int + 1).last() == (m@[i as int].0@, m@[i as int].1@));
        }
        if !crate::text::str_eq(m[i].0.as_str(), "key") {
            let mut custom: Vec<(String, String)> = Vec::new();
            custom.push((owned("extraction_state"), owned("manual")));
            let entry = Entry {
                id: key.clone(),
                value: Translation::Singular(m[i].1.clone()),
                comment: None,
                status: EntryStatus::NeedsReview,
                custom,
            };
            let mut entries: Vec<Entry> = Vec::new();
            entries.push(entry);
            let res = Resource { metadata: custom_metadata_of(m[i].0.as_str(), format), entries };
            proof {
                assert(pairs_view(res.entries@[0].custom@) =~= seq![("extraction_state"@, "manual"@)]);
                assert(entries_view(res.entries@) =~= seq![map_entry(key@, m@[i as int].1@)]);
            }
            out.push(res);
            proof {
                assert(resources_view(out@) =~= resources_view(before).push(
                    ResourceView {
                        metadata: custom_metadata(m@[i as int].0@, format@),
                        entries: seq![map_entry(key@, m@[i as int].1@)],
                    },
                ));
            }
        }
        i = i + 1;
    }
    proof {
        assert(mv.take(m.len() as int) == mv);
        lemma_language_map_wf(mv, key@, format@);
    }
    out
}

/// Turns a JSON language map into resources (see
/// `json_language_map_result`); `input` names the file in messages.
pub fn transform_json_language_map(input: &str, text: &str) -> (r: Result<Vec<Resource>, String>)
    ensures
        match json_language_map_result(input@, text@) {
            Ok(rs) => r matches Ok(v) && resources_view(v@) == rs,
            Err(e) => r matches Err(m) && m@ == e,
        },
        r matches Ok(v) ==> catalog_maps_wf(resources_view(v@)),
{
    let m = match parse_string_map(text) {
        Ok(m) => m,
        Err(e) => {
            let mut msg = owned("Error parsing JSON from ");
            push_str(&mut msg, input);
            push_str(&mut msg, ": ");
            push_str(&mut msg, e.as_str());
            push_str(&mut msg, ". Expected format: {\"en\": \"Hello\", \"fr\": \"Bonjour\"}");
            return Err(msg);
        },
    };
    if m.len() == 0 {
        return Err(owned("Error: JSON object is empty"));
    }
    Ok(map_resources(&m, "JSONLanguageMap"))
}

/// Turns a YAML language map into resources (see
/// `yaml_language_map_result`); `input` names the file in messages.
pub fn transform_yaml_language_map(input: &str, text: &str) -> (r: Result<Vec<Resource>, String>)
    ensures
        match yaml_language_map_result(input@, text@) {
            Ok(rs) => r matches Ok(v) && resources_view(v@) == rs,
            Err(e) => r matches Err(m) && m@ == e,
        },
        r matches Ok(v) ==> catalog_maps_wf(resources_view(v@)),
{
    let m = match parse_yaml_string_map(text) {
        Ok(m) => m,
        Err(e) => {
            let mut msg = owned("Error parsing YAML from ");
            push_str(&mut msg, input);
            push_str(&mut msg, ": ");
            push_str(&mut msg, e.as_str());
            return Err(msg);
        },
    };
    if m.len() == 0 {
        return Err(owned("Error: YAML object is empty"));
    }
    Ok(map_resources(&m, "YAMLLanguageMap"))
}

/// The entry an array element gives one language; it records its index.
pub open spec fn array_entry(key: Seq<char>, v: Seq<char>, index: nat) -> EntryView {
    EntryView {
        id: key,
        value: TranslationView::Singular(v),
        comment: None,
        status: EntryStatus::NeedsReview,
        custom: seq![("extraction_state"@, "manual"@), ("array_index"@, decimal(index))],
    }
}

/// The entries that element `m` (at `index`, with key `key`) gives language
/// `lang`, in member order.
pub open spec fn element_entries(m: Seq<(Seq<char>, Seq<char>)>, index: nat, key: Seq<char>, lang: Seq<char>) -> Seq<EntryView>
    decreases m.len(),
{
    if m.len() == 0 {
        Seq::empty()
    } else {
        let prev = element_entries(m.drop_last(), index, key, lang);
        if m.last().0 == lang && lang != "key"@ {
            prev.push(array_entry(key, m.last().1, index))
        } else {
            prev
        }
    }
}

/// The entries of language `lang` over all elements, in order.
pub open spec fn array_entries(arr: Seq<Seq<(Seq<char>, Seq<char>)>>, lang: Seq<char>) -> Seq<EntryView>
    decreases arr.len(),
{
    if arr.len() == 0 {
        Seq::empty()
    } else {
        let m = arr.last();
        array_entries(arr.drop_last(), lang) + element_entries(m, (arr.len() - 1) as nat, map_key(m), lang)
    }
}

/// The resources of a JSON array language map: one per language that some
/// element gives an entry, in increasing language order, each with the
/// entries of its language in order.
pub open spec fn array_resources_are(rs: Seq<ResourceView>, arr: Seq<Seq<(Seq<char>, Seq<char>)>>) -> bool {
    &&& strictly_sorted(rs.map_values(|r: ResourceView| r.metadata.language))
    &&& forall|i: int|
        0 <= i < rs.len() ==> {
            let r = #[trigger] rs[i];
            &&& r.metadata == custom_metadata(r.metadata.language, "JSONArrayLanguageMap"@)
            &&& r.entries == array_entries(arr, r.metadata.language)
            &&& r.entries.len() > 0
        }
    &&& forall|lang: Seq<char>|
        #[trigger] array_entries(arr, lang).len() > 0 ==> exists|i: int|
            0 <= i < rs.len() && (#[trigger] rs[i]).metadata.language == lang
}

/// Entries grouped by language: the entries stored under a language are
/// those given so far, and a language is stored exactly when it has some.
pub open spec fn groups_hold(g: Seq<(String, Vec<Entry>)>, given: spec_fn(Seq<char>) -> Seq<EntryView>) -> bool {
    &&& strictly_sorted(keys_of(g))
    &&& forall|q: Seq<char>|
        #![trigger alist_get(g, q)]
        match alist_get(g, q) {
            Some(es) => entries_view(es@) == given(q) && given(q).len() > 0,
            None => given(q).len() == 0,
        }
}

/// Appends `entry` to the group of `lang`.
fn group_append(groups: &mut Vec<(String, Vec<Entry>)>, lang: &str, entry: Entry)
    requires
        strictly_sorted(keys_of(old(groups)@)),
    ensures
        strictly_sorted(keys_of(final(groups)@)),
        forall|q: Seq<char>| q != lang@ ==> alist_get(final(groups)@, q) == alist_get(old(groups)@, q),
        alist_get(final(groups)@, lang@) matches Some(es) && entries_view(es@) == (match alist_get(
            old(groups)@,
            lang@,
        ) {
            Some(o) => entries_view(o@),
            None => Seq::empty(),
        }).push(entry@),
{
    let ghost ev = entry@;
    match alist_lookup(groups, lang) {
        Some(i) => {
            let mut es = dup_entries(&groups[i].1);
            let ghost e0 = entries_view(es@);
            es.push(entry);
            proof {
                assert(entries_view(es@) =~= e0.push(ev));
            }
            alist_put(groups, owned(lang), es);
        },
        None => {
            let mut es: Vec<Entry> = Vec::new();
            es.push(entry);
            proof {
                assert(entries_view(es@) =~= Seq::<EntryView>::empty().push(ev));
            }
            alist_put(groups, owned(lang), es);
        },
    }
}

/// What reading a JSON array language map gives: the resources of the
/// array (see `array_resources_are`), or an error.
pub open spec fn json_array_error(input: Seq<char>, text: Seq<char>) -> Option<Seq<char>> {
    match json_string_map_array(text) {
        Err(e) => Some(
            "Error parsing JSON array from "@ + input + ": "@ + e
                + ". Expected format: [{\"key\": \"hello\", \"en\": \"Hello\", \"fr\": \"Bonjour\"}]"@,
        ),
        Ok(arr) => if arr.len() == 0 {
            Some("Error: JSON array is empty"@)
        } else {
            None
        },
    }
}

proof fn lemma_element_prefix(m: Seq<(Seq<char>, Seq<char>)>, j: int, index: nat, key: Seq<char>, lang: Seq<char>)
    requires
        0 <= j < m.len(),
    ensures
        element_entries(m.take(j + 1), index, key, lang) == if m[j].0 == lang && lang != "key"@ {
            element_entries(m.take(j), index, key, lang).push(array_entry(key, m[j].1, index))
        } else {
            element_entries(m.take(j), index, key, lang)
        },
{
    assert(m.take(j + 1).drop_last() == m.take(j));
    assert(m.take(j + 1).last() == m[j]);
}

/// Turns a JSON array language map into resources (see
/// `json_array_error` and `array_resources_are`); `input` names the file
/// in messages.
pub fn transform_json_array_language_map(input: &str, text: &str) -> (r: Result<Vec<Resource>, String>)
    ensures
        match json_array_error(input@, text@) {
            Some(e) => r matches Err(m) && m@ == e,
            None => r matches Ok(v) && array_resources_are(resources_view(v@), json_string_map_array(text@)->Ok_0),
        },
        r matches Ok(v) ==> catalog_maps_wf(resources_view(v@)),
{
    let arr = match parse_string_map_array(text) {
        Ok(a) => a,
        Err(e) => {
            let mut msg = owned("Error parsing JSON array from ");
            push_str(&mut msg, input);
            push_str(&mut msg, ": ");
            push_str(&mut msg, e.as_str());
            push_str(
                &mut msg,
                ". Expected format: [{\"key\": \"hello\", \"en\": \"Hello\", \"fr\": \"Bonjour\"}]",
            );
            return Err(msg);
        },
    };
    if arr.len() == 0 {
        return Err(owned("Error: JSON array is empty"));
    }
    let ghost av = maps_view(arr@);
    let mut groups: Vec<(String, Vec<Entry>)> = Vec::new();
    let mut i: usize = 0;
    proof {
        assert(groups_hold(groups@, |q: Seq<char>| array_entries(av.take(0), q))) by {
            assert(av.take(0) =~= Seq::<Seq<(Seq<char>, Seq<char>)>>::empty());
        }
    }
    while i < arr.len()
        invariant
            i <= arr.len(),
            av == maps_view(arr@),
            groups_hold(groups@, |q: Seq<char>| array_entries(av.take(i as int), q)),
        decreases arr.len() - i,
    {
        let ghost mv = av[i as int];
        proof {
            assert(mv == pairs_view(arr@[i as int]@));
            assert(av.take(i as int + 1).drop_last() == av.take(i as int));
            assert(av.take(i as int + 1).last() == mv);
        }
        if arr[i].len() > 0 {
            let key = map_key_of(&arr[i]);
            let index = decimal_string(i);
            let mut j: usize = 0;
            while j < arr[i].len()
                invariant
                    i < arr.len(),
                    j <= arr@[i as int].len(),
                    arr@[i as int].len() > 0,
                    mv == pairs_view(arr@[i as int]@),
                    key@ == map_key(mv),
                    index@ == decimal(i as nat),
                    groups_hold(
                        groups@,
                        |q: Seq<char>| array_entries(av.take(i as int), q) + element_entries(mv.take(j as int), i as nat, key@, q),
                    ),
                decreases arr@[i as int].len() - j,
            {
                let ghost g0 = groups@;
                let ghost lang = arr@[i as int]@[j as int].0@;
                proof {
                    assert(mv[j as int] == (lang, arr@[i as int]@[j as int].1@));
                    assert forall|q: Seq<char>| true implies element_entries(mv.take(j as int + 1), i as nat, key@, q)
                        == if mv[j as int].0 == q && q != "key"@ {
                        element_entries(mv.take(j as int), i as nat, key@, q).push(
                            array_entry(key@, mv[j as int].1, i as nat),
                        )
                    } else {
                        element_entries(mv.take(j as int), i as nat, key@, q)
                    } by {
                        lemma_element_prefix(mv, j as int, i as nat, key@, q);
                    }
                }
                if !crate::text::str_eq(arr[i][j].0.as_str(), "key") {
                    let mut custom: Vec<(String, String)> = Vec::new();
                    custom.push((owned("extraction_state"), owned("manual")));
                    custom.push((owned("array_index"), index.clone()));
                    let entry = Entry {
                        id: key.clone(),
                        value: Translation::Singular(arr[i][j].1.clone()),
                        comment: None,
                        status: EntryStatus::NeedsReview,
                        custom,
                    };
                    proof {
                        assert(pairs_view(entry.custom@) =~= seq![
                            ("extraction_state"@, "manual"@),
                            ("array_index"@, decimal(i as nat)),
                        ]);
                        assert(entry@ == array_entry(key@, mv[j as int].1, i as nat));
                    }
                    group_append(&mut groups, arr[i][j].0.as_str(), entry);
                    proof {
                        let f0 = |q: Seq<char>| array_entries(av.take(i as int), q) + element_entries(mv.take(j as int), i as nat, key@, q);
                        let f1 = |q: Seq<char>| array_entries(av.take(i as int), q) + element_entries(mv.take(j as int + 1), i as nat, key@, q);
                        assert forall|q: Seq<char>| #![trigger alist_get(groups@, q)]
                            match alist_get(groups@, q) {
                                Some(es) => entries_view(es@) == f1(q) && f1(q).len() > 0,
                                None => f1(q).len() == 0,
                            } by {
                            if q == lang {
                                assert(f1(q) == f0(q).push(array_entry(key@, mv[j as int].1, i as nat)));
                                match alist_get(g0, q) {
                                    Some(o) => {},
                                    None => {
                                        assert(f0(q).len() == 0);
                                        assert(f0(q) =~= Seq::<EntryView>::empty());
                                    },
                                }
                            } else {
                                assert(alist_get(groups@, q) == alist_get(g0, q));
                                assert(f1(q) == f0(q));
                            }
                        }
                    }
                } else {
                    proof {
                        let f0 = |q: Seq<char>| array_entries(av.take(i as int), q) + element_entries(mv.take(j as int), i as nat, key@, q);
                        let f1 = |q: Seq<char>| array_entries(av.take(i as int), q) + element_entries(mv.take(j as int + 1), i as nat, key@, q);
                        assert forall|q: Seq<char>| #![trigger element_entries(mv.take(j as int + 1), i as nat, key@, q)]
                            true implies f1(q) == f0(q) by {
                            lemma_element_prefix(mv, j as int, i as nat, key@, q);
                        }
                        assert(f1 =~= f0);
                    }
                }
                j = j + 1;
            }
            proof {
                assert(mv.take(arr@[i as int].len() as int) == mv);
                let f = |q: Seq<char>| array_entries(av.take(i as int + 1), q);
                let g = |q: Seq<char>| array_entries(av.take(i as int), q) + element_entries(mv, i as nat, key@, q);
                assert forall|q: Seq<char>| #![trigger array_entries(av.take(i as int + 1), q)] true implies f(q) == g(q) by {
                    assert(av.take(i as int + 1).len() - 1 == i);
                }
                assert(f =~= g);
            }
        } else {
            proof {
                let f = |q: Seq<char>| array_entries(av.take(i as int + 1), q);
                let g = |q: Seq<char>| array_entries(av.take(i as int), q);
                assert forall|q: Seq<char>| #![trigger array_entries(av.take(i as int + 1), q)] true implies f(q) == g(q) by {
                    assert(mv.len() == 0);
                    assert(element_entries(mv, i as nat, map_key(mv), q) =~= Seq::<EntryView>::empty());
                    assert(array_entries(av.take(i as int + 1), q) =~= array_entries(av.take(i as int), q));
                }
                assert(f =~= g);
            }
        }
        i = i + 1;
    }
    proof {
        assert(av.take(arr.len() as int) == av);
    }
    let ghost fin = |q: Seq<char>| array_entries(av, q);
    let mut out: Vec<Resource> = Vec::new();
    let mut k: usize = 0;
    while k < groups.len()
        invariant
            k <= groups.len(),
            fin == (|q: Seq<char>| array_entries(av, q)),
            groups_hold(groups@, fin),
            out.len() == k,
            forall|n: int|
                0 <= n < k ==> {
                    let r = #[trigger] resources_view(out@)[n];
                    &&& r.metadata == custom_metadata(groups@[n].0@, "JSONArrayLanguageMap"@)
                    &&& r.entries == entries_view(groups@[n].1@)
                },
        decreases groups.len() - k,
    {
        let res = Resource {
            metadata: custom_metadata_of(groups[k].0.as_str(), "JSONArrayLanguageMap"),
            entries: dup_entries(&groups[k].1),
        };
        let ghost before = out@;
        let ghost rv0 = res@;
        out.push(res);
        proof {
            assert forall|n: int| 0 <= n < k implies #[trigger] resources_view(out@)[n] == resources_view(before)[n] by {
                assert(out@[n] == before[n]);
            }
            assert(resources_view(out@)[k as int] == rv0);
        }
        k = k + 1;
    }
    proof {
        let rv = resources_view(out@);
        assert forall|n: int| 0 <= n < rv.len() implies {
            let r = #[trigger] rv[n];
            &&& r.metadata == custom_metadata(r.metadata.language, "JSONArrayLanguageMap"@)
            &&& r.entries == array_entries(av, r.metadata.language)
            &&& r.entries.len() > 0
        } by {
            lemma_alist_get_at(groups@, n);
            assert(alist_get(groups@, groups@[n].0@) is Some);
        }
        assert(rv.map_values(|r: ResourceView| r.metadata.language) =~= keys_of(groups@));
        assert forall|lang: Seq<char>| #[trigger] array_entries(av, lang).len() > 0 implies exists|n: int|
            0 <= n < rv.len() && (#[trigger] rv[n]).metadata.language == lang by {
            assert(fin(lang).len() > 0);
            assert(alist_get(groups@, lang) is Some);
            let n = choose|n: int| 0 <= n < groups@.len() && (#[trigger] groups@[n]).0@ == lang;
            assert(rv[n].metadata.language == lang);
        }
        assert forall|n: int| 0 <= n < rv.len() implies resource_maps_wf(#[trigger] rv[n]) by {
            let l = rv[n].metadata.language;
            lemma_custom_maps_distinct(l, "JSONArrayLanguageMap"@, Seq::empty(), Seq::empty(), 0);
            lemma_array_entries_wf(av, l);
        }
    }
    Ok(out)
}

} // verus!
