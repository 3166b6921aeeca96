//! The merge command's decisions: how conflicts are settled, which source
//! language and version the merged output declares, and when a merged
//! result can be written to a file of a single-language format.
use crate::convert::apply_xcstrings_metadata;
use crate::model::{assoc_get, assoc_lookup, keys_distinct, opt_view, resources_view, Resource, ResourceView};
use crate::text::{owned, push_str, trim, trim_seq};
use vstd::prelude::*;

verus! {

/// How a key that occurs in several inputs of one language is settled.
#[derive(Debug, Clone, Copy, PartialEq, Eq, Structural)]
pub enum ConflictStrategy {
    /// Keep the first occurrence of a key.
    First,
    /// Keep the last occurrence of a key (the default).
    Last,
    /// Drop keys that conflict.
    Skip,
}

/// The source language a merged output declares: the requested one when it
/// is not blank, else the first resource's non-blank `source_language`, else
/// the first resource's language, else `en`.
pub open spec fn merged_source_language(requested: Option<Seq<char>>, resources: Seq<ResourceView>) -> Seq<char> {
    if requested is Some && trim_seq(requested->0).len() > 0 {
        requested->0
    } else if resources.len() > 0 && assoc_get(resources[0].metadata.custom, "source_language"@) is Some
        && trim_seq(assoc_get(resources[0].metadata.custom, "source_language"@)->0).len() > 0 {
        assoc_get(resources[0].metadata.custom, "source_language"@)->0
    } else if resources.len() > 0 {
        resources[0].metadata.language
    } else {
        "en"@
    }
}

/// The version a merged output declares: the requested one, else the first
/// resource's `version`, else `1.0`.
pub open spec fn merged_version(requested: Option<Seq<char>>, resources: Seq<ResourceView>) -> Seq<char> {
    if requested is Some {
        requested->0
    } else if resources.len() > 0 && assoc_get(resources[0].metadata.custom, "version"@) is Some {
        assoc_get(resources[0].metadata.custom, "version"@)->0
    } else {
        "1.0"@
    }
}

/// The source language of the merged output (see `merged_source_language`).
pub fn merge_source_language(requested: &Option<String>, resources: &Vec<Resource>) -> (r: String)
    ensures
        r@ == merged_source_language(opt_view(*requested), resources_view(resources@)),
{
    if let Some(s) = requested {
        if trim(s.as_str()).as_str().unicode_len() > 0 {
            return s.clone();
        }
    }
    if resources.len() > 0 {
        if let Some(v) = assoc_lookup(&resources[0].metadata.custom, "source_language") {
            if trim(v.as_str()).as_str().unicode_len() > 0 {
                return v;
            }
        }
        return resources[0].metadata.language.clone();
    }
    owned("en")
}

/// The version of the merged output (see `merged_version`).
pub fn merge_version(requested: &Option<String>, resources: &Vec<Resource>) -> (r: String)
    ensures
        r@ == merged_version(opt_view(*requested), resources_view(resources@)),
{
    if let Some(v) = requested {
        return v.clone();
    }
    if resources.len() > 0 {
        if let Some(v) = assoc_lookup(&resources[0].metadata.custom, "version") {
            return v;
        }
    }
    owned("1.0")
}

/// Gives every merged resource the source language and version of the
/// merged output (see `merged_source_language` and `merged_version`), and
/// returns the two.
pub fn stamp_merge_metadata(
    resources: &mut Vec<Resource>,
    requested_source: &Option<String>,
    requested_version: &Option<String>,
) -> (r: (String, String))
    ensures
        r.0@ == merged_source_language(opt_view(*requested_source), resources_view(old(resources)@)),
        r.1@ == merged_version(opt_view(*requested_version), resources_view(old(resources)@)),
        final(resources).len() == old(resources).len(),
        forall|i: int|
            0 <= i < final(resources).len() ==> {
                let n = #[trigger] resources_view(final(resources)@)[i];
                let o = resources_view(old(resources)@)[i];
                &&& n.entries == o.entries
                &&& n.metadata.language == o.metadata.language
                &&& n.metadata.domain == o.metadata.domain
                &&& assoc_get(n.metadata.custom, "source_language"@) == Some(r.0@)
                &&& assoc_get(n.metadata.custom, "version"@) == Some(r.1@)
                &&& forall|k: Seq<char>|
                    k != "source_language"@ && k != "version"@ ==> assoc_get(n.metadata.custom, k)
                        == assoc_get(o.metadata.custom, k)
                &&& keys_distinct(o.metadata.custom) ==> keys_distinct(n.metadata.custom)
            },
{
    let source = merge_source_language(requested_source, resources);
    let version = merge_version(requested_version, resources);
    apply_xcstrings_metadata(resources, source.as_str(), version.as_str());
    (source, version)
}

/// A merge needs at least one input.
pub fn check_merge_inputs(inputs: &Vec<String>) -> (r: Result<(), String>)
    ensures
        inputs.len() > 0 <==> r is Ok,
        r matches Err(e) ==> e@ == "Error: At least one input file is required."@,
{
    if inputs.len() == 0 {
        Err(owned("Error: At least one input file is required."))
    } else {
        Ok(())
    }
}

/// Which merged resource a file of no known multi-language format gets:
/// the only one; several are an error naming the output.
pub fn single_merged_resource(resources: &Vec<Resource>, output: &str) -> (r: Result<usize, String>)
    ensures
        resources.len() == 1 <==> r is Ok,
        r matches Ok(i) ==> i == 0,
        r matches Err(e) ==> e@ == "Error writing to "@ + output@ + ": multiple resources"@,
{
    if resources.len() == 1 {
        Ok(0)
    } else {
        let mut e = owned("Error writing to ");
        push_str(&mut e, output);
        push_str(&mut e, ": multiple resources");
        Err(e)
    }
}

} // verus!
