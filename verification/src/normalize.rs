//! The normalize command's decisions: the key style it is asked for, which
//! resource a single-language output gets, whether the output is another
//! file, and what a run reports.
use crate::model::{resources_view, Resource};
use crate::paths::{paths_equal, same_path};
use crate::text::{decimal, lower_seq, owned, push_str, str_eq, to_ascii_lowercase, trim, trim_seq};
use vstd::prelude::*;

verus! {

/// What the normalize command was asked to do.
#[derive(Debug, Clone)]
pub struct NormalizeCliOptions {
    pub inputs: Vec<String>,
    pub output: Option<String>,
    pub dry_run: bool,
    pub check: bool,
    pub no_placeholders: bool,
    pub key_style: String,
}

/// How keys are rewritten.
#[derive(Debug, Clone, Copy, PartialEq, Eq, Structural)]
pub enum KeyStyle {
    /// Keys are left as they are.
    Keep,
    Snake,
    Kebab,
    Camel,
}

/// The key style that a name stands for: trimmed and lower-cased, one of
/// `none`, `snake`, `kebab`, `camel`.
pub open spec fn key_style_named(s: Seq<char>) -> Option<KeyStyle> {
    let n = lower_seq(trim_seq(s));
    if n == "none"@ {
        Some(KeyStyle::Keep)
    } else if n == "snake"@ {
        Some(KeyStyle::Snake)
    } else if n == "kebab"@ {
        Some(KeyStyle::Kebab)
    } else if n == "camel"@ {
        Some(KeyStyle::Camel)
    } else {
        None
    }
}

/// Reads `--key-style` (see `key_style_named`); any other name is refused
/// with "Invalid --key-style '...'. Expected one of: ...".
pub fn parse_key_style(input: &str) -> (r: Result<KeyStyle, String>)
    ensures
        match key_style_named(input@) {
            Some(k) => r == Ok::<KeyStyle, String>(k),
            None => r matches Err(e) && e@ == "Invalid --key-style '"@ + lower_seq(trim_seq(input@))
                + "'. Expected one of: none, snake, kebab, camel"@,
        },
{
    let t = trim(input);
    let n = to_ascii_lowercase(t.as_str());
    if str_eq(n.as_str(), "none") {
        Ok(KeyStyle::Keep)
    } else if str_eq(n.as_str(), "snake") {
        Ok(KeyStyle::Snake)
    } else if str_eq(n.as_str(), "kebab") {
        Ok(KeyStyle::Kebab)
    } else if str_eq(n.as_str(), "camel") {
        Ok(KeyStyle::Camel)
    } else {
        let mut e = owned("Invalid --key-style '");
        push_str(&mut e, n.as_str());
        push_str(&mut e, "'. Expected one of: none, snake, kebab, camel");
        Err(e)
    }
}

/// Whether an output path is given that names another file than the input.
pub fn has_distinct_output_path(input_path: &str, output_path: &Option<String>) -> (r: bool)
    ensures
        r == match output_path {
            Some(o) => !same_path(o@, input_path@),
            None => false,
        },
{
    match output_path {
        Some(output) => !paths_equal(output.as_str(), input_path),
        None => false,
    }
}

/// The only resource, for an output that holds one language; several are an
/// error.
pub fn pick_single_resource(resources: &Vec<Resource>) -> (r: Result<usize, String>)
    ensures
        resources.len() == 1 ==> r == Ok::<usize, String>(0),
        resources.len() != 1 ==> (r matches Err(e) && e@
            == "Multiple languages present; single-language output requires exactly one resource"@),
{
    if resources.len() == 1 {
        Ok(0)
    } else {
        Err(owned("Multiple languages present; single-language output requires exactly one resource"))
    }
}

/// What a normalize run does once the normalization is known.
#[derive(Debug, Clone, Copy, PartialEq, Eq, Structural)]
pub enum NormalizeAction {
    /// Check mode found a change: report it and fail.
    CheckFails,
    /// Check mode or dry run found nothing to change.
    NoChange,
    /// Dry run found a change: report it.
    DryRunChange,
    /// Nothing changed but the output is another file: write it.
    CopyUnchanged,
    /// Write the normalized file.
    Write,
}

/// What a normalize run does: check mode fails on a change; a dry run only
/// reports; an unchanged file is written only to another output; a changed
/// one is written.
pub open spec fn normalize_action_of(changed: bool, check: bool, dry_run: bool, distinct_output: bool) -> NormalizeAction {
    if check {
        if changed {
            NormalizeAction::CheckFails
        } else {
            NormalizeAction::NoChange
        }
    } else if dry_run {
        if changed {
            NormalizeAction::DryRunChange
        } else {
            NormalizeAction::NoChange
        }
    } else if !changed {
        if distinct_output {
            NormalizeAction::CopyUnchanged
        } else {
            NormalizeAction::NoChange
        }
    } else {
        NormalizeAction::Write
    }
}

/// What a normalize run does (see `normalize_action_of`).
pub fn normalize_action(changed: bool, opts: &NormalizeCliOptions, input: &str) -> (r: NormalizeAction)
    ensures
        r == normalize_action_of(
            changed,
            opts.check,
            opts.dry_run,
            match opts.output {
                Some(o) => !same_path(o@, input@),
                None => false,
            },
        ),
{
    if opts.check {
        if changed {
            NormalizeAction::CheckFails
        } else {
            NormalizeAction::NoChange
        }
    } else if opts.dry_run {
        if changed {
            NormalizeAction::DryRunChange
        } else {
            NormalizeAction::NoChange
        }
    } else if !changed {
        if has_distinct_output_path(input, &opts.output) {
            NormalizeAction::CopyUnchanged
        } else {
            NormalizeAction::NoChange
        }
    } else {
        NormalizeAction::Write
    }
}

/// The inputs that a normalize run takes: exactly one after expansion. An
/// output path cannot go with several inputs.
pub fn single_input(expanded: &Vec<String>, has_output: bool) -> (r: Result<usize, String>)
    ensures
        expanded.len() == 0 ==> (r matches Err(e) && e@ == "No input files matched the provided patterns"@),
        expanded.len() > 1 && has_output ==> (r matches Err(e) && e@
            == "--output cannot be used with multiple input files"@),
        expanded.len() > 1 && !has_output ==> (r matches Err(e) && e@
            == "Normalize currently supports exactly one input file"@),
        expanded.len() == 1 ==> r == Ok::<usize, String>(0),
{
    if expanded.len() == 0 {
        Err(owned("No input files matched the provided patterns"))
    } else if expanded.len() > 1 {
        if has_output {
            Err(owned("--output cannot be used with multiple input files"))
        } else {
            Err(owned("Normalize currently supports exactly one input file"))
        }
    } else {
        Ok(0)
    }
}


/// What a normalize run does with a change: outside check and dry-run mode
/// a changed catalog is always written, whatever the output path; nothing
/// is reported unchanged when something changed; check mode fails exactly
/// on a change and writes nothing; a dry run writes nothing; an unchanged
/// catalog is copied only to another output.
pub proof fn law_changes_are_written(changed: bool, check: bool, dry_run: bool, distinct_output: bool)
    ensures
        ({
            let a = normalize_action_of(changed, check, dry_run, distinct_output);
            &&& (!check && !dry_run && changed) ==> a == NormalizeAction::Write
            &&& a == NormalizeAction::NoChange ==> !changed
            &&& check ==> (a == NormalizeAction::CheckFails <==> changed) && a != NormalizeAction::Write && a
                != NormalizeAction::CopyUnchanged
            &&& dry_run ==> a != NormalizeAction::Write && a != NormalizeAction::CopyUnchanged
            &&& a == NormalizeAction::Write ==> changed && !check && !dry_run
            &&& a == NormalizeAction::CopyUnchanged ==> !changed && distinct_output && !check && !dry_run
        }),
{
}

} // verus!
