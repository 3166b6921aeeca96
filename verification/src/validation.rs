//! Checks on what the user asked for before any work starts: input files,
//! language codes and format names, gathered in a validation context.
use crate::lang::{valid_lang_code, validate_language_code};
use crate::paths::{path_exists, path_is_file};
use crate::text::{decimal, decimal_string, lower_seq, owned, push_str, replace_char,
    replace_seq, str_eq, to_ascii_lowercase, trim, trim_seq};
use vstd::prelude::*;

verus! {

/// Everything one command asks to have checked.
#[derive(Debug, Clone)]
pub struct ValidationContext {
    pub input_files: Vec<String>,
    pub output_file: Option<String>,
    pub language_code: Option<String>,
    pub input_format: Option<String>,
    pub output_format: Option<String>,
}

/// The outcome of checking one file path, given what the disk said: `Err`
/// "File does not exist: ..." when nothing is there, `Err` "Path is not a
/// file: ..." when something other than a file is there, `Ok` otherwise.
pub open spec fn file_check(path: Seq<char>, exists: bool, is_file: bool) -> Result<
    (),
    Seq<char>,
> {
    if !exists {
        Err("File does not exist: "@ + path)
    } else if !is_file {
        Err("Path is not a file: "@ + path)
    } else {
        Ok(())
    }
}

/// Whether a result carries the given outcome, error text by view.
pub open spec fn result_is(r: Result<(), String>, s: Result<(), Seq<char>>) -> bool {
    match (r, s) {
        (Ok(_), Ok(_)) => true,
        (Err(e), Err(f)) => e@ == f,
        _ => false,
    }
}

/// The outcome of checking one file path once the disk has answered.
pub fn file_verdict(path: &str, exists: bool, is_file: bool) -> (r: Result<(), String>)
    ensures
        result_is(r, file_check(path@, exists, is_file)),
{
    if !exists {
        let mut e = owned("File does not exist: ");
        push_str(&mut e, path);
        Err(e)
    } else if !is_file {
        let mut e = owned("Path is not a file: ");
        push_str(&mut e, path);
        Err(e)
    } else {
        Ok(())
    }
}

/// The outcomes that checking `path` can have, whatever the disk holds.
pub open spec fn possible_file_check(path: Seq<char>, r: Result<(), String>) -> bool {
    ||| result_is(r, file_check(path, false, false))
    ||| result_is(r, file_check(path, true, false))
    ||| result_is(r, file_check(path, true, true))
}

/// Checks that `path` names an existing regular file. What the disk holds
/// decides; the result is one of the outcomes of `file_check`.
pub fn validate_file_path(path: &str) -> (r: Result<(), String>)
    ensures
        possible_file_check(path@, r),
{
    let e = path_exists(path);
    let f = if e {
        path_is_file(path)
    } else {
        false
    };
    file_verdict(path, e, f)
}

/// The custom format names accepted in a context, after trimming,
/// lower-casing and turning `_` into `-`.
pub open spec fn custom_format_ok(s: Seq<char>) -> bool {
    let n = replace_seq(lower_seq(trim_seq(s)), '_', '-');
    n == "json-language-map"@ || n == "json-array-language-map"@ || n == "yaml-language-map"@
}

/// The standard format names accepted in a context, after trimming and
/// lower-casing.
pub open spec fn standard_format_ok(s: Seq<char>) -> bool {
    let n = lower_seq(trim_seq(s));
    n == "strings"@ || n == "android"@ || n == "androidstrings"@ || n == "xml"@ || n
        == "xcstrings"@ || n == "csv"@ || n == "tsv"@
}

/// Checks a custom format name: `Err` "Custom format cannot be empty" for
/// the empty name, `Err` "Unsupported custom format: ..." for another name
/// outside `custom_format_ok`, `Ok` otherwise.
pub fn validate_custom_format(format: &str) -> (r: Result<(), String>)
    ensures
        r is Ok <==> custom_format_ok(format@),
        format@.len() == 0 ==> (r matches Err(e) && e@ == "Custom format cannot be empty"@),
        format@.len() != 0 && !custom_format_ok(format@) ==> (r matches Err(e) && e@
            == "Unsupported custom format: "@ + format@
            + ". Supported formats: json-language-map, json-array-language-map, yaml-language-map"@),
{
    if format.unicode_len() == 0 {
        proof {
            reveal_strlit("json-language-map");
            reveal_strlit("json-array-language-map");
            reveal_strlit("yaml-language-map");
            assert(trim_seq(format@) =~= format@);
            assert(replace_seq(lower_seq(trim_seq(format@)), '_', '-').len() == 0);
        }
        return Err(owned("Custom format cannot be empty"));
    }
    let t = trim(format);
    let l = to_ascii_lowercase(t.as_str());
    let n = replace_char(l.as_str(), '_', '-');
    if str_eq(n.as_str(), "json-language-map") || str_eq(n.as_str(), "json-array-language-map")
        || str_eq(n.as_str(), "yaml-language-map") {
        Ok(())
    } else {
        let mut e = owned("Unsupported custom format: ");
        push_str(&mut e, format);
        push_str(
            &mut e,
            ". Supported formats: json-language-map, json-array-language-map, yaml-language-map",
        );
        Err(e)
    }
}

/// Checks a standard format name: `Ok` exactly for the names of
/// `standard_format_ok`, `Err` "Unsupported standard format: ..." otherwise.
pub fn validate_standard_format(format: &str) -> (r: Result<(), String>)
    ensures
        r is Ok <==> standard_format_ok(format@),
        !standard_format_ok(format@) ==> (r matches Err(e) && e@
            == "Unsupported standard format: "@ + format@
            + ". Supported formats: strings, android, xcstrings, csv, tsv"@),
{
    let t = trim(format);
    let n = to_ascii_lowercase(t.as_str());
    if str_eq(n.as_str(), "strings") || str_eq(n.as_str(), "android") || str_eq(
        n.as_str(),
        "androidstrings",
    ) || str_eq(n.as_str(), "xml") || str_eq(n.as_str(), "xcstrings") || str_eq(n.as_str(), "csv")
        || str_eq(n.as_str(), "tsv") {
        Ok(())
    } else {
        let mut e = owned("Unsupported standard format: ");
        push_str(&mut e, format);
        push_str(&mut e, ". Supported formats: strings, android, xcstrings, csv, tsv");
        Err(e)
    }
}

/// The views of the fields of a context.
pub open spec fn opt_str(o: Option<String>) -> Option<Seq<char>> {
    crate::model::opt_view(o)
}

/// The checks that follow the input files, in order: output path not empty,
/// language code, input format (custom or standard), output format
/// (standard).
pub open spec fn context_tail_check(
    output: Option<Seq<char>>,
    lang: Option<Seq<char>>,
    input_format: Option<Seq<char>>,
    output_format: Option<Seq<char>>,
) -> Result<(), Seq<char>> {
    if output is Some && output->0.len() == 0 {
        Err("Output file validation failed: Output path cannot be empty"@)
    } else if lang is Some && !valid_lang_code(lang->0) {
        Err("Language code validation failed: "@ + if lang->0.len() == 0 {
            "Language code cannot be empty"@
        } else {
            "Invalid language code format: "@ + lang->0 + ". Expected format: 'en' or 'en-US'"@
        })
    } else if input_format is Some && !custom_format_ok(input_format->0) && !standard_format_ok(
        input_format->0,
    ) {
        Err("Input format validation failed: Unsupported format: "@ + input_format->0)
    } else if output_format is Some && !standard_format_ok(output_format->0) {
        Err("Output format validation failed: Unsupported standard format: "@ + output_format->0
            + ". Supported formats: strings, android, xcstrings, csv, tsv"@)
    } else {
        Ok(())
    }
}

/// The outcome of the input-file checks alone: the first failing input is
/// reported with its 1-based position.
pub open spec fn inputs_check(checks: Seq<Result<(), Seq<char>>>) -> Result<(), Seq<char>>
    decreases checks.len(),
{
    if checks.len() == 0 {
        Ok(())
    } else {
        match inputs_check(checks.drop_last()) {
            Err(e) => Err(e),
            Ok(_) => match checks.last() {
                Ok(_) => Ok(()),
                Err(e) => Err("Input file "@ + decimal(checks.len()) + " validation failed: "@ + e),
            },
        }
    }
}

/// The outcome of checking a context whose input files, in order, were found
/// as `checks` says: input files first, then the other checks.
pub open spec fn context_check(
    checks: Seq<Result<(), Seq<char>>>,
    tail: Result<(), Seq<char>>,
) -> Result<(), Seq<char>> {
    match inputs_check(checks) {
        Err(e) => Err(e),
        Ok(_) => tail,
    }
}

impl ValidationContext {
    /// An empty context: nothing to check.
    pub fn new() -> (r: Self)
        ensures
            r.input_files@.len() == 0,
            r.output_file is None,
            r.language_code is None,
            r.input_format is None,
            r.output_format is None,
    {
        ValidationContext {
            input_files: Vec::new(),
            output_file: None,
            language_code: None,
            input_format: None,
            output_format: None,
        }
    }

    /// The context with one more input file, checked after the others.
    pub fn with_input_file(self, path: String) -> (r: Self)
        ensures
            r.input_files@ == self.input_files@.push(path),
            r.output_file == self.output_file,
            r.language_code == self.language_code,
            r.input_format == self.input_format,
            r.output_format == self.output_format,
    {
        let mut s = self;
        s.input_files.push(path);
        s
    }

    /// The context with the given output file.
    pub fn with_output_file(self, path: String) -> (r: Self)
        ensures
            r.input_files == self.input_files,
            r.output_file == Some(path),
            r.language_code == self.language_code,
            r.input_format == self.input_format,
            r.output_format == self.output_format,
    {
        let mut s = self;
        s.output_file = Some(path);
        s
    }

    /// The context with the given language code.
    pub fn with_language_code(self, code: String) -> (r: Self)
        ensures
            r.input_files == self.input_files,
            r.output_file == self.output_file,
            r.language_code == Some(code),
            r.input_format == self.input_format,
            r.output_format == self.output_format,
    {
        let mut s = self;
        s.language_code = Some(code);
        s
    }

    /// The context with the given input format name.
    pub fn with_input_format(self, format: String) -> (r: Self)
        ensures
            r.input_files == self.input_files,
            r.output_file == self.output_file,
            r.language_code == self.language_code,
            r.input_format == Some(format),
            r.output_format == self.output_format,
    {
        let mut s = self;
        s.input_format = Some(format);
        s
    }

    /// The context with the given output format name.
    pub fn with_output_format(self, format: String) -> (r: Self)
        ensures
            r.input_files == self.input_files,
            r.output_file == self.output_file,
            r.language_code == self.language_code,
            r.input_format == self.input_format,
            r.output_format == Some(format),
    {
        let mut s = self;
        s.output_format = Some(format);
        s
    }
}

/// Views of the results of checking each input file.
pub open spec fn checks_view(v: Seq<Result<(), String>>) -> Seq<Result<(), Seq<char>>> {
    v.map_values(
        |r: Result<(), String>|
            match r {
                Ok(_) => Ok(()),
                Err(e) => Err(e@),
            },
    )
}

/// The checks that follow the input files.
pub fn validate_context_tail(context: &ValidationContext) -> (r: Result<(), String>)
    ensures
        result_is(
            r,
            context_tail_check(
                opt_str(context.output_file),
                opt_str(context.language_code),
                opt_str(context.input_format),
                opt_str(context.output_format),
            ),
        ),
{
    if let Some(output) = &context.output_file {
        if output.as_str().unicode_len() == 0 {
            return Err(owned("Output file validation failed: Output path cannot be empty"));
        }
    }
    if let Some(lang) = &context.language_code {
        match validate_language_code(lang.as_str()) {
            Ok(()) => {},
            Err(e) => {
                let mut m = owned("Language code validation failed: ");
                push_str(&mut m, e.as_str());
                proof {
                    if lang@.len() == 0 {
                        assert(m@ =~= "Language code validation failed: "@ + "Language code cannot be empty"@);
                    } else {
                        assert(m@ =~= "Language code validation failed: "@ + ("Invalid language code format: "@
                            + lang@ + ". Expected format: 'en' or 'en-US'"@));
                    }
                }
                return Err(m);
            },
        }
    }
    if let Some(format) = &context.input_format {
        if validate_custom_format(format.as_str()).is_err() && validate_standard_format(
            format.as_str(),
        ).is_err() {
            let mut m = owned("Input format validation failed: Unsupported format: ");
            push_str(&mut m, format.as_str());
            return Err(m);
        }
    }
    if let Some(format) = &context.output_format {
        match validate_standard_format(format.as_str()) {
            Ok(()) => {},
            Err(e) => {
                let mut m = owned("Output format validation failed: ");
                push_str(&mut m, e.as_str());
                proof {
                    assert(m@ =~= "Output format validation failed: Unsupported standard format: "@
                        + format@ + ". Supported formats: strings, android, xcstrings, csv, tsv"@) by {
                        reveal_strlit("Output format validation failed: Unsupported standard format: ");
                        reveal_strlit("Output format validation failed: ");
                        reveal_strlit("Unsupported standard format: ");
                    }
                }
                return Err(m);
            },
        }
    }
    Ok(())
}

/// Validates a context given the outcome of checking each input file, in
/// order (see `context_check`).
pub fn validate_context_with(context: &ValidationContext, checks: &Vec<Result<(), String>>) -> (r:
    Result<(), String>)
    ensures
        result_is(
            r,
            context_check(
                checks_view(checks@),
                context_tail_check(
                    opt_str(context.output_file),
                    opt_str(context.language_code),
                    opt_str(context.input_format),
                    opt_str(context.output_format),
                ),
            ),
        ),
{
    let ghost cv = checks_view(checks@);
    let mut i: usize = 0;
    while i < checks.len()
        invariant
            i <= checks.len(),
            cv == checks_view(checks@),
            inputs_check(cv.take(i as int)) == Ok::<(), Seq<char>>(()),
        decreases checks.len() - i,
    {
        proof {
            assert(cv.take(i + 1).drop_last() =~= cv.take(i as int));
            assert(cv.take(i + 1).last() == cv[i as int]);
        }
        match &checks[i] {
            Ok(()) => {},
            Err(e) => {
                let mut m = owned("Input file ");
                let num = decimal_string(i + 1);
                push_str(&mut m, num.as_str());
                push_str(&mut m, " validation failed: ");
                push_str(&mut m, e.as_str());
                proof {
                    lemma_inputs_check_prefix(cv, i as int + 1);
                    assert(m@ =~= "Input file "@ + decimal((i + 1) as nat) + " validation failed: "@ + e@);
                }
                return Err(m);
            },
        }
        i = i + 1;
    }
    proof {
        assert(cv.take(i as int) =~= cv);
    }
    validate_context_tail(context)
}

/// Once an input check fails, the first failure decides.
proof fn lemma_inputs_check_prefix(checks: Seq<Result<(), Seq<char>>>, k: int)
    requires
        0 < k <= checks.len(),
        inputs_check(checks.take(k - 1)) is Ok,
        checks[k - 1] is Err,
    ensures
        inputs_check(checks) == inputs_check(checks.take(k)),
        inputs_check(checks.take(k)) == Err::<(), Seq<char>>(
            "Input file "@ + decimal(k as nat) + " validation failed: "@ + checks[k - 1]->Err_0,
        ),
    decreases checks.len(),
{
    assert(checks.take(k).drop_last() =~= checks.take(k - 1));
    assert(checks.take(k).len() == k);
    assert(checks.take(k).last() == checks[k - 1]);
    if checks.len() == k {
        assert(checks.take(k) =~= checks);
    } else {
        assert(checks.drop_last().take(k) =~= checks.take(k));
        assert(checks.drop_last().take(k - 1) =~= checks.take(k - 1));
        lemma_inputs_check_prefix(checks.drop_last(), k);
    }
}

/// Validates everything a context names: each input file against the disk
/// (see `validate_file_path`), then the output path, language code and format
/// names (see `context_check`).
pub fn validate_context(context: &ValidationContext) -> (r: Result<(), String>)
    ensures
        exists|checks: Seq<Result<(), String>>|
            #![trigger checks_view(checks)]
            checks.len() == context.input_files@.len() && (forall|i: int|
                0 <= i < checks.len() ==> possible_file_check(
                    context.input_files@[i]@,
                    #[trigger] checks[i],
                )) && result_is(
                r,
                context_check(
                    checks_view(checks),
                    context_tail_check(
                        opt_str(context.output_file),
                        opt_str(context.language_code),
                        opt_str(context.input_format),
                        opt_str(context.output_format),
                    ),
                ),
            ),
{
    let mut checks: Vec<Result<(), String>> = Vec::new();
    let mut i: usize = 0;
    while i < context.input_files.len()
        invariant
            i <= context.input_files.len(),
            checks@.len() == i,
            forall|k: int|
                0 <= k < i ==> possible_file_check(context.input_files@[k]@, #[trigger] checks@[k]),
        decreases context.input_files.len() - i,
    {
        let c = validate_file_path(context.input_files[i].as_str());
        checks.push(c);
        i = i + 1;
    }
    let r = validate_context_with(context, &checks);
    proof {
        assert(checks@.len() == context.input_files@.len());
        let c = checks@;
        assert(checks_view(c) == checks_view(checks@));
    }
    r
}

} // verus!
