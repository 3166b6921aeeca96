//! The project configuration (`langcodec.toml`) and how its sections combine:
//! provider sections, the shared `[ai]` defaults, and the translate and
//! annotate sections, where nested `input`/`output` tables take precedence
//! over the flat keys.
use crate::model::opt_view;
use crate::paths::{is_absolute, is_absolute_path, join_path, joined_path, parent_path, path_parent};
use crate::text::{lower_seq, owned, str_eq, to_ascii_lowercase, trim, trim_seq};
use vstd::prelude::*;

verus! {

/// The whole configuration file.
#[derive(Debug, Clone, Default)]
pub struct CliConfig {
    pub ai: AiConfig,
    pub openai: ProviderConfig,
    pub anthropic: ProviderConfig,
    pub gemini: ProviderConfig,
    pub translate: TranslateConfig,
    pub annotate: AnnotateConfig,
}

/// The shared `[ai]` defaults.
#[derive(Debug, Clone, Default)]
pub struct AiConfig {
    pub provider: Option<String>,
    pub model: Option<String>,
}

/// One provider section such as `[openai]`.
#[derive(Debug, Clone, Default)]
pub struct ProviderConfig {
    pub model: Option<String>,
}

/// The `[translate]` section.
#[derive(Debug, Clone, Default)]
pub struct TranslateConfig {
    pub source: Option<String>,
    pub sources: Option<Vec<String>>,
    pub target: Option<String>,
    pub provider: Option<String>,
    pub model: Option<String>,
    pub source_lang: Option<String>,
    pub target_lang: Option<Vec<String>>,
    pub concurrency: Option<usize>,
    pub status: Option<Vec<String>>,
    pub output_status: Option<String>,
    pub input: TranslateInputConfig,
    pub output: Option<TranslateOutputScope>,
}

/// The `[translate.input]` table.
#[derive(Debug, Clone, Default)]
pub struct TranslateInputConfig {
    pub source: Option<String>,
    pub sources: Option<Vec<String>>,
    pub lang: Option<String>,
    pub status: Option<Vec<String>>,
}

/// `translate.output`: either a plain path or a table.
#[derive(Debug, Clone)]
pub enum TranslateOutputScope {
    Path(String),
    Config(TranslateOutputConfig),
}

/// The `[translate.output]` table.
#[derive(Debug, Clone, Default)]
pub struct TranslateOutputConfig {
    pub target: Option<String>,
    pub path: Option<String>,
    pub lang: Option<Vec<String>>,
    pub status: Option<String>,
}

/// The `[annotate]` section.
#[derive(Debug, Clone, Default)]
pub struct AnnotateConfig {
    pub input: Option<String>,
    pub inputs: Option<Vec<String>>,
    pub source_roots: Option<Vec<String>>,
    pub output: Option<String>,
    pub source_lang: Option<String>,
    pub concurrency: Option<usize>,
}

/// A configuration together with the file it was read from.
#[derive(Debug, Clone)]
pub struct LoadedConfig {
    pub path: String,
    pub data: CliConfig,
}

/// The first of two optional values that is present.
pub open spec fn or_else<T>(a: Option<T>, b: Option<T>) -> Option<T> {
    match a {
        Some(x) => Some(x),
        None => b,
    }
}

fn as_str_opt(o: &Option<String>) -> (r: Option<&str>)
    ensures
        match r {
            Some(s) => o matches Some(t) && s@ == t@,
            None => o is None,
        },
{
    match o {
        Some(s) => Some(s.as_str()),
        None => None,
    }
}

/// The view of an optional borrowed string.
pub open spec fn opt_str_view(o: Option<&str>) -> Option<Seq<char>> {
    match o {
        Some(s) => Some(s@),
        None => None,
    }
}

/// The model named by the section of `provider` (trimmed, case ignored).
pub open spec fn provider_model_of(c: CliConfig, provider: Seq<char>) -> Option<Seq<char>> {
    let p = lower_seq(trim_seq(provider));
    if p == "openai"@ {
        opt_view(c.openai.model)
    } else if p == "anthropic"@ {
        opt_view(c.anthropic.model)
    } else if p == "gemini"@ {
        opt_view(c.gemini.model)
    } else {
        None
    }
}

/// The provider sections that name a model, in the order openai, anthropic,
/// gemini.
pub open spec fn configured_names(c: CliConfig) -> Seq<Seq<char>> {
    let a = if c.openai.model is Some {
        seq!["openai"@]
    } else {
        Seq::empty()
    };
    let b = if c.anthropic.model is Some {
        seq!["anthropic"@]
    } else {
        Seq::empty()
    };
    let g = if c.gemini.model is Some {
        seq!["gemini"@]
    } else {
        Seq::empty()
    };
    a + b + g
}

impl LoadedConfig {
    /// The directory that holds the configuration file.
    pub fn config_dir(&self) -> (r: Option<String>)
        ensures
            opt_view(r) == parent_path(self.path@),
    {
        path_parent(self.path.as_str())
    }
}

impl CliConfig {
    /// The model configured in the section of `provider`, if any.
    pub fn provider_model(&self, provider: &str) -> (r: Option<&str>)
        ensures
            opt_str_view(r) == provider_model_of(*self, provider@),
    {
        let t = trim(provider);
        let p = to_ascii_lowercase(t.as_str());
        if str_eq(p.as_str(), "openai") {
            as_str_opt(&self.openai.model)
        } else if str_eq(p.as_str(), "anthropic") {
            as_str_opt(&self.anthropic.model)
        } else if str_eq(p.as_str(), "gemini") {
            as_str_opt(&self.gemini.model)
        } else {
            None
        }
    }

    /// The provider sections that name a model.
    pub fn configured_provider_names(&self) -> (r: Vec<&'static str>)
        ensures
            r@.map_values(|s: &'static str| s@) == configured_names(*self),
    {
        let mut names: Vec<&'static str> = Vec::new();
        if self.openai.model.is_some() {
            names.push("openai");
        }
        if self.anthropic.model.is_some() {
            names.push("anthropic");
        }
        if self.gemini.model.is_some() {
            names.push("gemini");
        }
        proof {
            assert(names@.map_values(|s: &'static str| s@) =~= configured_names(*self));
        }
        names
    }

    /// The provider named in the shared `[ai]` section.
    pub fn shared_provider(&self) -> (r: Option<&str>)
        ensures
            opt_str_view(r) == opt_view(self.ai.provider),
    {
        as_str_opt(&self.ai.provider)
    }

    /// The model named in the shared `[ai]` section.
    pub fn shared_model(&self) -> (r: Option<&str>)
        ensures
            opt_str_view(r) == opt_view(self.ai.model),
    {
        as_str_opt(&self.ai.model)
    }
}

/// The output table of `translate.output`, when it is a table.
pub open spec fn output_table(c: TranslateConfig) -> Option<TranslateOutputConfig> {
    match c.output {
        Some(TranslateOutputScope::Config(t)) => Some(t),
        _ => None,
    }
}

impl TranslateConfig {
    /// The source file: `input.source`, else `source`.
    pub fn resolved_source(&self) -> (r: Option<&str>)
        ensures
            opt_str_view(r) == or_else(opt_view(self.input.source), opt_view(self.source)),
    {
        match &self.input.source {
            Some(s) => Some(s.as_str()),
            None => as_str_opt(&self.source),
        }
    }

    /// The source files: `input.sources`, else `sources`.
    pub fn resolved_sources(&self) -> (r: Option<&Vec<String>>)
        ensures
            r == or_else(
                match self.input.sources {
                    Some(v) => Some(&v),
                    None => None,
                },
                match self.sources {
                    Some(v) => Some(&v),
                    None => None,
                },
            ),
    {
        match &self.input.sources {
            Some(v) => Some(v),
            None => match &self.sources {
                Some(v) => Some(v),
                None => None,
            },
        }
    }

    /// The source language: `input.lang`, else `source_lang`.
    pub fn resolved_source_lang(&self) -> (r: Option<&str>)
        ensures
            opt_str_view(r) == or_else(opt_view(self.input.lang), opt_view(self.source_lang)),
    {
        match &self.input.lang {
            Some(s) => Some(s.as_str()),
            None => as_str_opt(&self.source_lang),
        }
    }

    /// The statuses to translate: `input.status`, else `status`.
    pub fn resolved_filter_status(&self) -> (r: Option<&Vec<String>>)
        ensures
            r == or_else(
                match self.input.status {
                    Some(v) => Some(&v),
                    None => None,
                },
                match self.status {
                    Some(v) => Some(&v),
                    None => None,
                },
            ),
    {
        match &self.input.status {
            Some(v) => Some(v),
            None => match &self.status {
                Some(v) => Some(v),
                None => None,
            },
        }
    }

    /// The target file: the output table's `target`, else `target`.
    pub fn resolved_target(&self) -> (r: Option<&str>)
        ensures
            opt_str_view(r) == match output_table(*self) {
                Some(t) => or_else(opt_view(t.target), opt_view(self.target)),
                None => opt_view(self.target),
            },
    {
        match &self.output {
            Some(TranslateOutputScope::Config(config)) => match &config.target {
                Some(s) => Some(s.as_str()),
                None => as_str_opt(&self.target),
            },
            _ => as_str_opt(&self.target),
        }
    }

    /// The output path: `output` itself when it is a path, the output
    /// table's `path` when it is a table, none otherwise.
    pub fn resolved_output_path(&self) -> (r: Option<&str>)
        ensures
            opt_str_view(r) == match self.output {
                Some(TranslateOutputScope::Path(p)) => Some(p@),
                Some(TranslateOutputScope::Config(t)) => opt_view(t.path),
                None => None,
            },
    {
        match &self.output {
            Some(TranslateOutputScope::Path(path)) => Some(path.as_str()),
            Some(TranslateOutputScope::Config(config)) => as_str_opt(&config.path),
            None => None,
        }
    }

    /// The target languages: the output table's `lang`, else `target_lang`.
    pub fn resolved_target_langs(&self) -> (r: Option<&Vec<String>>)
        ensures
            r == match output_table(*self) {
                Some(t) => or_else(
                    match t.lang {
                        Some(v) => Some(&v),
                        None => None,
                    },
                    match self.target_lang {
                        Some(v) => Some(&v),
                        None => None,
                    },
                ),
                None => match self.target_lang {
                    Some(v) => Some(&v),
                    None => None,
                },
            },
    {
        match &self.output {
            Some(TranslateOutputScope::Config(config)) => match &config.lang {
                Some(v) => Some(v),
                None => match &self.target_lang {
                    Some(v) => Some(v),
                    None => None,
                },
            },
            _ => match &self.target_lang {
                Some(v) => Some(v),
                None => None,
            },
        }
    }

    /// The status written on translated entries: the output table's
    /// `status`, else `output_status`.
    pub fn resolved_output_status(&self) -> (r: Option<&str>)
        ensures
            opt_str_view(r) == match output_table(*self) {
                Some(t) => or_else(opt_view(t.status), opt_view(self.output_status)),
                None => opt_view(self.output_status),
            },
    {
        match &self.output {
            Some(TranslateOutputScope::Config(config)) => match &config.status {
                Some(s) => Some(s.as_str()),
                None => as_str_opt(&self.output_status),
            },
            _ => as_str_opt(&self.output_status),
        }
    }
}

/// A path from the configuration file, made relative to the configuration's
/// directory unless it is absolute.
pub open spec fn config_relative(config_dir: Option<Seq<char>>, path: Seq<char>) -> Seq<char> {
    if is_absolute_path(path) {
        path
    } else {
        match config_dir {
            Some(dir) => joined_path(dir, path),
            None => path,
        }
    }
}

/// Resolves a path written in the configuration file against the
/// configuration's directory (see `config_relative`).
pub fn resolve_config_relative_path(config_dir: Option<&str>, path: &str) -> (r: String)
    ensures
        r@ == config_relative(opt_str_view(config_dir), path@),
{
    if is_absolute(path) {
        return owned(path);
    }
    match config_dir {
        Some(dir) => join_path(dir, path),
        None => owned(path),
    }
}

} // verus!
