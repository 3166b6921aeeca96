//! Choosing the AI provider and model for the commands that call one: from
//! the command line, the configuration file, or the environment, in that
//! order. What the environment holds is read by the caller and handed in.
use crate::config::{configured_names, provider_model_of, CliConfig};
use crate::model::opt_view;
use crate::text::{lower_seq, owned, push_str, str_eq, to_ascii_lowercase, trim, trim_seq};
use vstd::prelude::*;

verus! {

/// A supported AI provider.
#[derive(Debug, Clone, Copy, PartialEq, Eq, Structural)]
pub enum ProviderKind {
    OpenAI,
    Anthropic,
    Gemini,
}

/// The provider that a name stands for: trimmed and lower-cased, one of
/// `openai`, `anthropic`, `gemini`.
pub open spec fn provider_named(s: Seq<char>) -> Option<ProviderKind> {
    let n = lower_seq(trim_seq(s));
    if n == "openai"@ {
        Some(ProviderKind::OpenAI)
    } else if n == "anthropic"@ {
        Some(ProviderKind::Anthropic)
    } else if n == "gemini"@ {
        Some(ProviderKind::Gemini)
    } else {
        None
    }
}

/// The error for a name that stands for no provider.
pub open spec fn unsupported_provider(s: Seq<char>) -> Seq<char> {
    "Unsupported provider '"@ + lower_seq(trim_seq(s))
        + "'. Expected one of: openai, anthropic, gemini"@
}

/// The lower-case name of each provider.
pub open spec fn provider_name(k: ProviderKind) -> Seq<char> {
    match k {
        ProviderKind::OpenAI => "openai"@,
        ProviderKind::Anthropic => "anthropic"@,
        ProviderKind::Gemini => "gemini"@,
    }
}

/// The environment variable that holds each provider's API key.
pub open spec fn provider_key_env(k: ProviderKind) -> Seq<char> {
    match k {
        ProviderKind::OpenAI => "OPENAI_API_KEY"@,
        ProviderKind::Anthropic => "ANTHROPIC_API_KEY"@,
        ProviderKind::Gemini => "GEMINI_API_KEY"@,
    }
}

/// The outcome of reading a provider name.
pub open spec fn parse_provider_result(s: Seq<char>, r: Result<ProviderKind, String>) -> bool {
    match provider_named(s) {
        Some(k) => r == Ok::<ProviderKind, String>(k),
        None => r matches Err(e) && e@ == unsupported_provider(s),
    }
}

impl ProviderKind {
    /// Reads a provider name (see `provider_named`); any other name is
    /// refused with "Unsupported provider '...'. Expected one of: ...".
    pub fn parse(value: &str) -> (r: Result<ProviderKind, String>)
        ensures
            parse_provider_result(value@, r),
    {
        let t = trim(value);
        let n = to_ascii_lowercase(t.as_str());
        if str_eq(n.as_str(), "openai") {
            Ok(ProviderKind::OpenAI)
        } else if str_eq(n.as_str(), "anthropic") {
            Ok(ProviderKind::Anthropic)
        } else if str_eq(n.as_str(), "gemini") {
            Ok(ProviderKind::Gemini)
        } else {
            let mut e = owned("Unsupported provider '");
            push_str(&mut e, n.as_str());
            push_str(&mut e, "'. Expected one of: openai, anthropic, gemini");
            Err(e)
        }
    }

    /// The lower-case name of the provider.
    pub fn display_name(&self) -> (r: &'static str)
        ensures
            r@ == provider_name(*self),
    {
        match self {
            ProviderKind::OpenAI => "openai",
            ProviderKind::Anthropic => "anthropic",
            ProviderKind::Gemini => "gemini",
        }
    }

    /// The environment variable that holds the provider's API key.
    pub fn api_key_env(&self) -> (r: &'static str)
        ensures
            r@ == provider_key_env(*self),
    {
        match self {
            ProviderKind::OpenAI => "OPENAI_API_KEY",
            ProviderKind::Anthropic => "ANTHROPIC_API_KEY",
            ProviderKind::Gemini => "GEMINI_API_KEY",
        }
    }
}

/// Which providers have an API key in the environment, in the order
/// openai, anthropic, gemini.
#[derive(Debug, Clone)]
pub struct KeyPresence {
    pub openai: bool,
    pub anthropic: bool,
    pub gemini: bool,
}

/// The providers whose key is present, in order.
pub open spec fn present_providers(p: KeyPresence) -> Seq<ProviderKind> {
    (if p.openai {
        seq![ProviderKind::OpenAI]
    } else {
        Seq::empty()
    }) + (if p.anthropic {
        seq![ProviderKind::Anthropic]
    } else {
        Seq::empty()
    }) + (if p.gemini {
        seq![ProviderKind::Gemini]
    } else {
        Seq::empty()
    })
}

/// The providers whose key is present, in order.
pub fn available_providers(keys: &KeyPresence) -> (r: Vec<ProviderKind>)
    ensures
        r@ == present_providers(*keys),
{
    let mut v: Vec<ProviderKind> = Vec::new();
    if keys.openai {
        v.push(ProviderKind::OpenAI);
    }
    if keys.anthropic {
        v.push(ProviderKind::Anthropic);
    }
    if keys.gemini {
        v.push(ProviderKind::Gemini);
    }
    proof {
        assert(v@ =~= present_providers(*keys));
    }
    v
}

/// The provider chosen for an AI command: the command line's, else the
/// command section's, else the one provider section of the configuration,
/// else the one provider whose API key is present. Several configured
/// sections, no candidate at all, or several keys are errors.
pub open spec fn provider_choice(
    cli: Option<Seq<char>>,
    config: Option<CliConfig>,
    section: Option<Seq<char>>,
    keys: KeyPresence,
) -> Result<ProviderKind, Seq<char>> {
    let from_name = |s: Seq<char>|
        match provider_named(s) {
            Some(k) => Ok(k),
            None => Err(unsupported_provider(s)),
        };
    if cli is Some {
        from_name(cli->0)
    } else if section is Some {
        from_name(section->0)
    } else if config is Some && configured_names(config->0).len() == 1 {
        from_name(configured_names(config->0)[0])
    } else if config is Some && configured_names(config->0).len() > 1 {
        Err(
            "Multiple provider sections are configured; specify --provider or set translate.provider in langcodec.toml"@,
        )
    } else if present_providers(keys).len() == 1 {
        Ok(present_providers(keys)[0])
    } else if present_providers(keys).len() == 0 {
        Err(
            "--provider is required (or configure exactly one provider section like [openai] in langcodec.toml, set translate.provider, or configure exactly one provider API key)"@,
        )
    } else {
        Err(
            "Multiple provider API keys are configured; specify --provider or configure a single provider section in langcodec.toml"@,
        )
    }
}

/// Whether a result carries the given outcome, the error by view.
pub open spec fn same_outcome<T>(r: Result<T, String>, s: Result<T, Seq<char>>) -> bool {
    match (r, s) {
        (Ok(a), Ok(b)) => a == b,
        (Err(e), Err(f)) => e@ == f,
        _ => false,
    }
}

/// Chooses the provider for an AI command (see `provider_choice`); `keys`
/// says which API keys the environment holds.
pub fn resolve_provider(
    cli: Option<&str>,
    config: Option<&CliConfig>,
    translate_cfg: Option<&str>,
    keys: &KeyPresence,
) -> (r: Result<ProviderKind, String>)
    ensures
        same_outcome(
            r,
            provider_choice(
                match cli {
                    Some(s) => Some(s@),
                    None => None,
                },
                match config {
                    Some(c) => Some(*c),
                    None => None,
                },
                match translate_cfg {
                    Some(s) => Some(s@),
                    None => None,
                },
                *keys,
            ),
        ),
{
    if let Some(value) = cli {
        return ProviderKind::parse(value);
    }
    if let Some(value) = translate_cfg {
        return ProviderKind::parse(value);
    }
    if let Some(config) = config {
        let configured = config.configured_provider_names();
        proof {
            assert(configured@.len() == configured_names(*config).len());
        }
        if configured.len() == 1 {
            proof {
                assert(configured@[0]@ == configured_names(*config)[0]);
            }
            return ProviderKind::parse(configured[0]);
        } else if configured.len() > 1 {
            return Err(
                owned(
                    "Multiple provider sections are configured; specify --provider or set translate.provider in langcodec.toml",
                ),
            );
        }
    }
    let mut available = available_providers(keys);
    if available.len() == 1 {
        Ok(available.remove(0))
    } else if available.len() == 0 {
        Err(
            owned(
                "--provider is required (or configure exactly one provider section like [openai] in langcodec.toml, set translate.provider, or configure exactly one provider API key)",
            ),
        )
    } else {
        Err(
            owned(
                "Multiple provider API keys are configured; specify --provider or configure a single provider section in langcodec.toml",
            ),
        )
    }
}

/// The model chosen for an AI command: the command line's, else the model
/// of the chosen provider's section, else the command section's, else the
/// `MENTRA_MODEL` environment value; without any, an error that names the
/// provider's section.
pub open spec fn model_choice(
    cli: Option<Seq<char>>,
    config: Option<CliConfig>,
    provider: ProviderKind,
    section: Option<Seq<char>>,
    env_model: Option<Seq<char>>,
) -> Result<Seq<char>, Seq<char>> {
    let from_config = match config {
        Some(c) => provider_model_of(c, provider_name(provider)),
        None => None,
    };
    if cli is Some {
        Ok(cli->0)
    } else if from_config is Some {
        Ok(from_config->0)
    } else if section is Some {
        Ok(section->0)
    } else if env_model is Some {
        Ok(env_model->0)
    } else {
        Err(
            "--model is required (or set ["@ + provider_name(provider)
                + "].model in langcodec.toml, set translate.model, or set MENTRA_MODEL)"@,
        )
    }
}

/// Chooses the model for an AI command (see `model_choice`); `env_model`
/// is what `MENTRA_MODEL` holds, if set.
pub fn resolve_model(
    cli: Option<&str>,
    config: Option<&CliConfig>,
    provider: &ProviderKind,
    translate_cfg: Option<&str>,
    env_model: Option<String>,
) -> (r: Result<String, String>)
    ensures
        match model_choice(
            match cli {
                Some(s) => Some(s@),
                None => None,
            },
            match config {
                Some(c) => Some(*c),
                None => None,
            },
            *provider,
            match translate_cfg {
                Some(s) => Some(s@),
                None => None,
            },
            opt_view(env_model),
        ) {
            Ok(m) => r matches Ok(x) && x@ == m,
            Err(e) => r matches Err(x) && x@ == e,
        },
{
    if let Some(m) = cli {
        return Ok(owned(m));
    }
    if let Some(c) = config {
        if let Some(m) = c.provider_model(provider.display_name()) {
            return Ok(owned(m));
        }
    }
    if let Some(m) = translate_cfg {
        return Ok(owned(m));
    }
    if let Some(m) = env_model {
        return Ok(m);
    }
    let mut e = owned("--model is required (or set [");
    push_str(&mut e, provider.display_name());
    push_str(&mut e, "].model in langcodec.toml, set translate.model, or set MENTRA_MODEL)");
    Err(e)
}

/// The API key of a provider, from what its environment variable holds; an
/// error names the variable and the provider when it is unset.
pub fn read_api_key(kind: &ProviderKind, env_value: Option<String>) -> (r: Result<String, String>)
    ensures
        match env_value {
            Some(v) => r matches Ok(x) && x@ == v@,
            None => r matches Err(e) && e@ == "Missing "@ + provider_key_env(*kind)
                + " environment variable for "@ + provider_name(*kind) + " provider"@,
        },
{
    match env_value {
        Some(v) => Ok(v),
        None => {
            let mut e = owned("Missing ");
            push_str(&mut e, kind.api_key_env());
            push_str(&mut e, " environment variable for ");
            push_str(&mut e, kind.display_name());
            push_str(&mut e, " provider");
            Err(e)
        },
    }
}

} // verus!
