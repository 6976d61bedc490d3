//! Choosing the API key.
use vstd::prelude::*;
use crate::text::{lemma_trimmed_idempotent, opt_view, str_eq, trim, trimmed};

verus! {

/// Where the resolved API key came from, for diagnostics.
#[derive(Debug, Clone, Copy, PartialEq, Eq, Structural)]
pub enum KeySource {
    Flag,
    Env,
    /// The API key recorded by an API-key login of the Codex CLI in
    /// `~/.codex/auth.json`.
    CodexAuth,
}

/// How a key source is named in messages.
pub open spec fn key_source_text(s: KeySource) -> Seq<char> {
    match s {
        KeySource::Flag => "--api-key flag"@,
        KeySource::Env => "OPENAI_API_KEY environment variable"@,
        KeySource::CodexAuth => "~/.codex/auth.json"@,
    }
}

impl KeySource {
    /// How this source is named in messages.
    pub fn describe(&self) -> (r: String)
        ensures
            r@ == key_source_text(*self),
    {
        match self {
            KeySource::Flag => "--api-key flag".to_owned(),
            KeySource::Env => "OPENAI_API_KEY environment variable".to_owned(),
            KeySource::CodexAuth => "~/.codex/auth.json".to_owned(),
        }
    }
}

/// A candidate key that counts: present and not blank once trimmed.
pub open spec fn usable(k: Option<&str>) -> bool {
    k is Some && trimmed(k->0@).len() > 0
}

/// Whether a Codex CLI login of the recorded `auth_mode` is an API-key login:
/// files that record no mode predate the field and hold API-key logins only.
pub open spec fn is_api_key_login(auth_mode: Option<Seq<char>>) -> bool {
    match auth_mode {
        Some(m) => m == "apikey"@,
        None => true,
    }
}

/// The key that a Codex CLI login file offers: its `OPENAI_API_KEY` entry,
/// and only for an API-key login.
pub fn codex_login_key(auth_mode: Option<String>, key: Option<String>) -> (r: Option<String>)
    ensures
        is_api_key_login(opt_view(auth_mode)) ==> opt_view(r) == opt_view(key),
        !is_api_key_login(opt_view(auth_mode)) ==> r is None,
{
    let api_key_login = match &auth_mode {
        Some(m) => str_eq(m.as_str(), "apikey"),
        None => true,
    };
    if api_key_login {
        key
    } else {
        None
    }
}

/// Resolves the API key, in order of precedence: the `--api-key` flag, the
/// value of the `OPENAI_API_KEY` environment variable (`env_key`), then the
/// key of a Codex CLI API-key login read from `~/.codex/auth.json`
/// (`codex_key`). Each is trimmed and taken only when something is left.
pub fn resolve_api_key(flag: Option<&str>, env_key: Option<&str>, codex_key: Option<&str>) -> (r:
    Option<(String, KeySource)>)
    ensures
        usable(flag) ==> r is Some && (r->0).0@ == trimmed(flag->0@) && (r->0).1 == KeySource::Flag,
        !usable(flag) && usable(env_key) ==> r is Some && (r->0).0@ == trimmed(env_key->0@)
            && (r->0).1 == KeySource::Env,
        !usable(flag) && !usable(env_key) && usable(codex_key) ==> r is Some && (r->0).0@
            == trimmed(codex_key->0@) && (r->0).1 == KeySource::CodexAuth,
        !usable(flag) && !usable(env_key) && !usable(codex_key) ==> r is None,
        r matches Some((k, _)) ==> k@.len() > 0 && trimmed(k@) == k@,
{
    if let Some(f) = flag {
        let k = trim(f);
        if !k.as_str().is_empty() {
            proof {
                lemma_trimmed_idempotent(f@);
            }
            return Some((k, KeySource::Flag));
        }
    }
    if let Some(e) = env_key {
        let k = trim(e);
        if !k.as_str().is_empty() {
            proof {
                lemma_trimmed_idempotent(e@);
            }
            return Some((k, KeySource::Env));
        }
    }
    if let Some(c) = codex_key {
        let k = trim(c);
        if !k.as_str().is_empty() {
            proof {
                lemma_trimmed_idempotent(c@);
            }
            return Some((k, KeySource::CodexAuth));
        }
    }
    None
}

} // verus!
