//! OAuth client settings and Supabase endpoint selection.
//!
//! The values come from the process environment (`TAURI_*`, then the legacy
//! `VITE_*` names) and from what was embedded at build time; the caller reads
//! them and hands them over, this module decides which one wins.

use vstd::prelude::*;
use crate::telemetry::opt_view;

verus! {

/// Where one OAuth setting can come from, in order of precedence.
pub struct OAuthSources {
    /// The `TAURI_*` environment variable, when set.
    pub tauri_env: Option<String>,
    /// The legacy `VITE_*` environment variable, when set.
    pub vite_env: Option<String>,
    /// The `TAURI_*` value embedded at build time, when there was one.
    pub tauri_build: Option<String>,
    /// The `VITE_*` value embedded at build time, when there was one.
    pub vite_build: Option<String>,
}

/// The first of `values` that is set and not empty.
pub open spec fn first_non_empty_of(values: Seq<Option<String>>) -> Option<Seq<char>>
    decreases values.len(),
{
    if values.len() == 0 {
        None
    } else {
        match values[0] {
            Some(v) => if v@.len() > 0 {
                Some(v@)
            } else {
                first_non_empty_of(values.drop_first())
            },
            None => first_non_empty_of(values.drop_first()),
        }
    }
}

/// The first of `values` that is set and not empty.
pub fn first_non_empty(values: &Vec<Option<String>>) -> (r: Option<String>)
    ensures
        opt_view(r) == first_non_empty_of(values@),
{
    let mut i: usize = 0;
    assert(values@.skip(0) =~= values@);
    while i < values.len()
        invariant
            i <= values.len(),
            first_non_empty_of(values@) == first_non_empty_of(values@.skip(i as int)),
        decreases values.len() - i,
    {
        assert(values@.skip(i as int).drop_first() =~= values@.skip(i + 1));
        assert(values@.skip(i as int)[0] == values@[i as int]);
        match &values[i] {
            Some(v) => {
                if !v.as_str().is_empty() {
                    return Some(v.clone());
                }
            },
            None => {},
        }
        i += 1;
    }
    None
}

/// The environment value that wins: `TAURI_*` before `VITE_*`, empty values skipped.
pub open spec fn env_value(s: OAuthSources) -> Option<Seq<char>> {
    first_non_empty_of(seq![s.tauri_env, s.vite_env])
}

/// A build-time value, kept only when it is not empty.
pub open spec fn non_empty(o: Option<String>) -> Option<Seq<char>> {
    match o {
        Some(v) => if v@.len() > 0 {
            Some(v@)
        } else {
            None
        },
        None => None,
    }
}

/// A client id: the environment, else the build-time `TAURI_*` value, else
/// the build-time `VITE_*` value (taken even when empty), else `default`.
pub open spec fn client_id_of(s: OAuthSources, default: Seq<char>) -> Seq<char> {
    match env_value(s) {
        Some(v) => v,
        None => match s.tauri_build {
            Some(v) => v@,
            None => match s.vite_build {
                Some(v) => v@,
                None => default,
            },
        },
    }
}

/// A client secret: the environment, else the first non-empty build-time value.
pub open spec fn client_secret_of(s: OAuthSources) -> Option<Seq<char>> {
    match env_value(s) {
        Some(v) => Some(v),
        None => match non_empty(s.tauri_build) {
            Some(v) => Some(v),
            None => non_empty(s.vite_build),
        },
    }
}

fn env_first(s: &OAuthSources) -> (r: Option<String>)
    ensures
        opt_view(r) == env_value(*s),
{
    let mut v: Vec<Option<String>> = Vec::new();
    v.push(s.tauri_env.clone());
    v.push(s.vite_env.clone());
    assert(v@ =~= seq![s.tauri_env, s.vite_env]);
    first_non_empty(&v)
}

fn client_id(s: &OAuthSources, default: &str) -> (r: String)
    ensures
        r@ == client_id_of(*s, default@),
{
    match env_first(s) {
        Some(v) => v,
        None => match &s.tauri_build {
            Some(v) => v.clone(),
            None => match &s.vite_build {
                Some(v) => v.clone(),
                None => default.to_owned(),
            },
        },
    }
}

fn non_empty_clone(o: &Option<String>) -> (r: Option<String>)
    ensures
        opt_view(r) == non_empty(*o),
{
    match o {
        Some(v) => if !v.as_str().is_empty() {
            Some(v.clone())
        } else {
            None
        },
        None => None,
    }
}

fn client_secret(s: &OAuthSources) -> (r: Option<String>)
    ensures
        opt_view(r) == client_secret_of(*s),
{
    match env_first(s) {
        Some(v) => Some(v),
        None => match non_empty_clone(&s.tauri_build) {
            Some(v) => Some(v),
            None => non_empty_clone(&s.vite_build),
        },
    }
}

/// The Jira OAuth client id, with a placeholder when none is configured.
pub fn jira_client_id(sources: &OAuthSources) -> (r: String)
    ensures
        r@ == client_id_of(*sources, "YOUR_ATLASSIAN_CLIENT_ID"@),
{
    client_id(sources, "YOUR_ATLASSIAN_CLIENT_ID")
}

/// The Jira OAuth client secret, if configured.
pub fn jira_client_secret(sources: &OAuthSources) -> (r: Option<String>)
    ensures
        opt_view(r) == client_secret_of(*sources),
{
    client_secret(sources)
}

/// The Linear OAuth client id, empty when none is configured.
pub fn linear_client_id(sources: &OAuthSources) -> (r: String)
    ensures
        r@ == client_id_of(*sources, ""@),
{
    client_id(sources, "")
}

/// The Linear OAuth client secret, if configured.
pub fn linear_client_secret(sources: &OAuthSources) -> (r: Option<String>)
    ensures
        opt_view(r) == client_secret_of(*sources),
{
    client_secret(sources)
}

/// The public Supabase project used when the environment names none.
pub const DEFAULT_SUPABASE_URL: &'static str = "https://dzpyrdxelcgfpmcdojvb.supabase.co";

/// The public (publishable) Supabase key used when the environment names none.
pub const DEFAULT_SUPABASE_ANON_KEY: &'static str = "sb_publishable_Ky02yQS5HHpkmrN1DE2yaw_EwENlsPZ";

/// The first of two set variables (even when empty), else `default`.
pub open spec fn env_or(first: Option<String>, second: Option<String>, default: Seq<char>) -> Seq<
    char,
> {
    match first {
        Some(v) => v@,
        None => match second {
            Some(v) => v@,
            None => default,
        },
    }
}

fn env_or_default(first: Option<String>, second: Option<String>, default: &str) -> (r: String)
    ensures
        r@ == env_or(first, second, default@),
{
    match first {
        Some(v) => v,
        None => match second {
            Some(v) => v,
            None => default.to_owned(),
        },
    }
}

/// The Supabase URL: `NEXT_PUBLIC_SUPABASE_URL`, else `VITE_SUPABASE_URL`,
/// else the default project.
pub fn supabase_url(next_public_url: Option<String>, vite_url: Option<String>) -> (r: String)
    ensures
        r@ == env_or(next_public_url, vite_url, DEFAULT_SUPABASE_URL@),
{
    env_or_default(next_public_url, vite_url, DEFAULT_SUPABASE_URL)
}

/// The Supabase anon key: `NEXT_PUBLIC_SUPABASE_ANON_KEY`, else
/// `VITE_SUPABASE_PUBLIC_KEY`, else the default key.
pub fn supabase_anon_key(next_public_key: Option<String>, vite_key: Option<String>) -> (r: String)
    ensures
        r@ == env_or(next_public_key, vite_key, DEFAULT_SUPABASE_ANON_KEY@),
{
    env_or_default(next_public_key, vite_key, DEFAULT_SUPABASE_ANON_KEY)
}

/// Whether an optional setting is present with a non-empty value.
pub open spec fn is_set(o: Option<String>) -> bool {
    o matches Some(v) && v@.len() > 0
}

/// Precedence of the OAuth settings, from the raw sources: a non-empty
/// `TAURI_*` environment value wins; failing it a non-empty legacy `VITE_*`
/// environment value; only when the environment has none does a non-empty
/// build-time value count (`TAURI_*` first); with nothing set the secret is
/// absent and the id is the default.
pub proof fn lemma_oauth_precedence(s: OAuthSources, default: Seq<char>)
    ensures
        is_set(s.tauri_env) ==> client_secret_of(s) == Some(s.tauri_env->0@) && client_id_of(
            s,
            default,
        ) == s.tauri_env->0@,
        !is_set(s.tauri_env) && is_set(s.vite_env) ==> client_secret_of(s) == Some(
            s.vite_env->0@,
        ) && client_id_of(s, default) == s.vite_env->0@,
        !is_set(s.tauri_env) && !is_set(s.vite_env) && is_set(s.tauri_build) ==> client_secret_of(s)
            == Some(s.tauri_build->0@) && client_id_of(s, default) == s.tauri_build->0@,
        !is_set(s.tauri_env) && !is_set(s.vite_env) && !is_set(s.tauri_build) && is_set(
            s.vite_build,
        ) ==> client_secret_of(s) == Some(s.vite_build->0@),
        !is_set(s.tauri_env) && !is_set(s.vite_env) && !is_set(s.tauri_build) && !is_set(
            s.vite_build,
        ) ==> client_secret_of(s) is None,
        !is_set(s.tauri_env) && !is_set(s.vite_env) && s.tauri_build is None && s.vite_build is None
            ==> client_id_of(s, default) == default,
{
    reveal_with_fuel(first_non_empty_of, 3);
    let vals = seq![s.tauri_env, s.vite_env];
    assert(vals[0] == s.tauri_env && vals[1] == s.vite_env);
    assert(vals.drop_first() =~= seq![s.vite_env]);
    assert(vals.drop_first().drop_first() =~= Seq::<Option<String>>::empty());
    assert(first_non_empty_of(seq![s.vite_env]) == non_empty(s.vite_env));
    if !is_set(s.tauri_env) {
        assert(env_value(s) == first_non_empty_of(vals.drop_first()));
    }
}

} // verus!
