use flowsight_agent::config::{
    first_non_empty, jira_client_id, jira_client_secret, linear_client_id, linear_client_secret,
    supabase_anon_key, supabase_url, OAuthSources,
};

fn sources(
    tauri_env: Option<&str>,
    vite_env: Option<&str>,
    tauri_build: Option<&str>,
    vite_build: Option<&str>,
) -> OAuthSources {
    OAuthSources {
        tauri_env: tauri_env.map(str::to_string),
        vite_env: vite_env.map(str::to_string),
        tauri_build: tauri_build.map(str::to_string),
        vite_build: vite_build.map(str::to_string),
    }
}

#[test]
fn jira_client_id_prefers_tauri_env() {
    let s = sources(Some("from-tauri"), Some("from-vite"), None, None);
    assert_eq!(jira_client_id(&s), "from-tauri");
}

#[test]
fn linear_client_id_falls_back_to_vite() {
    let s = sources(None, Some("linear-vite"), None, None);
    assert_eq!(linear_client_id(&s), "linear-vite");
}

#[test]
fn respects_env_overrides() {
    assert_eq!(
        supabase_url(Some("https://custom.supabase.co".to_string()), None),
        "https://custom.supabase.co"
    );
    assert_eq!(supabase_anon_key(Some("pk-test".to_string()), None), "pk-test");
}

#[test]
fn defaults_when_supabase_env_unset() {
    assert!(supabase_url(None, None).contains("dzpyrdxelcgfpmcdojvb"));
    assert!(supabase_anon_key(None, None).starts_with("sb_publishable_"));
}

#[test]
fn empty_env_values_are_skipped() {
    let s = sources(Some(""), Some("vite"), Some("build"), None);
    assert_eq!(jira_client_id(&s), "vite");
    let s = sources(Some(""), Some(""), None, None);
    assert_eq!(jira_client_id(&s), "YOUR_ATLASSIAN_CLIENT_ID");
    assert_eq!(linear_client_id(&s), "");
}

#[test]
fn build_time_values_come_after_the_environment() {
    let s = sources(None, None, Some("built-tauri"), Some("built-vite"));
    assert_eq!(jira_client_id(&s), "built-tauri");
    let s = sources(None, None, None, Some("built-vite"));
    assert_eq!(linear_client_id(&s), "built-vite");
    let s = sources(None, None, Some(""), Some("x"));
    assert_eq!(jira_client_id(&s), "");
}

#[test]
fn secrets_skip_empty_build_values() {
    let s = sources(None, None, Some(""), Some("vite-secret"));
    assert_eq!(jira_client_secret(&s).as_deref(), Some("vite-secret"));
    let s = sources(None, None, Some(""), Some(""));
    assert_eq!(linear_client_secret(&s), None);
    let s = sources(Some("env-secret"), None, Some("b"), None);
    assert_eq!(linear_client_secret(&s).as_deref(), Some("env-secret"));
}

#[test]
fn supabase_env_set_but_empty_is_kept() {
    assert_eq!(supabase_url(Some(String::new()), Some("x".to_string())), "");
    assert_eq!(supabase_url(None, Some("https://v".to_string())), "https://v");
}

#[test]
fn first_non_empty_picks_first_usable() {
    let v = vec![None, Some(String::new()), Some("a".to_string()), Some("b".to_string())];
    assert_eq!(first_non_empty(&v).as_deref(), Some("a"));
    assert_eq!(first_non_empty(&vec![None, Some(String::new())]), None);
}
