use review_engine::config::apply::{apply_gitlab_runtime_config, mask_or_empty, GitLabRuntimeConfig};
use review_engine::config::is_blank_or_masked;
use review_engine::config::types::{UiGitLabConfig, API_KEY_MASK};

fn runtime_with(token: &str) -> GitLabRuntimeConfig {
    GitLabRuntimeConfig {
        token: token.to_string(),
        webhook_secret: String::new(),
        signing_secret: None,
        signing_key: None,
    }
}

#[test]
fn config_is_blank_or_masked_treats_empty_and_mask_as_keep() {
    assert!(is_blank_or_masked(""));
    assert!(is_blank_or_masked(API_KEY_MASK));
    assert!(!is_blank_or_masked("sk-real"));
}

#[test]
fn tests_is_blank_or_masked_treats_empty_and_mask_as_keep() {
    assert!(is_blank_or_masked(""));
    assert!(is_blank_or_masked(API_KEY_MASK));
    assert!(!is_blank_or_masked("sk-real"));
}

#[test]
fn config_gitlab_runtime_token_resolution_keeps_on_mask() {
    let mut rt = runtime_with("glpat-stored");
    let mut ui = UiGitLabConfig::default();
    ui.api_token = API_KEY_MASK.to_string();
    let resolved = apply_gitlab_runtime_config(&mut rt, &ui);
    assert_eq!(resolved, "glpat-stored");
    assert_eq!(rt.token, "glpat-stored");
}

#[test]
fn config_gitlab_runtime_token_resolution_clears_on_empty() {
    let mut rt = runtime_with("glpat-stored");
    let ui = UiGitLabConfig::default();
    let resolved = apply_gitlab_runtime_config(&mut rt, &ui);
    assert!(resolved.is_empty());
    assert!(rt.token.is_empty());
}

#[test]
fn config_gitlab_runtime_token_resolution_replaces_on_real_value() {
    let mut rt = runtime_with("glpat-old");
    let mut ui = UiGitLabConfig::default();
    ui.api_token = "glpat-new".to_string();
    let resolved = apply_gitlab_runtime_config(&mut rt, &ui);
    assert_eq!(resolved, "glpat-new");
    assert_eq!(rt.token, "glpat-new");
}

#[test]
fn tests_gitlab_runtime_token_resolution_keeps_on_mask() {
    let mut rt = runtime_with("glpat-stored");
    let mut ui = UiGitLabConfig::default();
    ui.api_token = API_KEY_MASK.to_string();
    let resolved = apply_gitlab_runtime_config(&mut rt, &ui);
    assert_eq!(resolved, "glpat-stored");
    assert_eq!(rt.token, "glpat-stored");
}

#[test]
fn tests_gitlab_runtime_token_resolution_clears_on_empty() {
    let mut rt = runtime_with("glpat-stored");
    let ui = UiGitLabConfig::default();
    let resolved = apply_gitlab_runtime_config(&mut rt, &ui);
    assert!(resolved.is_empty());
    assert!(rt.token.is_empty());
}

#[test]
fn tests_gitlab_runtime_token_resolution_replaces_on_real_value() {
    let mut rt = runtime_with("glpat-old");
    let mut ui = UiGitLabConfig::default();
    ui.api_token = "glpat-new".to_string();
    let resolved = apply_gitlab_runtime_config(&mut rt, &ui);
    assert_eq!(resolved, "glpat-new");
    assert_eq!(rt.token, "glpat-new");
}

#[test]
fn webhook_secrets_are_kept_when_blank_and_replaced_when_given() {
    let mut rt = runtime_with("t");
    rt.webhook_secret = "old-secret".to_string();
    let mut ui = UiGitLabConfig::default();
    ui.api_token = API_KEY_MASK.to_string();
    apply_gitlab_runtime_config(&mut rt, &ui);
    assert_eq!(rt.webhook_secret, "old-secret");
    assert_eq!(rt.signing_secret, None);
    ui.webhook_secret = "new-secret".to_string();
    apply_gitlab_runtime_config(&mut rt, &ui);
    assert_eq!(rt.webhook_secret, "new-secret");
}

#[test]
fn whsec_signing_secret_carries_its_decoded_key() {
    let mut rt = runtime_with("t");
    let mut ui = UiGitLabConfig::default();
    // "aGVsbG8=" is base64 for "hello"
    ui.webhook_signing_secret = "whsec_aGVsbG8=".to_string();
    apply_gitlab_runtime_config(&mut rt, &ui);
    assert_eq!(rt.signing_secret.as_deref(), Some("whsec_aGVsbG8="));
    assert_eq!(rt.signing_key, Some(b"hello".to_vec()));
    // A secret without the prefix carries no key.
    ui.webhook_signing_secret = "plain-secret".to_string();
    apply_gitlab_runtime_config(&mut rt, &ui);
    assert_eq!(rt.signing_secret.as_deref(), Some("plain-secret"));
    assert_eq!(rt.signing_key, None);
}

#[test]
fn mask_or_empty_masks_only_set_secrets() {
    assert_eq!(mask_or_empty(""), "");
    assert_eq!(mask_or_empty("glpat-x"), API_KEY_MASK);
}
