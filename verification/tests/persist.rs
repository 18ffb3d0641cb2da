use review_engine::config::apply::AppliedConfig;
use review_engine::config::persist::{
    db_disabled_flag, env_fallback, has_encrypted_secrets, is_env_derived_llm, migrated_path, replay_payload,
    strip_env_value, UiStateEnvOverrides, UiStateFile,
};
use review_engine::config::persist::{decrypt_ui_state, encrypt_ui_state};
use review_engine::config::types::{UiConfig, API_KEY_MASK};
use review_engine::models::{GitPlatformConfig, LLMConfig, Temperature};
use review_engine::secrets::SecretError;

const T03: Temperature = Temperature { bits: 0x3E99_999A };

fn entry(provider: &str, model: &str, key: &str, base: &str) -> LLMConfig {
    LLMConfig {
        provider: provider.to_string(),
        model: model.to_string(),
        api_key: key.to_string(),
        api_base: base.to_string(),
        max_tokens: 4096,
        temperature: T03,
        disable_thinking: None,
        disabled: false,
    }
}

fn env_xiaomi_entry() -> LLMConfig {
    entry("xiaomi-mimo", "mimo-v2.5-pro", "tp-REALKEY", "https://token-plan-cn.xiaomimimo.com/v1")
}

#[test]
fn replay_payload_drops_empty_sections() {
    // A file with no credentials at all must produce a payload that cannot
    // clear the startup state.
    let file = UiStateFile::empty();
    let payload = replay_payload(&file, &UiStateEnvOverrides::none());
    assert!(payload.gitlab.is_none(), "empty gitlab section must be dropped");
    assert!(payload.llm.is_none(), "empty llm section must be dropped");
    assert!(payload.git_platforms.is_none());
}

#[test]
fn from_applied_filters_relabeled_env_entry() {
    let mut ui = UiConfig::default();
    ui.llm.openai_api_key = API_KEY_MASK.to_string();
    let applied = AppliedConfig {
        llm: vec![entry(
            "openai",
            "mimo-v2.5-pro",
            "tp-REALKEY",
            "https://token-plan-cn.xiaomimimo.com/v1",
        )],
        git_platforms: vec![],
        gitlab_token: String::new(),
        gitlab_webhook_secret: String::new(),
        gitlab_webhook_signing_secret: String::new(),
        ui,
    };
    let mut env = UiStateEnvOverrides::none();
    env.llm_from_env = true;
    env.llm_entries = vec![env_xiaomi_entry()];

    let file = UiStateFile::from_applied(&applied, Some(&env));
    assert!(file.llm.is_empty(), "secret+base identity beats the provider label");
    assert!(
        file.ui.unwrap().llm.openai_api_key.is_empty(),
        "no mask marker for a key the file does not hold"
    );
}

#[test]
fn db_disabled_flag_parsing() {
    assert!(db_disabled_flag(Some("1")));
    assert!(db_disabled_flag(Some("true")));
    assert!(db_disabled_flag(Some(" TRUE ")));
    assert!(db_disabled_flag(Some("yes")));
    assert!(!db_disabled_flag(None));
    assert!(!db_disabled_flag(Some("")));
    assert!(!db_disabled_flag(Some("0")));
    assert!(!db_disabled_flag(Some("no")));
    assert!(!db_disabled_flag(Some("random")));
}

#[test]
fn env_identity_is_the_credential_not_the_label() {
    let envs = vec![env_xiaomi_entry()];
    // Same key, same base, other label: env-derived.
    let relabeled = entry("openai", "other", "tp-REALKEY", "https://token-plan-cn.xiaomimimo.com/v1");
    assert!(is_env_derived_llm(&relabeled, &envs));
    // Same key, same label, other base: env-derived.
    let moved = entry("xiaomi-mimo", "m", "tp-REALKEY", "https://elsewhere.example/v1");
    assert!(is_env_derived_llm(&moved, &envs));
    // Same label and base, another key: the user's own.
    let own = entry("xiaomi-mimo", "mimo-v2.5-pro", "tp-USER", "https://token-plan-cn.xiaomimimo.com/v1");
    assert!(!is_env_derived_llm(&own, &envs));
    // A keyless env entry matches only a keyless entry with the same triple.
    let keyless_env = vec![entry("ollama", "llama3", "", "http://localhost:11434")];
    assert!(is_env_derived_llm(&entry("ollama", "llama3", "", "http://localhost:11434"), &keyless_env));
    assert!(!is_env_derived_llm(&entry("ollama", "qwen", "", "http://localhost:11434"), &keyless_env));
    assert!(!is_env_derived_llm(&entry("ollama", "llama3", "k", "http://localhost:11434"), &keyless_env));
}

#[test]
fn env_values_are_stripped_before_persisting() {
    let env = "glpat-env".to_string();
    assert_eq!(strip_env_value("glpat-env", Some(&env)), "");
    assert_eq!(strip_env_value("glpat-user", Some(&env)), "glpat-user");
    assert_eq!(strip_env_value("glpat-user", None), "glpat-user");
}

#[test]
fn env_fallback_fills_only_an_empty_value() {
    let env = Some("wh-env".to_string());
    assert_eq!(env_fallback("", &env), "wh-env");
    assert_eq!(env_fallback("wh-file", &env), "wh-file");
    assert_eq!(env_fallback("", &None), "");
}

#[test]
fn migrated_path_appends_the_suffix() {
    assert_eq!(migrated_path("/etc/review/ui-state.toml"), "/etc/review/ui-state.toml.migrated");
}

#[test]
fn encrypt_then_decrypt_state_restores_every_secret() {
    let key = [11u8; 32];
    let mut file = UiStateFile::empty();
    file.llm = vec![entry("openai", "gpt-4o", "sk-live", "https://api.openai.com/v1")];
    file.gitlab.token = "glpat-live".to_string();
    file.gitlab.webhook_secret = String::new();
    assert!(!has_encrypted_secrets(&file));
    let mut enc = encrypt_ui_state(&file, &key).unwrap();
    assert!(has_encrypted_secrets(&enc));
    // Provider keys are written as they are; only the git secrets are sealed.
    assert_eq!(enc.llm[0].api_key, "sk-live");
    assert!(enc.gitlab.token.starts_with("enc:"));
    // Empty secrets stay empty: there is nothing to hide.
    assert_eq!(enc.gitlab.webhook_secret, "");
    decrypt_ui_state(&mut enc, &key).unwrap();
    assert_eq!(enc.llm[0].api_key, "sk-live");
    assert_eq!(enc.gitlab.token, "glpat-live");
    assert!(!has_encrypted_secrets(&enc));
}

#[test]
fn decrypting_state_with_the_wrong_key_fails() {
    let mut file = UiStateFile::empty();
    file.gitlab.token = "glpat-live".to_string();
    let mut enc = encrypt_ui_state(&file, &[1u8; 32]).unwrap();
    assert!(decrypt_ui_state(&mut enc, &[2u8; 32]).is_err());
}

#[test]
fn decrypting_state_reports_the_first_secret_that_fails_and_changes_nothing() {
    let mut file = UiStateFile::empty();
    file.gitlab.token = "glpat-live".to_string();
    let mut enc = encrypt_ui_state(&file, &[1u8; 32]).unwrap();
    // Only the legacy token is sealed: the wrong key fails authentication.
    let sealed = enc.gitlab.token.clone();
    assert_eq!(decrypt_ui_state(&mut enc, &[2u8; 32]), Err(SecretError::Authentication));
    assert_eq!(enc.gitlab.token, sealed, "a failed decryption leaves the state as it was");

    // A platform comes before the legacy secrets: its undecodable token decides.
    enc.git_platforms = vec![GitPlatformConfig {
        id: "00000000-0000-0000-0000-000000000001".to_string(),
        name: "testbed".to_string(),
        platform_type: "gitlab".to_string(),
        base_url: "http://gitlab.internal:8929".to_string(),
        internal_base_url: String::new(),
        token: "enc:!!!".to_string(),
        webhook_secret: String::new(),
        webhook_signing_secret: String::new(),
        allowed_projects: vec![],
    }];
    assert_eq!(decrypt_ui_state(&mut enc, &[2u8; 32]), Err(SecretError::InvalidBase64));
    assert_eq!(enc.git_platforms[0].token, "enc:!!!");
    assert_eq!(enc.gitlab.token, sealed);
}
