use review_engine::config::apply::{ConfigState, GitLabRuntimeConfig};
use review_engine::config::db_overlay::apply_db_overrides;
use review_engine::config::helpers::{sorted_model_ids, ModelsRequest, TestConfigRequest, TestGitPlatformRequest};
use review_engine::config::persist::{load_and_apply_ui_state, PersistedGitlabConfig, UiStateEnvOverrides, UiStateFile};
use review_engine::config::types::{UiConfig, API_KEY_MASK};
use review_engine::git_health::GitHealthStore;
use review_engine::llm_health::LlmHealthStore;
use review_engine::models::{AppConfig, GitPlatformConfig, LLMConfig, Temperature};

const T07: Temperature = Temperature { bits: 0x3F33_3333 };

fn card(provider: &str, model: &str, key: &str, base: &str) -> LLMConfig {
    LLMConfig {
        provider: provider.to_string(),
        model: model.to_string(),
        api_key: key.to_string(),
        api_base: base.to_string(),
        max_tokens: 4096,
        temperature: T07,
        disable_thinking: None,
        disabled: false,
    }
}

fn platform(name: &str, base_url: &str, internal: &str, token: &str) -> GitPlatformConfig {
    GitPlatformConfig {
        id: format!("00000000-0000-0000-0000-00000000000{}", name.len()),
        name: name.to_string(),
        platform_type: "gitlab".to_string(),
        base_url: base_url.to_string(),
        internal_base_url: internal.to_string(),
        token: token.to_string(),
        webhook_secret: String::new(),
        webhook_signing_secret: String::new(),
        allowed_projects: vec![],
    }
}

fn file_config() -> AppConfig {
    AppConfig {
        llm: vec![card("openai", "gpt-4o", "sk-from-toml", "https://api.openai.com/v1")],
        max_concurrent_llm_calls: Some(2),
        max_team_size: Some(2),
        report_aggregated: false,
    }
}

fn no_gitlab() -> PersistedGitlabConfig {
    PersistedGitlabConfig::empty()
}

#[test]
fn a_connection_test_probes_the_submitted_config() {
    let req = TestConfigRequest {
        provider: "deepseek".to_string(),
        model: "deepseek-chat".to_string(),
        api_key: "sk-d".to_string(),
        api_base: "https://api.deepseek.com".to_string(),
    };
    let c = req.probe_config();
    assert_eq!((c.provider.as_str(), c.model.as_str(), c.api_key.as_str()), ("deepseek", "deepseek-chat", "sk-d"));
    assert_eq!(c.max_tokens, 4096);
    assert_eq!(c.temperature.bits, 0x3E99_999A);
    assert!(!c.disabled);
}

#[test]
fn a_model_listing_falls_back_to_the_server_key() {
    let configs = vec![card("openai", "m", "sk-real-server-key", "http://127.0.0.1:9999")];
    for key in [API_KEY_MASK, ""] {
        let req = ModelsRequest { api_base: "http://127.0.0.1:9999".to_string(), api_key: key.to_string() };
        assert_eq!(req.target(&configs), ("http://127.0.0.1:9999".to_string(), "sk-real-server-key".to_string()));
    }
    // An explicit key is used unchanged.
    let req = ModelsRequest { api_base: "http://127.0.0.1:9999".to_string(), api_key: "sk-explicit".to_string() };
    assert_eq!(req.target(&configs).1, "sk-explicit");
    // No matching config: the masked key stays as it is.
    let req = ModelsRequest { api_base: "http://other:1".to_string(), api_key: API_KEY_MASK.to_string() };
    assert_eq!(req.target(&configs).1, API_KEY_MASK);
    // No base given: the OpenAI default.
    let req = ModelsRequest { api_base: String::new(), api_key: "k".to_string() };
    assert_eq!(req.target(&configs).0, "https://api.openai.com/v1");
}

#[test]
fn a_git_platform_test_uses_the_stored_token_and_internal_url() {
    let stored = vec![platform("gitlab", "https://gitlab.example", "http://gitlab.internal:8929/", "glpat-stored")];
    let req = TestGitPlatformRequest {
        base_url: " https://gitlab.example/ ".to_string(),
        token: API_KEY_MASK.to_string(),
        id: String::new(),
        internal_base_url: String::new(),
    };
    let plan = req.plan(&stored).unwrap();
    assert_eq!(plan.base, "https://gitlab.example");
    assert_eq!(plan.probe_target, "http://gitlab.internal:8929");
    assert!(!plan.target_is_base);
    assert_eq!(plan.token, "glpat-stored", "a masked token resolves to the stored one");

    // An explicit token and internal URL are used as submitted.
    let req = TestGitPlatformRequest {
        base_url: "https://gitlab.example".to_string(),
        token: "glpat-candidate".to_string(),
        id: String::new(),
        internal_base_url: "http://10.0.0.5:8929".to_string(),
    };
    let plan = req.plan(&stored).unwrap();
    assert_eq!(plan.probe_target, "http://10.0.0.5:8929");
    assert_eq!(plan.token, "glpat-candidate");

    // Unknown entry: the base URL itself is probed.
    let req = TestGitPlatformRequest {
        base_url: "https://new.example".to_string(),
        token: String::new(),
        id: String::new(),
        internal_base_url: String::new(),
    };
    let plan = req.plan(&stored).unwrap();
    assert!(plan.target_is_base);
    assert_eq!(plan.probe_target, "https://new.example");
    assert_eq!(plan.token, "");

    // A blank base URL is refused.
    let req = TestGitPlatformRequest {
        base_url: "  / ".to_string(),
        token: String::new(),
        id: String::new(),
        internal_base_url: String::new(),
    };
    assert_eq!(req.plan(&stored).unwrap_err(), "baseUrl is required");
}

#[test]
fn an_empty_database_keeps_the_file_result() {
    let mut config = file_config();
    let applied = apply_db_overrides(&mut config, None, vec![], vec![], no_gitlab(), 0, &UiStateEnvOverrides::none());
    assert!(applied.is_empty(), "an empty database contributes nothing");
    assert_eq!(config.llm.len(), 1);
    assert_eq!(config.llm[0].api_key, "sk-from-toml");
    assert_eq!(config.max_concurrent_llm_calls, Some(2));
    assert_eq!(config.max_team_size, Some(2));
    assert!(!config.report_aggregated);
}

#[test]
fn database_rows_override_the_file_values() {
    let mut config = file_config();
    let mut ui = UiConfig::default();
    ui.rules.min_score = 91;
    ui.advanced.max_concurrent_reviews = 9;
    ui.advanced.log_level = "debug".to_string();
    ui.aggregated = Some(true);
    let mut db_card = card("anthropic", "big-model-3", "sk-db", "https://api.anthropic.com");
    db_card.disable_thinking = Some(true);
    let gitlab = PersistedGitlabConfig {
        token: "glpat-legacy-db".to_string(),
        webhook_secret: "wh-legacy-db".to_string(),
        webhook_signing_secret: String::new(),
    };
    let applied = apply_db_overrides(
        &mut config,
        Some(ui),
        vec![db_card],
        vec![platform("testbed", "https://gitlab.example", "", "glpat-db")],
        gitlab,
        1,
        &UiStateEnvOverrides::none(),
    );
    assert!(!applied.is_empty());
    assert_eq!(config.llm.len(), 1);
    assert_eq!(config.llm[0].provider, "anthropic");
    assert_eq!(config.llm[0].api_key, "sk-db");
    assert_eq!(config.llm[0].disable_thinking, Some(true));
    assert_eq!(applied.llm.len(), 1);
    assert_eq!(applied.git_platforms[0].token, "glpat-db");
    assert_eq!(applied.gitlab.token, "glpat-legacy-db");
    assert_eq!(applied.gitlab.webhook_secret, "wh-legacy-db");
    assert_eq!(config.max_concurrent_llm_calls, Some(9));
    assert_eq!(config.max_team_size, Some(9));
    assert!(config.report_aggregated);
    assert_eq!(applied.ui.as_ref().unwrap().rules.min_score, 91);
    assert_eq!(applied.ui.as_ref().unwrap().advanced.log_level, "debug");
    assert_eq!(applied.experts_patched, 1);
}

#[test]
fn keyless_database_providers_do_not_override_the_chain() {
    let mut config = file_config();
    let applied = apply_db_overrides(
        &mut config,
        None,
        vec![card("openai", "gpt-4o-mini", "", "https://api.openai.com/v1")],
        vec![],
        no_gitlab(),
        0,
        &UiStateEnvOverrides::none(),
    );
    assert!(applied.llm.is_empty());
    assert_eq!(config.llm[0].api_key, "sk-from-toml");
}

#[test]
fn an_env_supplied_chain_wins_wholesale() {
    let mut config = file_config();
    let mut env = UiStateEnvOverrides::none();
    env.llm_from_env = true;
    env.gitlab_token = Some("glpat-env".to_string());
    let applied = apply_db_overrides(
        &mut config,
        None,
        vec![card("anthropic", "big-model-3", "sk-db", "https://api.anthropic.com")],
        vec![],
        no_gitlab(),
        0,
        &env,
    );
    assert!(applied.llm.is_empty());
    assert_eq!(config.llm[0].api_key, "sk-from-toml");
    assert_eq!(applied.gitlab.token, "glpat-env", "env fills an empty credential");
}

fn fresh_state() -> ConfigState {
    let app = file_config();
    ConfigState {
        ui_config: UiConfig::from_app_config(&app),
        llm_configs: app.llm.iter().map(|c| c.copy()).collect(),
        app_config: Some(app),
        git_platforms: vec![],
        llm_health: LlmHealthStore::new(),
        git_health: GitHealthStore::new(),
        gitlab_runtime: GitLabRuntimeConfig {
            token: String::new(),
            webhook_secret: String::new(),
            signing_secret: None,
            signing_key: None,
        },
    }
}

#[test]
fn no_persisted_file_changes_nothing() {
    let mut state = fresh_state();
    assert_eq!(load_and_apply_ui_state(&mut state, None, &UiStateEnvOverrides::none()).unwrap(), false);
    assert_eq!(state.llm_configs[0].api_key, "sk-from-toml");
}

fn empty_state() -> ConfigState {
    let app = AppConfig { llm: vec![], max_concurrent_llm_calls: None, max_team_size: None, report_aggregated: false };
    ConfigState {
        ui_config: UiConfig::from_app_config(&app),
        llm_configs: vec![],
        app_config: Some(app),
        git_platforms: vec![],
        llm_health: LlmHealthStore::new(),
        git_health: GitHealthStore::new(),
        gitlab_runtime: GitLabRuntimeConfig {
            token: String::new(),
            webhook_secret: String::new(),
            signing_secret: None,
            signing_key: None,
        },
    }
}

#[test]
fn restart_equivalent_applies_persisted_state() {
    // "First boot": an update is applied and what it resolved is persisted.
    let mut state1 = empty_state();
    let mut body = state1.ui_config.copy();
    body.llm.openai_api_key = "sk-live".to_string();
    body.llm.api_base_url = "https://api.openai.com/v1".to_string();
    body.llm.default_model = "gpt-4o".to_string();
    body.gitlab.api_token = "glpat-legacy".to_string();
    body.gitlab.webhook_secret = "legacy-wh".to_string();
    body.git_platforms = vec![review_engine::config::types::UiGitPlatformConfig {
        id: String::new(),
        name: "testbed".to_string(),
        platform_type: "gitlab".to_string(),
        base_url: "http://gitlab.internal:8929".to_string(),
        internal_base_url: String::new(),
        token: "glpat-platform".to_string(),
        webhook_secret: "wh-secret".to_string(),
        webhook_signing_secret: String::new(),
        allowed_projects: vec![],
    }];
    let applied = review_engine::config::apply::apply_ui_config(&mut state1, body, true, true).unwrap();
    let key = [42u8; 32];
    let at_rest = review_engine::config::persist::encrypt_ui_state(&UiStateFile::from_applied(&applied, None), &key).unwrap();
    let mut loaded = at_rest;
    review_engine::config::persist::decrypt_ui_state(&mut loaded, &key).unwrap();

    // "Restart": a fresh state, the file loaded and applied.
    let mut state2 = empty_state();
    assert!(load_and_apply_ui_state(&mut state2, Some(loaded), &UiStateEnvOverrides::none()).unwrap());
    assert_eq!(state2.llm_configs[0].api_key, "sk-live");
    assert_eq!(state2.git_platforms[0].token, "glpat-platform", "platform token must survive the restart");
    assert_eq!(state2.gitlab_runtime.token, "glpat-legacy");
    assert_eq!(state2.gitlab_runtime.webhook_secret, "legacy-wh");
    assert_eq!(state2.ui_config.llm.openai_api_key, API_KEY_MASK, "projection stays masked");
    assert_eq!(state2.ui_config.git_platforms[0].token, API_KEY_MASK);
    assert_eq!(state2.ui_config.git_platforms[0].webhook_secret, API_KEY_MASK);
    assert!(!state2.ui_config.git_platforms[0].base_url.is_empty());
}

#[test]
fn the_file_value_wins_and_env_fills_only_empty_values() {
    let mut state = fresh_state();
    let mut file = UiStateFile::empty();
    file.gitlab.token = "glpat-file".to_string();
    let mut env = UiStateEnvOverrides::none();
    env.gitlab_token = Some("glpat-env".to_string());
    env.gitlab_webhook_secret = Some("wh-env".to_string());
    assert!(load_and_apply_ui_state(&mut state, Some(file), &env).unwrap());
    assert_eq!(state.gitlab_runtime.token, "glpat-file", "the persisted file wins over env");
    assert_eq!(state.gitlab_runtime.webhook_secret, "wh-env", "env fills an empty file value");
}

#[test]
fn listed_models_are_sorted_like_str() {
    let ids: Vec<String> = ["mimo-2", "gpt-4o", "Zeta", "gpt-4o", "ä-model", "gpt-4"].iter().map(|s| s.to_string()).collect();
    let mut expected = ids.clone();
    expected.sort();
    assert_eq!(sorted_model_ids(&ids), expected);
    assert_eq!(sorted_model_ids(&vec!["mimo-2".to_string(), "gpt-4o".to_string()]), vec!["gpt-4o", "mimo-2"]);
    assert!(sorted_model_ids(&vec![]).is_empty());
}

fn card_fields(c: &LLMConfig) -> (String, String, String, String, u32, u32, Option<bool>, bool) {
    (
        c.provider.clone(),
        c.model.clone(),
        c.api_key.clone(),
        c.api_base.clone(),
        c.max_tokens,
        c.temperature.bits,
        c.disable_thinking,
        c.disabled,
    )
}

fn persisted_cards() -> Vec<LLMConfig> {
    let mut deepseek = card("deepseek", "deepseek-chat", "sk-d", "https://api.deepseek.com");
    deepseek.disable_thinking = Some(true);
    deepseek.disabled = true;
    let zhipu = card("zhipu", "glm-4", "sk-z", "https://open.bigmodel.cn/api/paas/v4");
    vec![deepseek, zhipu]
}

#[test]
fn a_restart_restores_the_persisted_providers_in_order() {
    let mut file = UiStateFile::empty();
    file.llm = persisted_cards();
    let mut state = empty_state();
    assert!(load_and_apply_ui_state(&mut state, Some(file), &UiStateEnvOverrides::none()).unwrap());
    let got: Vec<_> = state.llm_configs.iter().map(card_fields).collect();
    let want: Vec<_> = persisted_cards().iter().map(card_fields).collect();
    assert_eq!(got, want);
}

#[test]
fn a_loaded_keyed_openai_card_is_put_first_on_replay() {
    let mut file = UiStateFile::empty();
    file.llm = persisted_cards();
    let mut state = fresh_state();
    assert!(load_and_apply_ui_state(&mut state, Some(file), &UiStateEnvOverrides::none()).unwrap());
    let names: Vec<&str> = state.llm_configs.iter().map(|c| c.provider.as_str()).collect();
    assert_eq!(names, vec!["openai", "deepseek", "zhipu"]);
    assert_eq!(state.llm_configs[0].api_key, "sk-from-toml");
}
