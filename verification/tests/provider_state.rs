use review_engine::config::apply::{ConfigState, GitLabRuntimeConfig};
use review_engine::config::types::UiConfig;
use review_engine::git_health::GitHealthStore;
use review_engine::llm::{add_provider, delete_provider, update_provider, AddProviderRequest, UpdateProviderRequest};
use review_engine::llm_health::{LlmHealthStore, ProviderHealth};
use review_engine::models::{AppConfig, LLMConfig, Temperature};

const T07: Temperature = Temperature { bits: 0x3F33_3333 };

fn card(provider: &str, key: &str) -> LLMConfig {
    LLMConfig {
        provider: provider.to_string(),
        model: format!("{provider}-model"),
        api_key: key.to_string(),
        api_base: format!("https://api.{provider}.example/v1"),
        max_tokens: 4096,
        temperature: T07,
        disable_thinking: None,
        disabled: false,
    }
}

fn state_with(cards: Vec<LLMConfig>) -> ConfigState {
    let app = AppConfig {
        llm: cards.iter().map(|c| c.copy()).collect(),
        max_concurrent_llm_calls: None,
        max_team_size: None,
        report_aggregated: false,
    };
    ConfigState {
        ui_config: UiConfig::from_app_config(&app),
        llm_configs: cards,
        app_config: Some(app),
        git_platforms: vec![],
        llm_health: LlmHealthStore::new(),
        git_health: GitHealthStore::new(),
        gitlab_runtime: GitLabRuntimeConfig {
            token: String::new(),
            webhook_secret: String::new(),
            signing_secret: None,
            signing_key: None,
        },
    }
}

fn app_providers(state: &ConfigState) -> Vec<(String, String)> {
    state.app_config.as_ref().unwrap().llm.iter().map(|c| (c.provider.clone(), c.api_key.clone())).collect()
}

fn cached(state: &ConfigState, cfg: &LLMConfig) -> bool {
    state.llm_health.cached(&LlmHealthStore::fingerprint(cfg)).is_some()
}

#[test]
fn adding_a_provider_appends_it_to_the_runtime_and_loaded_lists() {
    let mut state = state_with(vec![card("xiaomi", "sk-x")]);
    let req = AddProviderRequest {
        provider: "deepseek".to_string(),
        model: "deepseek-chat".to_string(),
        api_key: "sk-d".to_string(),
        api_base: "https://api.deepseek.com".to_string(),
        max_tokens: 4096,
        temperature: T07,
    };
    assert_eq!(add_provider(&mut state, &req).unwrap(), "deepseek-1");
    assert_eq!(state.llm_configs.len(), 2);
    assert_eq!(state.llm_configs[1].api_key, "sk-d");
    assert_eq!(
        app_providers(&state),
        vec![("xiaomi".to_string(), "sk-x".to_string()), ("deepseek".to_string(), "sk-d".to_string())]
    );
}

#[test]
fn a_refused_add_changes_nothing() {
    let mut state = state_with(vec![card("xiaomi", "sk-x")]);
    let req = AddProviderRequest {
        provider: "deepseek".to_string(),
        model: String::new(),
        api_key: String::new(),
        api_base: String::new(),
        max_tokens: 4096,
        temperature: T07,
    };
    let err = add_provider(&mut state, &req).unwrap_err();
    assert_eq!((err.status, err.message.as_str()), (400, "api_key is required"));
    assert_eq!(state.llm_configs.len(), 1);
    assert_eq!(app_providers(&state).len(), 1);
}

#[test]
fn updating_a_key_follows_into_the_loaded_list_and_drops_its_stale_health() {
    let mut state = state_with(vec![card("xiaomi", "sk-x"), card("deepseek", "sk-d")]);
    let old = state.llm_configs[0].copy();
    state.llm_health.record(&old, ProviderHealth::healthy(7));
    state.llm_health.record(&state.llm_configs[1].copy(), ProviderHealth::healthy(9));
    let req = UpdateProviderRequest {
        model: String::new(),
        api_key: "sk-x2".to_string(),
        api_base: String::new(),
        max_tokens: 2048,
        temperature: T07,
    };
    let updated = update_provider(&mut state, "xiaomi-0", &req).unwrap();
    assert_eq!(updated.api_key, "sk-x2");
    assert_eq!(updated.model, "xiaomi-model", "an empty field keeps the stored value");
    assert_eq!(state.llm_configs[0].max_tokens, 2048);
    assert_eq!(app_providers(&state)[0], ("xiaomi".to_string(), "sk-x2".to_string()));
    assert!(!cached(&state, &old), "the old key's health is gone");
    assert!(cached(&state, &state.llm_configs[1].copy()), "the untouched card keeps its health");
}

#[test]
fn a_mismatched_update_id_changes_nothing() {
    let mut state = state_with(vec![card("xiaomi", "sk-x")]);
    state.llm_health.record(&state.llm_configs[0].copy(), ProviderHealth::healthy(7));
    let req = UpdateProviderRequest {
        model: String::new(),
        api_key: "sk-new".to_string(),
        api_base: String::new(),
        max_tokens: 1,
        temperature: T07,
    };
    let err = update_provider(&mut state, "deepseek-0", &req).unwrap_err();
    assert_eq!(err.status, 404);
    assert_eq!(state.llm_configs[0].api_key, "sk-x");
    assert_eq!(app_providers(&state)[0].1, "sk-x");
    assert!(cached(&state, &state.llm_configs[0].copy()));
}

#[test]
fn deleting_a_provider_removes_it_everywhere_with_its_health() {
    let mut state = state_with(vec![card("xiaomi", "sk-x"), card("deepseek", "sk-d")]);
    let gone = state.llm_configs[0].copy();
    state.llm_health.record(&gone, ProviderHealth::healthy(7));
    let removed = delete_provider(&mut state, "xiaomi-0").unwrap();
    assert_eq!(removed.provider, "xiaomi");
    assert_eq!(state.llm_configs.len(), 1);
    assert_eq!(state.llm_configs[0].provider, "deepseek");
    assert_eq!(app_providers(&state), vec![("deepseek".to_string(), "sk-d".to_string())]);
    assert!(!cached(&state, &gone));
    let err = delete_provider(&mut state, "nohyphen").unwrap_err();
    assert_eq!(err.status, 400);
    assert_eq!(state.llm_configs.len(), 1);
}
