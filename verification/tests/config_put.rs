use review_engine::config::apply::{apply_ui_config, payload_flags, ConfigState, GitLabRuntimeConfig};
use review_engine::config::config_for_get;
use review_engine::config::types::{UiConfig, API_KEY_MASK};
use review_engine::git_health::GitHealthStore;
use review_engine::json::{merge_json, JsonValue};
use review_engine::llm_health::LlmHealthStore;
use review_engine::models::{AppConfig, LLMConfig, Temperature};

const T07: Temperature = Temperature { bits: 0x3F33_3333 };

fn openai(key: &str) -> LLMConfig {
    LLMConfig {
        provider: "openai".to_string(),
        model: "gpt-4o".to_string(),
        api_key: key.to_string(),
        api_base: "https://api.openai.com/v1".to_string(),
        max_tokens: 4096,
        temperature: T07,
        disable_thinking: None,
        disabled: false,
    }
}

fn app_with(llm: Vec<LLMConfig>) -> AppConfig {
    AppConfig { llm, max_concurrent_llm_calls: None, max_team_size: None, report_aggregated: false }
}

/// A state seeded with one openai card carrying `key`, as startup wires it.
fn state_with_openai(key: &str) -> ConfigState {
    let app = app_with(vec![openai(key)]);
    ConfigState {
        ui_config: UiConfig::from_app_config(&app),
        llm_configs: vec![openai(key)],
        app_config: Some(app),
        git_platforms: vec![],
        llm_health: LlmHealthStore::new(),
        git_health: GitHealthStore::new(),
        gitlab_runtime: GitLabRuntimeConfig {
            token: String::new(),
            webhook_secret: String::new(),
            signing_secret: None,
            signing_key: None,
        },
    }
}

fn stored_openai_key(state: &ConfigState) -> String {
    state
        .app_config
        .as_ref()
        .unwrap()
        .llm
        .iter()
        .find(|c| c.provider == "openai")
        .map(|c| c.api_key.clone())
        .unwrap_or_default()
}

fn obj(members: Vec<(&str, JsonValue)>) -> JsonValue {
    JsonValue::Object(members.into_iter().map(|(k, v)| (k.to_string(), v)).collect())
}

#[test]
fn get_config_never_leaks_the_llm_key() {
    let state = state_with_openai("sk-super-secret");
    let shown = config_for_get(&state.ui_config, false);
    assert_eq!(shown.llm.openai_api_key, API_KEY_MASK);
    assert_eq!(shown.llm.providers[0].api_key, API_KEY_MASK);
    assert!(!format!("{shown:?}").contains("sk-super-secret"), "secret leaked");
}

#[test]
fn get_config_shows_a_runtime_only_token_as_the_mask() {
    let state = state_with_openai("sk");
    assert_eq!(config_for_get(&state.ui_config, true).gitlab.api_token, API_KEY_MASK);
    assert_eq!(config_for_get(&state.ui_config, false).gitlab.api_token, "");
}

#[test]
fn a_masked_round_trip_keeps_the_stored_key() {
    let mut state = state_with_openai("sk-primary");
    let body = config_for_get(&state.ui_config, false);
    let applied = apply_ui_config(&mut state, body, true, true).unwrap();
    assert_eq!(stored_openai_key(&state), "sk-primary");
    assert_eq!(applied.llm[0].api_key, "sk-primary");
    // The stored projection still surfaces the mask, not the secret.
    assert_eq!(state.ui_config.llm.openai_api_key, API_KEY_MASK);
    assert_eq!(state.ui_config.llm.providers[0].api_key, API_KEY_MASK);
}

#[test]
fn a_blank_key_keeps_the_stored_key() {
    let mut state = state_with_openai("sk-primary");
    let mut body = state.ui_config.copy();
    body.llm.openai_api_key = String::new();
    for p in body.llm.providers.iter_mut() {
        p.api_key = String::new();
    }
    apply_ui_config(&mut state, body, true, true).unwrap();
    assert_eq!(stored_openai_key(&state), "sk-primary");
}

#[test]
fn a_new_key_replaces_the_stored_key() {
    let mut state = state_with_openai("sk-old");
    let mut body = state.ui_config.copy();
    body.llm.openai_api_key = "sk-new".to_string();
    body.llm.providers[0].api_key = "sk-new".to_string();
    apply_ui_config(&mut state, body, true, true).unwrap();
    assert_eq!(stored_openai_key(&state), "sk-new");
    assert_eq!(state.llm_configs[0].api_key, "sk-new", "the runtime set follows");
}

#[test]
fn an_update_that_does_not_state_the_set_keeps_it() {
    let mut state = state_with_openai("sk-primary");
    let mut body = state.ui_config.copy();
    body.rules.min_score = 90;
    body.llm.providers.clear();
    apply_ui_config(&mut state, body, false, false).unwrap();
    assert_eq!(stored_openai_key(&state), "sk-primary");
    assert_eq!(state.ui_config.rules.min_score, 90);
    assert_eq!(state.ui_config.llm.openai_api_key, API_KEY_MASK, "stored key stays masked");
}

#[test]
fn put_config_sparse_patch_preserves_omitted_fields() {
    let mut state = state_with_openai("sk-primary");
    let baseline = state.ui_config.copy();
    assert_eq!(baseline.llm.providers.len(), 1, "baseline providers");
    // `{"rules":{"minScore":90}}` merged over the stored projection: it states
    // neither the provider list nor a legacy scalar.
    let mut body = state.ui_config.copy();
    body.rules.min_score = 90;
    apply_ui_config(&mut state, body, false, false).unwrap();
    let ui = &state.ui_config;
    assert_eq!(ui.rules.min_score, 90);
    assert_eq!(ui.llm.temperature.bits, baseline.llm.temperature.bits, "omitted temperature must not reset");
    assert_eq!(ui.advanced.enable_metrics, baseline.advanced.enable_metrics, "omitted enableMetrics must not reset");
    assert_eq!(
        ui.advanced.max_concurrent_reviews, baseline.advanced.max_concurrent_reviews,
        "omitted maxConcurrentReviews must not reset"
    );
    assert_eq!(ui.llm.providers.len(), 1, "omitted providers must not be dropped");
    assert_eq!(ui.llm.openai_api_key, API_KEY_MASK, "stored key stays masked");
    assert_eq!(ui.llm.providers[0].api_key, API_KEY_MASK, "the card's key is masked too");
    assert_eq!(stored_openai_key(&state), "sk-primary", "live key preserved");
}

#[test]
fn an_update_before_the_config_is_loaded_is_refused() {
    let mut state = state_with_openai("sk");
    state.app_config = None;
    let body = state.ui_config.copy();
    let err = apply_ui_config(&mut state, body, false, false).unwrap_err();
    assert_eq!(err.status, 503);
    assert_eq!(err.message, "config not loaded");
}

#[test]
fn the_concurrency_cap_follows_the_advanced_section() {
    let mut state = state_with_openai("sk");
    let mut body = state.ui_config.copy();
    body.advanced.max_concurrent_reviews = 9;
    apply_ui_config(&mut state, body, false, false).unwrap();
    let app = state.app_config.as_ref().unwrap();
    assert_eq!(app.max_concurrent_llm_calls, Some(9));
    assert_eq!(app.max_team_size, Some(9));
}

fn num(n: &str) -> JsonValue {
    JsonValue::Number(n.to_string())
}

fn member<'a>(v: &'a JsonValue, key: &str) -> Option<&'a JsonValue> {
    match v {
        JsonValue::Object(ms) => ms.iter().find(|(k, _)| k == key).map(|(_, v)| v),
        _ => None,
    }
}

fn number_at(v: &JsonValue, path: &[&str]) -> Option<String> {
    let mut cur = v;
    for k in path {
        cur = member(cur, k)?;
    }
    match cur {
        JsonValue::Number(n) => Some(n.clone()),
        _ => None,
    }
}

#[test]
fn payload_flags_read_what_the_request_states() {
    let sparse = obj(vec![("rules", obj(vec![("minScore", num("90"))]))]);
    assert_eq!(payload_flags(&sparse), (false, false));
    let providers = obj(vec![("llm", obj(vec![("providers", JsonValue::Array(vec![]))]))]);
    assert_eq!(payload_flags(&providers), (true, false));
    let legacy = obj(vec![("llm", obj(vec![("openaiApiKey", JsonValue::Str(API_KEY_MASK.to_string()))]))]);
    assert_eq!(payload_flags(&legacy), (true, true));
    assert_eq!(payload_flags(&JsonValue::Null), (false, false));
}

fn stored_document() -> JsonValue {
    obj(vec![
        ("rules", obj(vec![("minScore", num("75")), ("blockOnCritical", JsonValue::Bool(true))])),
        ("llm", obj(vec![("temperature", num("0.7"))])),
    ])
}

#[test]
fn a_sparse_patch_merges_over_the_stored_document() {
    let patch = obj(vec![("rules", obj(vec![("minScore", num("90"))]))]);
    let merged = merge_json(stored_document(), patch);
    assert_eq!(number_at(&merged, &["rules", "minScore"]), Some("90".to_string()));
    assert!(matches!(member(member(&merged, "rules").unwrap(), "blockOnCritical"), Some(JsonValue::Bool(true))));
    assert_eq!(number_at(&merged, &["llm", "temperature"]), Some("0.7".to_string()));
    // An empty object patches nothing.
    let same = merge_json(stored_document(), obj(vec![]));
    assert_eq!(number_at(&same, &["rules", "minScore"]), Some("75".to_string()));
    assert_eq!(number_at(&same, &["llm", "temperature"]), Some("0.7".to_string()));
    // A non-object patch replaces the value wholesale.
    assert!(matches!(merge_json(stored_document(), num("3")), JsonValue::Number(n) if n == "3"));
}
