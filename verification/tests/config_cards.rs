use review_engine::config::apply::{apply_ui_config, ConfigState, GitLabRuntimeConfig};
use review_engine::config::config_for_get;
use review_engine::config::types::{UiLlmProviderConfig, API_KEY_MASK};
use review_engine::config::types::UiConfig;
use review_engine::git_health::GitHealthStore;
use review_engine::llm::chain_positions;
use review_engine::llm_health::LlmHealthStore;
use review_engine::models::{AppConfig, LLMConfig, Temperature};

const T07: Temperature = Temperature { bits: 0x3F33_3333 };

fn card(provider: &str, model: &str, key: &str, base: &str, max_tokens: u32) -> LLMConfig {
    LLMConfig {
        provider: provider.to_string(),
        model: model.to_string(),
        api_key: key.to_string(),
        api_base: base.to_string(),
        max_tokens,
        temperature: T07,
        disable_thinking: None,
        disabled: false,
    }
}

fn state_of(llm: Vec<LLMConfig>) -> ConfigState {
    let app = AppConfig {
        llm: llm.iter().map(|c| c.copy()).collect(),
        max_concurrent_llm_calls: None,
        max_team_size: None,
        report_aggregated: false,
    };
    ConfigState {
        ui_config: UiConfig::from_app_config(&app),
        llm_configs: llm,
        app_config: Some(app),
        git_platforms: vec![],
        llm_health: LlmHealthStore::new(),
        git_health: GitHealthStore::new(),
        gitlab_runtime: GitLabRuntimeConfig {
            token: String::new(),
            webhook_secret: String::new(),
            signing_secret: None,
            signing_key: None,
        },
    }
}

fn state_with_two_providers() -> ConfigState {
    state_of(vec![
        card("xiaomi-token-plan-cn", "mimo", "sk-xiaomi", "http://xiaomi.invalid/v1", 4096),
        card("deepseek", "deepseek-v4-flash", "sk-deepseek", "https://api.deepseek.com/v1", 4096),
    ])
}

fn state_with_two_accounts() -> ConfigState {
    state_of(vec![
        card("acme-pay", "m1", "sk-acct-a", "https://api.acme.example/v1", 4096),
        card("acme-pay", "m1", "sk-acct-b", "https://api.acme.example/v1", 2048),
    ])
}

/// A submitted card as the page sends it (masked key, flags omitted).
fn ui_card(provider: &str, base: &str, model: &str, max_tokens: u32) -> UiLlmProviderConfig {
    UiLlmProviderConfig {
        provider: provider.to_string(),
        api_key: API_KEY_MASK.to_string(),
        api_base_url: base.to_string(),
        default_model: model.to_string(),
        max_tokens,
        temperature: T07,
        timeout_seconds: 60,
        retry_attempts: 3,
        disabled: None,
        disable_thinking: None,
    }
}

fn card_edit(max_tokens: u32) -> Vec<UiLlmProviderConfig> {
    vec![
        ui_card("xiaomi-token-plan-cn", "http://xiaomi.invalid/v1", "mimo", 4096),
        ui_card("deepseek", "https://api.deepseek.com/v1", "deepseek-v4-flash", max_tokens),
    ]
}

fn account_card(max_tokens: u32) -> UiLlmProviderConfig {
    ui_card("acme-pay", "https://api.acme.example/v1", "m1", max_tokens)
}

/// An update that states the provider set (`llm.providers` present, no
/// legacy scalar): the stored projection with the submitted cards.
fn put_cards(state: &mut ConfigState, cards: Vec<UiLlmProviderConfig>) {
    let mut body = state.ui_config.copy();
    body.llm.providers = cards;
    apply_ui_config(state, body, true, false).unwrap();
}

/// An update that only records the primary (`llm.primaryProvider`).
fn put_primary(state: &mut ConfigState, primary: &str) {
    let mut body = state.ui_config.copy();
    body.llm.primary_provider = primary.to_string();
    apply_ui_config(state, body, false, false).unwrap();
}

/// An update that does not speak for the provider set at all.
fn put_rules(state: &mut ConfigState, min_score: u32) {
    let mut body = state.ui_config.copy();
    body.rules.min_score = min_score;
    apply_ui_config(state, body, false, false).unwrap();
}

fn live<'a>(state: &'a ConfigState, provider: &str) -> &'a LLMConfig {
    state.llm_configs.iter().find(|c| c.provider == provider).unwrap()
}

fn live_keys(state: &ConfigState) -> Vec<String> {
    state.llm_configs.iter().map(|c| c.api_key.clone()).collect()
}

/// The providers of the runtime chain, in chain order.
fn chain(state: &ConfigState) -> Vec<String> {
    let ranks = chain_positions(&state.ui_config.llm.primary_provider, &state.llm_configs);
    let mut ranked: Vec<(usize, String)> = ranks
        .iter()
        .zip(state.llm_configs.iter())
        .filter_map(|(r, c)| r.map(|r| (r, c.provider.clone())))
        .collect();
    ranked.sort();
    ranked.into_iter().map(|(_, p)| p).collect()
}

#[test]
fn a_card_edit_without_a_primary_keeps_the_stored_primary() {
    let mut state = state_with_two_providers();
    put_primary(&mut state, "deepseek");
    assert_eq!(state.ui_config.llm.primary_provider, "deepseek");
    put_cards(&mut state, card_edit(2048));
    assert_eq!(state.ui_config.llm.primary_provider, "deepseek", "a card edit must not move the primary");
    let shown = state.ui_config.llm.providers.iter().find(|p| p.provider == "deepseek").unwrap();
    assert_eq!(shown.max_tokens, 2048, "the edit is applied");
    assert_eq!(shown.default_model, "deepseek-v4-flash");
    assert_eq!(shown.api_key, API_KEY_MASK, "masked-keep, never a live key");
    let entry = live(&state, "deepseek");
    assert_eq!(entry.max_tokens, 2048);
    assert_eq!(entry.api_key, "sk-deepseek", "stored key kept across the save");
}

#[test]
fn an_explicit_primary_choice_leads_the_chain() {
    let mut state = state_with_two_providers();
    assert_eq!(state.ui_config.llm.primary_provider, "xiaomi-token-plan-cn");
    put_primary(&mut state, "deepseek");
    assert_eq!(state.ui_config.llm.primary_provider, "deepseek");
    assert_eq!(chain(&state)[0], "deepseek", "the recorded primary leads the runtime chain");
}

#[test]
fn disabled_round_trips_and_unspoken_saves_keep_it() {
    let mut state = state_with_two_providers();
    // 1) Disable deepseek explicitly.
    let mut cards = card_edit(4096);
    cards[1].disabled = Some(true);
    put_cards(&mut state, cards);
    assert!(live(&state, "deepseek").disabled, "the flag reaches the runtime set");
    assert!(!live(&state, "xiaomi-token-plan-cn").disabled);
    let shown = state.ui_config.llm.providers.iter().find(|p| p.provider == "deepseek").unwrap();
    assert_eq!(shown.disabled, Some(true), "the projection echoes a concrete bool");
    assert_eq!(shown.api_key, API_KEY_MASK);
    assert_eq!(chain(&state), vec!["xiaomi-token-plan-cn"]);
    // 2) An unrelated save keeps the flag.
    put_rules(&mut state, 90);
    assert!(live(&state, "deepseek").disabled, "an unrelated save must not re-enable the provider");
    // 3) A card edit that omits the flag keeps it too.
    put_cards(&mut state, card_edit(2048));
    assert!(live(&state, "deepseek").disabled, "an omitted flag keeps the stored one");
    assert_eq!(live(&state, "deepseek").max_tokens, 2048);
    // 4) An explicit false re-enables.
    let mut cards = card_edit(2048);
    cards[1].disabled = Some(false);
    put_cards(&mut state, cards);
    assert!(!live(&state, "deepseek").disabled);
    assert_eq!(live(&state, "deepseek").api_key, "sk-deepseek", "the key survived the disable cycle");
    assert_eq!(chain(&state).len(), 2, "back in the chain");
}

#[test]
fn disabling_the_primary_moves_the_recorded_primary_to_the_first_enabled() {
    let mut state = state_with_two_providers();
    let mut cards = card_edit(4096);
    cards[0].disabled = Some(true);
    put_cards(&mut state, cards);
    assert_eq!(state.ui_config.llm.primary_provider, "deepseek");
    assert_eq!(chain(&state)[0], "deepseek");
    // Every provider disabled: no recorded primary and no chain.
    let mut cards = card_edit(4096);
    cards[0].disabled = Some(true);
    cards[1].disabled = Some(true);
    put_cards(&mut state, cards);
    assert_eq!(state.ui_config.llm.primary_provider, "");
    assert!(chain(&state).is_empty(), "no enabled provider, no chain");
}

#[test]
fn disable_thinking_round_trips_and_unspoken_saves_keep_it() {
    let mut state = state_with_two_providers();
    let mut cards = card_edit(4096);
    cards[1].disable_thinking = Some(true);
    put_cards(&mut state, cards);
    assert_eq!(live(&state, "deepseek").disable_thinking, Some(true));
    assert_eq!(live(&state, "xiaomi-token-plan-cn").disable_thinking, None, "the other card is unchanged");
    let shown = state.ui_config.llm.providers.iter().find(|p| p.provider == "deepseek").unwrap();
    assert_eq!(shown.disable_thinking, Some(true));
    put_rules(&mut state, 90);
    assert_eq!(live(&state, "deepseek").disable_thinking, Some(true));
    put_cards(&mut state, card_edit(2048));
    assert_eq!(live(&state, "deepseek").disable_thinking, Some(true), "an omitted key keeps the tri-state");
    assert_eq!(live(&state, "deepseek").max_tokens, 2048);
    let mut cards = card_edit(2048);
    cards[1].disable_thinking = Some(false);
    put_cards(&mut state, cards);
    assert_eq!(live(&state, "deepseek").disable_thinking, Some(false), "explicit false is kept as false");
    put_cards(&mut state, card_edit(8192));
    assert_eq!(live(&state, "deepseek").disable_thinking, Some(false), "the tri-state survives another save");
}

#[test]
fn a_masked_edit_keeps_each_accounts_own_key() {
    let mut state = state_with_two_accounts();
    assert_eq!(live_keys(&state), vec!["sk-acct-a", "sk-acct-b"]);
    put_cards(&mut state, vec![account_card(4096), account_card(1024)]);
    assert_eq!(live_keys(&state), vec!["sk-acct-a", "sk-acct-b"], "each account keeps its own key");
    assert_eq!(state.llm_configs[1].max_tokens, 1024, "the edit applies");
    assert!(state.ui_config.llm.providers.iter().all(|p| p.api_key == API_KEY_MASK));
}

#[test]
fn swapping_two_accounts_preserves_both_keys() {
    let mut state = state_with_two_accounts();
    let mut swapped = account_card(2048);
    swapped.disabled = Some(true);
    put_cards(&mut state, vec![swapped, account_card(4096)]);
    let mut keys = live_keys(&state);
    keys.sort();
    assert_eq!(keys, vec!["sk-acct-a", "sk-acct-b"], "no key duplicated, none dropped");
}

#[test]
fn reordering_different_cards_moves_keys_with_their_cards() {
    let mut state = state_with_two_providers();
    let mut cards = card_edit(4096);
    cards.swap(0, 1);
    put_cards(&mut state, cards);
    assert_eq!(state.llm_configs[0].provider, "deepseek", "the new order is stored");
    assert_eq!(state.llm_configs[0].api_key, "sk-deepseek");
    assert_eq!(state.llm_configs[1].provider, "xiaomi-token-plan-cn");
    assert_eq!(state.llm_configs[1].api_key, "sk-xiaomi");
}

#[test]
fn same_name_cards_round_trip_without_name_merging() {
    let mut state = state_with_two_accounts();
    let shown = config_for_get(&state.ui_config, false).llm.providers;
    assert_eq!(shown.len(), 2);
    assert_eq!(shown.iter().map(|p| p.max_tokens).collect::<Vec<_>>(), vec![4096, 2048]);
    assert!(shown.iter().all(|p| p.api_key == API_KEY_MASK));
    for round in 1..=2 {
        let cards = config_for_get(&state.ui_config, false).llm.providers;
        put_cards(&mut state, cards);
        let after = config_for_get(&state.ui_config, false).llm.providers;
        assert_eq!(after.len(), 2, "round {round}: no name-based merge");
        assert_eq!(after.iter().map(|p| p.max_tokens).collect::<Vec<_>>(), vec![4096, 2048]);
        assert!(after.iter().all(|p| p.api_key == API_KEY_MASK));
        assert_eq!(live_keys(&state), vec!["sk-acct-a", "sk-acct-b"], "round {round}");
        assert!(state.llm_configs.iter().all(|c| c.provider == "acme-pay"));
    }
}

#[test]
fn a_model_edit_with_a_masked_key_clears_the_key() {
    let mut state = state_with_two_accounts();
    let mut edited = account_card(2048);
    edited.default_model = "m2".to_string();
    put_cards(&mut state, vec![account_card(4096), edited]);
    assert_eq!(state.llm_configs.len(), 1, "the keyless edited card cannot stay in the live set");
    assert_eq!(state.llm_configs[0].api_key, "sk-acct-a");
    let mut rekeyed = account_card(2048);
    rekeyed.default_model = "m2".to_string();
    rekeyed.api_key = "sk-acct-b2".to_string();
    put_cards(&mut state, vec![account_card(4096), rekeyed]);
    assert_eq!(state.llm_configs.len(), 2);
    assert_eq!(state.llm_configs[1].model, "m2");
    assert_eq!(state.llm_configs[1].api_key, "sk-acct-b2", "the new key is stored");
}
