use review_engine::llm::{
    add_provider_list, chain_positions, default_add_max_tokens, default_add_temperature, delete_provider_list, find_for_test,
    logo_for_provider, may_merge_unmarked, parse_provider_id, provider_id, provider_items, remove_matching,
    update_provider_list, AddProviderRequest, UpdateProviderRequest,
};
use review_engine::llm_health::{ProviderHealth, ProviderStatus};
use review_engine::llm_latency::{CallSample, LatencySnapshot, DAY_MS, LATENCY_WINDOW_DAYS, SPARKLINE_BUCKETS};
use review_engine::llm_probe::{ProbeSample, ProbeSnapshot};
use review_engine::models::{LLMConfig, Temperature};

const T03: Temperature = Temperature { bits: 0x3E99_999A };

fn cfg(provider: &str) -> LLMConfig {
    LLMConfig {
        provider: provider.to_string(),
        model: format!("{provider}-model"),
        api_key: "k".to_string(),
        api_base: format!("https://api.{provider}.example/v1"),
        max_tokens: 4096,
        temperature: T03,
        disable_thinking: None,
        disabled: false,
    }
}

fn account(key: &str) -> LLMConfig {
    LLMConfig {
        provider: "acme".to_string(),
        model: "m1".to_string(),
        api_key: key.to_string(),
        api_base: "https://api.acme.example/v1".to_string(),
        max_tokens: 4096,
        temperature: T03,
        disable_thinking: None,
        disabled: false,
    }
}

fn healthy(n: usize) -> Vec<ProviderHealth> {
    (0..n).map(|_| ProviderHealth::healthy(7)).collect()
}

#[test]
fn unmarked_merge_requires_a_unique_enabled_card() {
    let a = account("sk-a");
    let b = account("sk-b");

    // A single card, and it is enabled: merge.
    assert!(may_merge_unmarked(&vec![a.copy()], &a), "single enabled card");
    // The same card disabled: no merge.
    let mut off = a.copy();
    off.disabled = true;
    assert!(!may_merge_unmarked(&vec![off.copy()], &off), "the only card is disabled");
    // Two enabled same-pair cards: no merge for either.
    assert!(!may_merge_unmarked(&vec![a.copy(), b.copy()], &a), "two enabled candidates");
    assert!(!may_merge_unmarked(&vec![a.copy(), b.copy()], &b), "two enabled candidates");
    // One enabled + one disabled same-pair card: the enabled one is still the
    // unique enabled card and merges; the disabled one doesn't.
    let mut off_b = b.copy();
    off_b.disabled = true;
    let pair = vec![a.copy(), off_b.copy()];
    assert!(may_merge_unmarked(&pair, &a), "unique enabled among a mixed pair");
    assert!(!may_merge_unmarked(&pair, &off_b), "the disabled card never merges");
}

#[test]
fn provider_items_expose_chain_position_and_primary() {
    let stored = vec![cfg("xiaomi"), cfg("deepseek")];
    let items = provider_items("deepseek", &stored, &healthy(stored.len()), None, None);

    // Stored order (and the `{provider}-{index}` ids) is untouched.
    assert_eq!(items[0].name, "xiaomi");
    assert_eq!(items[0].id, "xiaomi-0");
    assert_eq!(items[0].position, 0);
    assert_eq!(items[1].name, "deepseek");
    assert_eq!(items[1].position, 1);

    // Chain: deepseek leads.
    assert_eq!(items[1].chain_position, Some(1));
    assert!(items[1].is_primary);
    assert_eq!(items[0].chain_position, Some(2));
    assert!(!items[0].is_primary);
}

#[test]
fn provider_items_head_is_primary_without_a_primary_selection() {
    let stored = vec![cfg("xiaomi"), cfg("deepseek")];
    let items = provider_items("", &stored, &healthy(stored.len()), None, None);
    assert!(items[0].is_primary);
    assert!(!items[1].is_primary);
    assert_eq!(items[1].chain_position, Some(2));
    // A primary naming a provider that is not stored degrades to the same rule.
    let items = provider_items("ghost", &vec![cfg("xiaomi")], &healthy(1), None, None);
    assert!(items[0].is_primary);
    assert_eq!(items[0].chain_position, Some(1));
}

#[test]
fn provider_items_empty_set() {
    assert!(provider_items("deepseek", &vec![], &vec![], None, None).is_empty());
}

#[test]
fn provider_items_mark_a_disabled_provider_off_the_chain() {
    let mut stored = vec![cfg("xiaomi"), cfg("deepseek"), cfg("openai")];
    stored[1].disabled = true;
    let health = || vec![ProviderHealth::healthy(7), ProviderHealth::disabled(), ProviderHealth::healthy(9)];
    let items = provider_items("xiaomi", &stored, &health(), None, None);

    // Stored order and ids untouched; the disabled card keeps its slot.
    assert_eq!(items[1].name, "deepseek");
    assert_eq!(items[1].id, "deepseek-1");
    assert_eq!(items[1].position, 1);
    assert!(items[1].disabled);
    assert!(!items[0].disabled);
    assert!(!items[2].disabled);

    // Deliberately off is not unreachable, and it is no chain member.
    assert_eq!(items[1].status.as_str(), "disabled");
    assert_eq!(items[1].chain_position, None);
    assert!(!items[1].is_primary);
    assert_eq!(items[1].last_probe_latency_ms, 0);
    assert_eq!(items[1].last_checked, None);

    // The enabled subset numbers the chain 1, 2.
    assert_eq!(items[0].chain_position, Some(1));
    assert!(items[0].is_primary);
    assert_eq!(items[2].chain_position, Some(2));
    assert!(!items[2].is_primary);

    // A recorded primary naming the disabled entry cannot put it back at the head.
    let items = provider_items("deepseek", &stored, &health(), None, None);
    assert_eq!(items[1].chain_position, None);
    assert_eq!(items[0].chain_position, Some(1));
    assert!(items[0].is_primary);
}

#[test]
fn provider_items_report_probed_status_not_key_presence() {
    let stored = vec![cfg("xiaomi"), cfg("deepseek")];
    let items = provider_items(
        "xiaomi",
        &stored,
        &vec![ProviderHealth::error("HTTP 401 Unauthorized".to_string(), 12), ProviderHealth::healthy(34)],
        None,
        None,
    );
    assert_eq!(items[0].status.as_str(), "error");
    assert!(items[0].configured, "a key is still stored");
    assert_eq!(items[0].last_probe_latency_ms, 12);
    assert_eq!(items[1].status.as_str(), "healthy");
    assert_eq!(items[1].last_probe_latency_ms, 34);
    // `last_checked` is the probe's timestamp, i.e. a real check time.
    for item in &items {
        assert!(item.last_checked.is_some());
    }
    // A provider with no stored key is offline and never probed.
    let mut blank = cfg("xiaomi");
    blank.api_key = String::new();
    let items = provider_items("xiaomi", &vec![blank], &vec![ProviderHealth::offline()], None, None);
    assert_eq!(items[0].status.as_str(), "offline");
    assert!(!items[0].configured);
    assert_eq!(items[0].last_probe_latency_ms, 0);
    assert_eq!(items[0].last_checked, None);
    // A config with no report at all is the same.
    let items = provider_items("xiaomi", &stored, &vec![], None, None);
    assert_eq!(items[0].last_checked, None);
    assert_eq!(items[0].status, ProviderStatus::Offline);
    assert_eq!(ProviderStatus::Offline.dashboard_str(), "offline");
    assert_eq!(ProviderStatus::Error.dashboard_str(), "error");
    assert_eq!(ProviderStatus::Healthy.dashboard_str(), "success");
}

#[test]
fn chain_ranks_skip_disabled_cards() {
    let mut stored = vec![cfg("a"), cfg("b"), cfg("c"), cfg("d")];
    stored[0].disabled = true;
    assert_eq!(chain_positions("c", &stored), vec![None, Some(2), Some(1), Some(3)]);
    // Every card off: nothing ranks.
    for s in stored.iter_mut() {
        s.disabled = true;
    }
    assert_eq!(chain_positions("c", &stored), vec![None, None, None, None]);
}

#[test]
fn provider_ids_round_trip_through_the_parser() {
    assert_eq!(provider_id("open-ai", 12), "open-ai-12");
    let (p, i) = parse_provider_id("open-ai-12").unwrap();
    assert_eq!(p, "open-ai");
    assert_eq!(i, 12);
    let e = parse_provider_id("nodash").unwrap_err();
    assert_eq!((e.status, e.message.as_str()), (400, "Invalid provider id format"));
    let e = parse_provider_id("openai-x1").unwrap_err();
    assert_eq!((e.status, e.message.as_str()), (400, "Invalid provider id index"));
}

#[test]
fn logos_are_matched_case_insensitively() {
    assert_eq!(logo_for_provider("OpenAI"), "OpenAI");
    assert_eq!(logo_for_provider("anthropic"), "Anthropic");
    assert_eq!(logo_for_provider("OLLAMA"), "Ollama");
    assert_eq!(logo_for_provider("azure"), "Azure");
    assert_eq!(logo_for_provider("Google"), "Google");
    assert_eq!(logo_for_provider("cohere"), "Cohere");
    assert_eq!(logo_for_provider("deepseek"), "Generic");
}

#[test]
fn add_then_delete_restores_the_list() {
    let mut configs = vec![cfg("xiaomi")];
    let req = AddProviderRequest {
        provider: "deepseek".to_string(),
        model: "deepseek-chat".to_string(),
        api_key: "sk-d".to_string(),
        api_base: "https://api.deepseek.com".to_string(),
        max_tokens: default_add_max_tokens(),
        temperature: default_add_temperature(),
    };
    let id = add_provider_list(&mut configs, &req).unwrap();
    assert_eq!(id, "deepseek-1");
    assert_eq!(configs.len(), 2);
    assert_eq!(configs[1].max_tokens, 4096);
    assert_eq!(configs[1].temperature.bits, 0x3F33_3333);
    let removed = delete_provider_list(&mut configs, &id).unwrap();
    assert_eq!(removed.api_key, "sk-d");
    assert_eq!(configs.len(), 1);
    assert_eq!(configs[0].provider, "xiaomi");
}

#[test]
fn add_provider_rejects_missing_name_or_key() {
    let mut configs = vec![];
    let mut req = AddProviderRequest {
        provider: String::new(),
        model: "m".to_string(),
        api_key: "k".to_string(),
        api_base: String::new(),
        max_tokens: 1,
        temperature: T03,
    };
    let e = add_provider_list(&mut configs, &req).unwrap_err();
    assert_eq!((e.status, e.message.as_str()), (400, "provider name is required"));
    req.provider = "p".to_string();
    req.api_key = String::new();
    let e = add_provider_list(&mut configs, &req).unwrap_err();
    assert_eq!((e.status, e.message.as_str()), (400, "api_key is required"));
    assert!(configs.is_empty());
}

#[test]
fn delete_reports_unknown_and_mismatched_ids() {
    let mut configs = vec![cfg("xiaomi")];
    let e = delete_provider_list(&mut configs, "xiaomi-3").unwrap_err();
    assert_eq!((e.status, e.message.as_str()), (404, "Provider not found"));
    let e = delete_provider_list(&mut configs, "openai-0").unwrap_err();
    assert_eq!((e.status, e.message.as_str()), (404, "Provider id mismatch"));
    assert_eq!(configs.len(), 1);
}

#[test]
fn update_keeps_fields_left_empty() {
    let mut configs = vec![cfg("xiaomi")];
    let req = UpdateProviderRequest {
        model: String::new(),
        api_key: "sk-new".to_string(),
        api_base: String::new(),
        max_tokens: 8192,
        temperature: T03,
    };
    update_provider_list(&mut configs, "xiaomi-0", &req).unwrap();
    assert_eq!(configs[0].model, "xiaomi-model");
    assert_eq!(configs[0].api_key, "sk-new");
    assert_eq!(configs[0].api_base, "https://api.xiaomi.example/v1");
    assert_eq!(configs[0].max_tokens, 8192);
}

#[test]
fn remove_matching_drops_cards_with_the_same_provider_and_key() {
    let mut list = vec![account("sk-a"), account("sk-b"), account("sk-a"), cfg("xiaomi")];
    remove_matching(&mut list, &account("sk-a"));
    assert_eq!(list.len(), 2);
    assert_eq!(list[0].api_key, "sk-b");
    assert_eq!(list[1].provider, "xiaomi");
}

#[test]
fn find_for_test_returns_the_named_card() {
    let configs = vec![cfg("xiaomi"), cfg("deepseek")];
    assert_eq!(find_for_test(&configs, "deepseek-1").unwrap().provider, "deepseek");
    assert!(find_for_test(&configs, "deepseek-0").is_none());
}

const NOW: i64 = 1_789_300_000_000;
const MINUTE: i64 = 60_000;

fn latency_snapshot(rows: Vec<CallSample>) -> LatencySnapshot {
    LatencySnapshot::new(NOW - LATENCY_WINDOW_DAYS * DAY_MS, rows)
}

fn latency_row(provider: &str, at: i64, ms: i64, success: bool) -> CallSample {
    let c = cfg(provider);
    CallSample {
        provider: c.provider.clone(),
        model: c.model.clone(),
        entry_fp: Some(c.entry_fp()),
        created_at: at,
        latency_ms: ms,
        success,
    }
}

fn latency_row_for(card: &LLMConfig, at: i64, ms: i64) -> CallSample {
    CallSample {
        provider: card.provider.clone(),
        model: card.model.clone(),
        entry_fp: Some(card.entry_fp()),
        created_at: at,
        latency_ms: ms,
        success: true,
    }
}

fn unmarked_latency_row(at: i64, ms: i64) -> CallSample {
    CallSample {
        provider: "acme".to_string(),
        model: "m1".to_string(),
        entry_fp: None,
        created_at: at,
        latency_ms: ms,
        success: true,
    }
}

#[test]
fn provider_items_same_named_cards_report_only_their_own_stats() {
    let a = account("sk-a");
    let b = account("sk-b");
    let stored = vec![a.copy(), b.copy()];
    assert_ne!(a.entry_fp(), b.entry_fp(), "two accounts, two fingerprints");
    let latency = latency_snapshot(vec![
        latency_row_for(&a, NOW - 3 * MINUTE, 100),
        latency_row_for(&a, NOW - 2 * MINUTE, 300),
        latency_row_for(&b, NOW - MINUTE, 900),
        unmarked_latency_row(NOW - 4 * MINUTE, 50),
    ]);
    let items = provider_items("acme", &stored, &healthy(2), Some(&latency), None);
    let la = items[0].latency.as_ref().unwrap();
    assert_eq!(la.avg_latency_ms, Some(200));
    assert_eq!(la.sample_count, 2);
    let lb = items[1].latency.as_ref().unwrap();
    assert_eq!(lb.avg_latency_ms, Some(900));
    assert_eq!(lb.sample_count, 1);
    for item in &items {
        let text = format!("{item:?}");
        assert!(!text.contains(&a.entry_fp()), "no fingerprint in the payload: {text}");
        assert!(!text.contains(&b.entry_fp()), "no fingerprint in the payload: {text}");
    }
}

#[test]
fn provider_items_merge_unmarked_stats_into_the_unique_enabled_card() {
    let a = account("sk-a");
    let stored = vec![a.copy()];
    let latency = latency_snapshot(vec![
        latency_row_for(&a, NOW - 3 * MINUTE, 100),
        unmarked_latency_row(NOW - 2 * MINUTE, 300),
        unmarked_latency_row(NOW - MINUTE, 500),
    ]);
    let items = provider_items("acme", &stored, &healthy(1), Some(&latency), None);
    let l = items[0].latency.as_ref().unwrap();
    assert_eq!(l.avg_latency_ms, Some(300), "(100+300+500)/3 — merged as raw sums");
    assert_eq!(l.sample_count, 3);
}

#[test]
fn provider_items_report_recorded_latency_next_to_the_probe() {
    let stored = vec![cfg("xiaomi")];
    let snapshot = latency_snapshot(vec![
        latency_row("xiaomi", NOW - 3 * MINUTE, 100, true),
        latency_row("xiaomi", NOW - 2 * MINUTE, 200, true),
        latency_row("xiaomi", NOW - MINUTE, 90_000, false),
    ]);
    let items = provider_items("xiaomi", &stored, &healthy(1), Some(&snapshot), None);
    let item = &items[0];
    assert_eq!(item.last_probe_latency_ms, 7, "the probe's own round trip");
    let l = item.latency.as_ref().unwrap();
    assert_eq!(l.avg_latency_ms, Some(150), "mean of the two successful calls");
    assert_eq!(l.sample_count, 2);
    assert_eq!(l.failure_count, 1);
    assert!(l.last_sample_at.is_some());
    let series = l.sparkline.as_ref().unwrap();
    assert_eq!(series.len(), SPARKLINE_BUCKETS);
    assert_eq!(series.iter().filter(|v| v.is_some()).count(), 1, "all three calls fall in the newest bucket");
}

#[test]
fn provider_items_without_samples_report_null_latency() {
    let stored = vec![cfg("xiaomi")];
    let items = provider_items("xiaomi", &stored, &healthy(1), None, None);
    assert!(items[0].latency.is_none(), "no readable samples: every latency metric is unknown");

    let items = provider_items("xiaomi", &stored, &healthy(1), Some(&latency_snapshot(Vec::new())), None);
    let l = items[0].latency.as_ref().unwrap();
    assert_eq!(l.sample_count, 0);
    assert_eq!(l.failure_count, 0);
    assert_eq!(l.avg_latency_ms, None, "0/0 is not a latency");
    assert!(l.sparkline.is_none());
}

fn probe_row(provider: &str, at: i64, latency_ms: Option<i64>, success: bool) -> ProbeSample {
    ProbeSample {
        provider: provider.to_string(),
        entry_fp: cfg(provider).entry_fp(),
        at,
        latency_ms,
        success,
        error: if success { None } else { Some("HTTP 401 Unauthorized".to_string()) },
    }
}

#[test]
fn provider_items_report_the_probe_average() {
    let stored = vec![cfg("xiaomi")];
    let snapshot = ProbeSnapshot::new(vec![
        probe_row("xiaomi", NOW - 30 * MINUTE, Some(30), true),
        probe_row("xiaomi", NOW - 5 * MINUTE, Some(50), true),
        probe_row("xiaomi", NOW, None, false),
    ]);
    let items = provider_items("xiaomi", &stored, &healthy(1), None, Some(&snapshot));
    let p = items[0].probe.as_ref().unwrap();
    assert_eq!(p.avg_latency_ms, Some(40), "mean of the two successful probes");
    assert_eq!(p.sample_count, 2, "the successful probes behind it");
    assert_eq!(items[0].last_probe_latency_ms, 7, "the instantaneous probe field keeps its own meaning");
    assert!(items[0].latency.is_none(), "no call samples: the call average is untouched and still unknown");
}

#[test]
fn provider_items_report_a_null_probe_average_when_nothing_succeeded() {
    let stored = vec![cfg("xiaomi")];
    let snapshot = ProbeSnapshot::new(vec![probe_row("xiaomi", NOW, None, false)]);
    let items = provider_items("xiaomi", &stored, &healthy(1), None, Some(&snapshot));
    let p = items[0].probe.as_ref().unwrap();
    assert_eq!(p.avg_latency_ms, None);
    assert_eq!(p.sample_count, 0, "measured: one probe, none of them good");

    let items = provider_items("xiaomi", &stored, &healthy(1), None, None);
    assert!(items[0].probe.is_none(), "without a readable probe table the count is unknown too");
}
