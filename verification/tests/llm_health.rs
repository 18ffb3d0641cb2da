use sha2::Digest;
use review_engine::llm_health::{LlmHealthStore, ProbeGate, ProviderHealth, ProviderStatus, ReportStep};
use review_engine::models::{LLMConfig, Temperature};

fn cfg(provider: &str, key: &str, base: &str) -> LLMConfig {
    LLMConfig {
        provider: provider.to_string(),
        model: format!("{provider}-model"),
        api_key: key.to_string(),
        api_base: base.to_string(),
        max_tokens: 4096,
        temperature: Temperature { bits: 0x3E99_999A },
        disable_thinking: None,
        disabled: false,
    }
}

fn health_at(checked_at: i64, latency_ms: u64) -> ProviderHealth {
    let mut h = ProviderHealth::healthy(latency_ms);
    h.checked_at = checked_at;
    h
}

#[test]
fn status_vocabularies_are_stable() {
    assert_eq!(ProviderStatus::Healthy.as_str(), "healthy");
    assert_eq!(ProviderStatus::Error.as_str(), "error");
    assert_eq!(ProviderStatus::Offline.as_str(), "offline");
    // Dashboard rows keep their own `success` spelling.
    assert_eq!(ProviderStatus::Healthy.dashboard_str(), "success");
    assert_eq!(ProviderStatus::Error.dashboard_str(), "error");
    assert_eq!(ProviderStatus::Offline.dashboard_str(), "offline");
}

#[test]
fn fingerprint_tracks_every_probe_relevant_field() {
    let base = cfg("openai", "sk-a", "https://api.openai.com/v1");
    assert_eq!(
        LlmHealthStore::fingerprint(&base),
        LlmHealthStore::fingerprint(&base.copy()),
        "same config, same key"
    );
    assert_eq!(LlmHealthStore::fingerprint(&base).len(), 64, "hex SHA-256");
    let mut other_model = base.copy();
    other_model.model = "gpt-4o-mini".to_string();
    for changed in [
        cfg("anthropic", "sk-a", "https://api.openai.com/v1"),
        cfg("openai", "sk-b", "https://api.openai.com/v1"),
        cfg("openai", "sk-a", "https://proxy.example/v1"),
        other_model,
    ] {
        assert_ne!(
            LlmHealthStore::fingerprint(&base),
            LlmHealthStore::fingerprint(&changed),
            "a changed config must not reuse the previous entry"
        );
    }
    // The key itself never appears in the cache key.
    assert!(!LlmHealthStore::fingerprint(&base).contains("sk-a"));
}

#[test]
fn disabled_and_keyless_cards_are_reported_without_a_probe() {
    let store = LlmHealthStore::new();
    let mut off = cfg("openai", "sk-a", "https://api.openai.com/v1");
    off.disabled = true;
    let keyless = cfg("ollama", "", "http://localhost:11434");
    let steps = store.plan_report(&vec![off, keyless], 0);
    assert!(matches!(steps[0], ReportStep::Disabled));
    assert!(matches!(steps[1], ReportStep::Offline));
}

#[test]
fn an_unknown_config_is_probed_under_its_fingerprint() {
    let store = LlmHealthStore::new();
    let c = cfg("openai", "sk-a", "https://api.openai.com/v1");
    let steps = store.plan_report(&vec![c.copy()], 0);
    match &steps[0] {
        ReportStep::Probe { key } => assert_eq!(key, &LlmHealthStore::fingerprint(&c)),
        _ => panic!("an unknown config must be probed"),
    }
}

#[test]
fn recorded_probe_is_served_while_fresh_then_refreshed() {
    let mut store = LlmHealthStore::with_ttl(1_000);
    let c = cfg("openai", "sk-a", "https://api.openai.com/v1");
    store.record(&c, health_at(10_000, 42));
    let steps = store.plan_report(&vec![c.copy()], 10_500);
    match &steps[0] {
        ReportStep::Cached { health, refresh } => {
            assert_eq!(health.latency_ms, 42);
            assert!(!refresh, "fresh entries are served as they are");
        }
        _ => panic!("a recorded probe must be served"),
    }
    let steps = store.plan_report(&vec![c.copy()], 11_000);
    match &steps[0] {
        ReportStep::Cached { refresh, .. } => assert!(*refresh, "stale entries ask for a refresh"),
        _ => panic!("a stale entry is still served"),
    }
}

#[test]
fn a_changed_key_is_not_answered_from_the_old_entry() {
    let mut store = LlmHealthStore::new();
    store.record(&cfg("openai", "sk-a", "https://api.openai.com/v1"), health_at(0, 1));
    let steps = store.plan_report(&vec![cfg("openai", "sk-b", "https://api.openai.com/v1")], 0);
    assert!(matches!(steps[0], ReportStep::Probe { .. }));
}

#[test]
fn keyless_configs_are_not_recorded() {
    let mut store = LlmHealthStore::new();
    let keyless = cfg("ollama", "", "http://localhost:11434");
    store.record(&keyless, health_at(0, 1));
    assert!(store.cached(&LlmHealthStore::fingerprint(&keyless)).is_none());
}

#[test]
fn retain_live_drops_only_the_changed_provider() {
    let mut store = LlmHealthStore::new();
    let a = cfg("openai", "sk-a", "https://api.openai.com/v1");
    let b = cfg("anthropic", "sk-b", "https://api.anthropic.com");
    store.record(&a, health_at(0, 1));
    store.record(&b, health_at(0, 2));
    let b2 = cfg("anthropic", "sk-b2", "https://api.anthropic.com");
    let dropped = store.retain_live(&vec![a.copy(), b2]);
    assert_eq!(dropped, 1);
    assert!(store.cached(&LlmHealthStore::fingerprint(&a)).is_some());
    assert!(store.cached(&LlmHealthStore::fingerprint(&b)).is_none());
}

#[test]
fn store_probe_makes_the_result_the_cached_one() {
    let mut store = LlmHealthStore::new();
    let c = cfg("openai", "sk-a", "https://api.openai.com/v1");
    let key = LlmHealthStore::fingerprint(&c);
    store.store_probe(key.clone(), ProviderHealth::error("HTTP 401".to_string(), 9));
    let h = store.cached(&key).unwrap();
    assert_eq!(h.status, ProviderStatus::Error);
    assert_eq!(h.message, "HTTP 401");
    assert_eq!(h.latency_ms, 9);
}

#[test]
fn probe_outcomes_become_health_reports() {
    let ok = ProviderHealth::from_probe(Ok(()), 12);
    assert_eq!(ok.status, ProviderStatus::Healthy);
    assert_eq!(ok.message, "Configured");
    assert_eq!(ok.latency_ms, 12);
    let err = ProviderHealth::from_probe(Err("timeout".to_string()), 3000);
    assert_eq!(err.status, ProviderStatus::Error);
    assert_eq!(err.message, "timeout");
    assert_eq!(ProviderHealth::offline().message, "Missing API key");
    assert_eq!(ProviderHealth::disabled().message, "Disabled");
    assert_eq!(ProviderStatus::Disabled.as_str(), "disabled");
}

#[test]
fn freshness_is_measured_against_the_ttl() {
    let store = LlmHealthStore::with_ttl(500);
    assert!(store.is_fresh(&health_at(1_000, 0), 1_499));
    assert!(!store.is_fresh(&health_at(1_000, 0), 1_500));
}

#[test]
fn fingerprint_is_the_hex_sha256_of_the_separated_fields() {
    let c = cfg("openai", "sk-a", "https://api.openai.com/v1");
    let mut h = sha2::Sha256::new();
    for f in ["openai", "openai-model", "https://api.openai.com/v1", "sk-a"] {
        h.update(f.as_bytes());
        h.update([0x1f]);
    }
    assert_eq!(LlmHealthStore::fingerprint(&c), hex::encode(h.finalize()));
}

fn probed_at(at: i64) -> ProviderHealth {
    ProviderHealth { status: ProviderStatus::Healthy, message: "Configured".to_string(), latency_ms: 12, checked_at: at }
}

#[test]
fn concurrent_readers_share_one_probe_per_provider() {
    let mut store = LlmHealthStore::new();
    let key = LlmHealthStore::fingerprint(&cfg("xiaomi", "sk-x", "https://api.xiaomi.example/v1"));
    let now = 1_789_300_000_000;
    // The first reader of a cold config runs the probe; a second one waits.
    assert!(matches!(store.begin_probe(&key, now), ProbeGate::Run));
    assert!(matches!(store.begin_probe(&key, now), ProbeGate::Wait));
    // Once stored, the waiting reader is served the fresh result, no second probe.
    store.store_probe(key.clone(), probed_at(now));
    match store.begin_probe(&key, now + 1_000) {
        ProbeGate::Serve(h) => assert_eq!((h.latency_ms, h.checked_at), (12, now)),
        other => panic!("expected the fresh result to be served, got {other:?}"),
    }
}

#[test]
fn a_stale_entry_is_refreshed_once_while_its_probe_runs() {
    let mut store = LlmHealthStore::new();
    let key = LlmHealthStore::fingerprint(&cfg("xiaomi", "sk-x", "https://api.xiaomi.example/v1"));
    let now = 1_789_300_000_000;
    store.store_probe(key.clone(), probed_at(now - 120_000));
    assert!(store.begin_refresh(&key), "the first reader starts the background refresh");
    assert!(!store.begin_refresh(&key), "later readers leave it to the running one");
    // A reader that needs the probe meanwhile waits for it (the entry is stale).
    assert!(matches!(store.begin_probe(&key, now), ProbeGate::Wait));
    store.store_probe(key.clone(), probed_at(now));
    assert!(store.begin_refresh(&key), "the flight ended with the stored result");
}
