use review_engine::llm_health::{LlmHealthStore, ProviderHealth};
use review_engine::llm_probe::{
    log_round, retention_cutoff, window_start, FailureLog, ProbeSample, ProbeSnapshot, ProcessMode, ProviderProbe,
    RoundEvent, StoreProbeSampleSink, PROBE_RETENTION_DAYS, PROBE_WINDOW_DAYS,
};
use review_engine::llm_latency::LATENCY_WINDOW_DAYS;
use review_engine::models::{LLMConfig, Temperature};

fn at(rfc3339: &str) -> i64 {
    chrono::DateTime::parse_from_rfc3339(rfc3339).unwrap().timestamp_millis()
}

fn sample(provider: &str, fp: &str, latency_ms: Option<i64>, success: bool) -> ProbeSample {
    ProbeSample {
        provider: provider.to_string(),
        entry_fp: fp.to_string(),
        at: 0,
        latency_ms,
        success,
        error: if success { None } else { Some("HTTP 401 Unauthorized".to_string()) },
    }
}

fn cfg(provider: &str, key: &str) -> LLMConfig {
    LLMConfig {
        provider: provider.to_string(),
        model: format!("{provider}-model"),
        api_key: key.to_string(),
        api_base: format!("https://api.{provider}.example/v1"),
        max_tokens: 4096,
        temperature: Temperature { bits: 0x3E99_999A },
        disable_thinking: None,
        disabled: false,
    }
}

#[test]
fn the_probe_window_is_the_latency_window() {
    let now = at("2026-09-15T12:00:00Z");
    assert_eq!(PROBE_WINDOW_DAYS, LATENCY_WINDOW_DAYS);
    assert_eq!(window_start(now), review_engine::llm_latency::window_start(now));
    assert_eq!(window_start(now), at("2026-09-08T12:00:00Z"));
    assert_eq!(PROBE_RETENTION_DAYS, 30);
    assert_eq!(retention_cutoff(now), at("2026-08-16T12:00:00Z"));
}

#[test]
fn the_average_uses_successful_samples_only() {
    let snapshot = ProbeSnapshot::new(vec![
        sample("xiaomi", "fp-a", Some(100), true),
        sample("xiaomi", "fp-a", Some(201), true),
        // A failure with (and without) a duration: neither enters.
        sample("xiaomi", "fp-a", None, false),
        sample("xiaomi", "fp-a", Some(90_000), false),
    ]);
    let probe = snapshot.for_card("xiaomi", "fp-a");
    assert_eq!(probe.avg_latency_ms, Some(151), "(100 + 201) / 2, failures excluded");
    assert_eq!(probe.sample_count, 2, "the average's denominator counts successes only");
}

#[test]
fn same_named_cards_fold_per_fingerprint() {
    let snapshot = ProbeSnapshot::new(vec![
        sample("acme", "fp-a", Some(20), true),
        sample("acme", "fp-b", Some(900), true),
        sample("acme", "fp-b", Some(1000), true),
    ]);
    assert_eq!(snapshot.for_card("acme", "fp-a").avg_latency_ms, Some(20));
    assert_eq!(snapshot.for_card("acme", "fp-b").avg_latency_ms, Some(950));
    assert_eq!(snapshot.for_card("acme", "fp-b").sample_count, 2);
    // A card the window never probed successfully: nothing measured.
    assert_eq!(snapshot.for_card("acme", "fp-c"), ProviderProbe::untouched());
    assert_eq!(snapshot.for_card("acme", "fp-c").avg_latency_ms, None);
    assert_eq!(snapshot.for_card("acme", "fp-c").sample_count, 0);
}

#[test]
fn no_successful_sample_is_null_and_not_zero() {
    let only_failures = ProbeSnapshot::new(vec![
        sample("broken", "fp-x", None, false),
        sample("broken", "fp-x", None, false),
    ]);
    assert_eq!(only_failures.for_card("broken", "fp-x").avg_latency_ms, None);
    assert_eq!(only_failures.for_card("broken", "fp-x").sample_count, 0);
    let empty = ProbeSnapshot::new(Vec::new());
    assert_eq!(empty.for_card("xiaomi", "fp-a"), ProviderProbe::untouched());
}

#[test]
fn consecutive_failures_are_logged_once_per_outage() {
    let mut log = FailureLog::new();
    assert_eq!(log.observe("fp-a", true), RoundEvent::Healthy, "healthy rounds are silent");
    assert_eq!(log.observe("fp-a", false), RoundEvent::FirstFailure);
    for _ in 0..5 {
        assert_eq!(log.observe("fp-a", false), RoundEvent::StillFailing, "a failing provider must not warn every round");
    }
    assert_eq!(log.observe("fp-a", true), RoundEvent::Recovered);
    assert_eq!(log.observe("fp-a", true), RoundEvent::Healthy, "and goes quiet again");
    // The memory is per card: one card's outage never silences another's.
    assert_eq!(log.observe("fp-b", false), RoundEvent::FirstFailure);
    assert_eq!(log.failing_count(), 1);
    assert_eq!(log.observe("fp-a", false), RoundEvent::FirstFailure, "a new outage is reported");
}

#[test]
fn only_transitions_are_log_worthy() {
    let mut log = FailureLog::new();
    let rounds: Vec<RoundEvent> = (0..10).map(|_| log.observe("fp-a", false)).collect();
    assert_eq!(rounds.iter().filter(|e| **e == RoundEvent::FirstFailure).count(), 1);
    assert_eq!(rounds[0], RoundEvent::FirstFailure);
    assert!(rounds[1..].iter().all(|e| *e == RoundEvent::StillFailing));
}

#[test]
fn server_mode_runs_the_loop_and_cli_mode_does_not() {
    assert!(ProcessMode::Server.runs_probe_loop());
    assert!(!ProcessMode::Cli.runs_probe_loop());
}

#[test]
fn the_sink_sweeps_once_per_process() {
    let mut sink = StoreProbeSampleSink::new();
    assert!(sink.sweep_due());
    assert!(!sink.sweep_due());
    assert!(!sink.sweep_due());
}

#[test]
fn a_round_logs_probed_cards_only() {
    let mut log = FailureLog::new();
    let mut off = cfg("off", "sk-o");
    off.disabled = true;
    let configs = vec![cfg("xiaomi", "sk-a"), cfg("ollama", ""), off, cfg("deepseek", "sk-d")];
    let reports = vec![
        ProviderHealth::error("HTTP 401".to_string(), 5),
        ProviderHealth::offline(),
        ProviderHealth::disabled(),
        ProviderHealth::healthy(9),
    ];
    let events = log_round(&mut log, &configs, &reports);
    assert_eq!(events, vec![Some(RoundEvent::FirstFailure), None, None, Some(RoundEvent::Healthy)]);
    assert_eq!(log.failing_count(), 1);
    let events = log_round(&mut log, &configs, &reports);
    assert_eq!(events[0], Some(RoundEvent::StillFailing));
    // The failure memory is keyed by the card's fingerprint.
    assert_eq!(configs[0].entry_fp(), LlmHealthStore::fingerprint(&configs[0]));
}

#[test]
fn a_card_is_failing_exactly_when_its_last_outcome_failed() {
    let mut log = FailureLog::new();
    for (fp, ok) in [("fp-a", false), ("fp-b", false), ("fp-a", true), ("fp-c", true), ("fp-b", false), ("fp-c", false)] {
        log.observe(fp, ok);
    }
    // a: last ok; b: last failed; c: last failed.
    assert_eq!(log.failing_count(), 2);
    assert_eq!(log.observe("fp-a", true), RoundEvent::Healthy, "a is not failing");
    assert_eq!(log.observe("fp-b", false), RoundEvent::StillFailing, "b is failing");
    assert_eq!(log.observe("fp-c", true), RoundEvent::Recovered, "c is failing until it recovers");
    assert_eq!(log.failing_count(), 1);
}

#[test]
fn probe_figures_ignore_row_order_and_failed_probes() {
    let forward = ProbeSnapshot::new(vec![
        sample("xiaomi", "fp-x", Some(30), true),
        sample("xiaomi", "fp-x", Some(50), true),
        sample("xiaomi", "fp-x", Some(45), true),
    ]);
    let shuffled = ProbeSnapshot::new(vec![
        sample("xiaomi", "fp-x", Some(45), true),
        sample("xiaomi", "fp-x", None, false),
        sample("xiaomi", "fp-x", Some(30), true),
        sample("deepseek", "fp-d", Some(999), true),
        sample("xiaomi", "fp-x", Some(50), true),
    ]);
    let a = forward.for_card("xiaomi", "fp-x");
    let b = shuffled.for_card("xiaomi", "fp-x");
    assert_eq!(a, b);
    assert_eq!(a.avg_latency_ms, Some(42), "(30+50+45)/3 rounded");
    assert_eq!(a.sample_count, 3);
}
