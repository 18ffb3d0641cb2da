use sha2::Digest;
use review_engine::git_health::{
    integration_row, GitHealthStore, GitPlatformHealth, GitPlatformStatus, IntegrationStatus,
};
use review_engine::models::GitPlatformConfig;

fn platform(name: &str, platform_type: &str, base_url: &str, token: &str) -> GitPlatformConfig {
    GitPlatformConfig {
        id: format!("id-{name}"),
        name: name.to_string(),
        platform_type: platform_type.to_string(),
        base_url: base_url.to_string(),
        internal_base_url: String::new(),
        token: token.to_string(),
        webhook_secret: String::new(),
        webhook_signing_secret: String::new(),
        allowed_projects: vec![],
    }
}

fn record_at(store: &mut GitHealthStore, p: &GitPlatformConfig, at: i64, health: GitPlatformHealth) {
    let mut health = health;
    health.checked_at = at;
    store.record(&p.base_url, &p.token, health);
}

#[test]
fn fingerprint_tracks_base_url_and_token() {
    let a = GitPlatformHealth::fingerprint("https://gitlab.example", "tok-a");
    assert_eq!(a, GitPlatformHealth::fingerprint("https://gitlab.example", "tok-a"));
    assert_eq!(a.len(), 12);
    assert!(a.chars().all(|c| c.is_ascii_hexdigit()));
    assert_ne!(a, GitPlatformHealth::fingerprint("https://gitlab.example", "tok-b"));
    assert_ne!(a, GitPlatformHealth::fingerprint("https://other.example", "tok-a"));
    // The token never appears in the key.
    assert!(!a.contains("tok-a"));
}

#[test]
fn lookup_ignores_a_probe_run_with_a_different_token() {
    let mut store = GitHealthStore::new();
    let stored = platform("gitlab", "gitlab", "https://gitlab.example", "stored-tok");
    store.record("https://gitlab.example", "candidate-tok", GitPlatformHealth::healthy(None, 5));
    assert!(
        store.lookup(&stored).is_none(),
        "a candidate token tested but never saved must not report the stored entry's health"
    );
    store.record("https://gitlab.example", "stored-tok", GitPlatformHealth::healthy(None, 5));
    assert!(store.lookup(&stored).is_some(), "the stored token's probe is served");
    // A credential change invalidates the old outcome until re-probed.
    let rotated = platform("gitlab", "gitlab", "https://gitlab.example", "new-tok");
    assert!(store.lookup(&rotated).is_none(), "a rotated token must not be answered by the old probe");
}

#[test]
fn retain_live_drops_only_removed_base_urls() {
    let mut store = GitHealthStore::new();
    let a = platform("a", "gitlab", "https://a.example", "t");
    let b = platform("b", "gitlab", "https://b.example", "t");
    store.record(&a.base_url, &a.token, GitPlatformHealth::healthy(None, 1));
    store.record(&b.base_url, &b.token, GitPlatformHealth::healthy(None, 1));
    assert_eq!(store.retain_live(&vec![a.copy()]), 1);
    assert!(store.lookup(&a).is_some());
    assert!(store.lookup(&b).is_none());
}

#[test]
fn no_platform_and_no_env_flag_is_offline() {
    let store = GitHealthStore::new();
    let row = integration_row(&vec![], &store, "GitLab API", "gitlab", false);
    assert_eq!(row.status, IntegrationStatus::Offline);
    assert_eq!(row.status.as_str(), "offline");
    assert_eq!(row.message, "Not configured");
    assert_eq!(row.checked_at, None);
}

#[test]
fn configured_but_never_probed_reads_unknown() {
    let store = GitHealthStore::new();
    let ps = vec![platform("gitlab", "gitlab", "https://gitlab.example", "t")];
    let row = integration_row(&ps, &store, "GitLab API", "gitlab", false);
    assert_eq!(row.status.as_str(), "unknown");
    assert_eq!(row.message, "Not probed yet");
    assert_eq!(row.checked_at, None);
    assert_eq!(row.latency_ms, None);
    // The env flag alone is no health either.
    let row = integration_row(&vec![], &store, "GitLab API", "gitlab", true);
    assert_eq!(row.status.as_str(), "unknown");
    assert_eq!(row.message, "Not probed yet");
}

#[test]
fn a_failed_probe_reads_error_with_its_message() {
    let mut store = GitHealthStore::new();
    let gitlab = platform("gitlab", "gitlab", "https://gitlab.example", "t");
    record_at(&mut store, &gitlab, 1_000, GitPlatformHealth::error("HTTP 401 Unauthorized".to_string()));
    let row = integration_row(&vec![gitlab.copy()], &store, "GitLab API", "gitlab", false);
    assert_eq!(row.status, IntegrationStatus::Error);
    assert_eq!(row.message, "HTTP 401 Unauthorized");
    assert_eq!(row.checked_at, Some(1_000));
    assert_eq!(row.latency_ms, None, "a failed probe records no latency");
}

#[test]
fn a_successful_probe_reads_success_with_latency() {
    let mut store = GitHealthStore::new();
    let gitlab = platform("gitlab", "gitlab", "https://gitlab.example", "t");
    record_at(&mut store, &gitlab, 2_000, GitPlatformHealth::healthy(Some("16.9.0".to_string()), 47));
    let row = integration_row(&vec![gitlab.copy()], &store, "GitLab API", "gitlab", false);
    assert_eq!(row.status.as_str(), "success");
    assert_eq!(row.message, "Configured");
    assert_eq!(row.latency_ms, Some(47));
    assert_eq!(row.checked_at, Some(2_000));
    assert_eq!(row.service, "GitLab API");
}

#[test]
fn any_failure_governs_entries_of_one_type() {
    let mut store = GitHealthStore::new();
    let gitlab = platform("gitlab", "gitlab", "https://gitlab.example", "t");
    let other = platform("other", "gitlab", "https://other.example", "t");
    record_at(&mut store, &gitlab, 5_000, GitPlatformHealth::healthy(None, 5));
    record_at(&mut store, &other, 1_000, GitPlatformHealth::error("HTTP 403 Forbidden".to_string()));
    let row = integration_row(&vec![gitlab.copy(), other.copy()], &store, "GitLab API", "gitlab", false);
    assert_eq!(row.status.as_str(), "error", "a broken sibling must not be masked");
    assert_eq!(row.message, "HTTP 403 Forbidden");
}

#[test]
fn the_most_recent_success_stands_when_all_succeed() {
    let mut store = GitHealthStore::new();
    let gitlab = platform("gitlab", "gitlab", "https://gitlab.example", "t");
    let other = platform("other", "gitlab", "https://other.example", "t");
    record_at(&mut store, &gitlab, 1_000, GitPlatformHealth::healthy(Some("16.9.0".to_string()), 42));
    record_at(&mut store, &other, 2_000, GitPlatformHealth::healthy(Some("16.9.0".to_string()), 7));
    let row = integration_row(&vec![gitlab.copy(), other.copy()], &store, "GitLab API", "gitlab", false);
    assert_eq!(row.status.as_str(), "success");
    assert_eq!(row.latency_ms, Some(7), "the newest successful probe's latency");
    assert_eq!(row.checked_at, Some(2_000));
}

#[test]
fn platforms_of_another_type_do_not_count() {
    let mut store = GitHealthStore::new();
    let gh = platform("gh", "github", "https://github.example", "t");
    record_at(&mut store, &gh, 1_000, GitPlatformHealth::error("down".to_string()));
    let row = integration_row(&vec![gh.copy()], &store, "GitLab API", "gitlab", false);
    assert_eq!(row.status.as_str(), "offline");
    assert_eq!(GitPlatformStatus::Error, store.lookup(&gh).unwrap().status);
}

#[test]
fn fingerprint_is_the_first_twelve_hex_digits_of_the_digest() {
    let mut h = sha2::Sha256::new();
    h.update(b"https://gitlab.example\n");
    h.update(b"tok-a\n");
    let full = hex::encode(h.finalize());
    assert_eq!(GitPlatformHealth::fingerprint("https://gitlab.example", "tok-a"), full[..12]);
}
