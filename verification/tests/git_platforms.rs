use review_engine::config::apply::masked_platforms;
use review_engine::config::put::{resolve_git_platforms, sanitize_allowed_projects};
use review_engine::config::types::{UiGitPlatformConfig, API_KEY_MASK};
use review_engine::models::GitPlatformConfig;

fn ui_platform(name: &str, base_url: &str, token: &str, webhook_secret: &str) -> UiGitPlatformConfig {
    UiGitPlatformConfig {
        id: String::new(),
        name: name.to_string(),
        platform_type: "gitlab".to_string(),
        base_url: base_url.to_string(),
        internal_base_url: String::new(),
        token: token.to_string(),
        webhook_secret: webhook_secret.to_string(),
        webhook_signing_secret: String::new(),
        allowed_projects: vec![],
    }
}

fn testbed() -> UiGitPlatformConfig {
    ui_platform("testbed", "http://gitlab.internal:8929", "glpat-platform", "wh-platform")
}

fn stored_after(submitted: Vec<UiGitPlatformConfig>, existing: &Vec<GitPlatformConfig>) -> Vec<GitPlatformConfig> {
    resolve_git_platforms(&submitted, existing).unwrap()
}

#[test]
fn a_new_platform_is_stored_with_its_secrets_and_served_masked() {
    let stored = stored_after(vec![testbed()], &vec![]);
    assert_eq!(stored.len(), 1);
    assert_eq!(stored[0].platform_type, "gitlab");
    assert_eq!(stored[0].base_url, "http://gitlab.internal:8929");
    assert_eq!(stored[0].token, "glpat-platform");
    assert_eq!(stored[0].webhook_secret, "wh-platform");
    assert_eq!(stored[0].id.len(), 36, "a fresh UUID");
    let shown = masked_platforms(&stored);
    assert_eq!(shown[0].token, API_KEY_MASK);
    assert_eq!(shown[0].webhook_secret, API_KEY_MASK);
    assert_eq!(shown[0].webhook_signing_secret, "", "an unset secret shows empty");
    assert_eq!(shown[0].base_url, "http://gitlab.internal:8929");
}

#[test]
fn allowed_projects_are_trimmed_deduplicated_and_blank_free() {
    let mut p = testbed();
    p.allowed_projects = [" group/a ", "   ", "", "group/b", "group/a", "group/b", "group/c "]
        .iter()
        .map(|s| s.to_string())
        .collect();
    let stored = stored_after(vec![p], &vec![]);
    assert_eq!(stored[0].allowed_projects, vec!["group/a", "group/b", "group/c"]);
    assert_eq!(
        sanitize_allowed_projects(&vec![" x ".to_string(), "x".to_string(), " ".to_string()]),
        vec!["x".to_string()]
    );
}

#[test]
fn masked_or_blank_secrets_keep_the_stored_ones() {
    let existing = stored_after(vec![testbed()], &vec![]);
    let kept = stored_after(
        vec![ui_platform("testbed", "http://gitlab.internal:8929", API_KEY_MASK, "")],
        &existing,
    );
    assert_eq!(kept[0].token, "glpat-platform", "masked token keeps stored secret");
    assert_eq!(kept[0].webhook_secret, "wh-platform", "blank webhookSecret keeps stored secret");
    assert_eq!(kept[0].id, existing[0].id, "the entry keeps its identity");
    let replaced = stored_after(
        vec![ui_platform("testbed", "http://gitlab.internal:8929", "glpat-new", "")],
        &kept,
    );
    assert_eq!(replaced[0].token, "glpat-new");
}

#[test]
fn put_git_platforms_base_url_change_does_not_inherit_secrets() {
    let existing = stored_after(vec![testbed()], &vec![]);
    // Same name, different baseUrl, masked secrets: the (name, baseUrl) pair
    // is a different instance, so nothing carries over.
    let moved = stored_after(
        vec![ui_platform("testbed", "http://gitlab.internal:9000", API_KEY_MASK, API_KEY_MASK)],
        &existing,
    );
    assert_eq!(moved[0].base_url, "http://gitlab.internal:9000");
    assert!(moved[0].token.is_empty(), "changed baseUrl must not inherit the old instance's token");
    assert!(moved[0].webhook_secret.is_empty(), "changed baseUrl must not inherit the old instance's webhook secret");
    // The projection shows empty (unconfigured) secrets, not a mask.
    let shown = masked_platforms(&moved);
    assert_eq!(shown[0].token, "");
    assert_eq!(shown[0].webhook_secret, "");
}

#[test]
fn the_clear_sentinel_clears_a_stored_secret() {
    let existing = stored_after(vec![testbed()], &vec![]);
    let cleared = stored_after(
        vec![ui_platform("testbed", "http://gitlab.internal:8929", "__CLEAR__", "")],
        &existing,
    );
    assert!(cleared[0].token.is_empty());
    assert_eq!(cleared[0].webhook_secret, "wh-platform");
    let shown = masked_platforms(&cleared);
    assert_eq!(shown[0].token, "", "an unset secret is shown empty, not masked");
}

#[test]
fn a_submitted_id_is_the_identity() {
    let existing = stored_after(vec![testbed()], &vec![]);
    let mut renamed = ui_platform("renamed", "http://gitlab.internal:8929", API_KEY_MASK, "");
    renamed.id = existing[0].id.clone();
    let after = stored_after(vec![renamed], &existing);
    assert_eq!(after[0].id, existing[0].id);
    assert_eq!(after[0].name, "renamed");
    assert_eq!(after[0].token, "glpat-platform", "a rename keeps the credentials of the same id");
    let mut moved = ui_platform("testbed", "http://gitlab.internal:9000", API_KEY_MASK, "");
    moved.id = existing[0].id.clone();
    let after = stored_after(vec![moved], &existing);
    assert_eq!(after[0].token, "glpat-platform", "the entry its id names keeps its credentials");
}

#[test]
fn invalid_base_urls_are_rejected() {
    for base_url in ["", "   ", "not a url", "ftp://gitlab.internal", "http:///no-host"] {
        let mut bad = testbed();
        bad.base_url = base_url.to_string();
        let err = resolve_git_platforms(&vec![bad], &vec![]).unwrap_err();
        assert!(err.starts_with("invalid baseUrl"), "baseUrl {base_url:?} must be rejected: {err}");
    }
}

#[test]
fn internal_base_url_is_optional_but_validated() {
    for internal in ["", "   "] {
        let mut p = testbed();
        p.internal_base_url = internal.to_string();
        let stored = stored_after(vec![p], &vec![]);
        assert!(stored[0].internal_base_url.is_empty(), "blank internalBaseUrl stores as unconfigured");
    }
    let mut p = testbed();
    p.internal_base_url = "https://gitlab.islet.space".to_string();
    let stored = stored_after(vec![p], &vec![]);
    assert_eq!(stored[0].internal_base_url, "https://gitlab.islet.space");
    assert_eq!(masked_platforms(&stored)[0].internal_base_url, "https://gitlab.islet.space", "never masked");
    for internal in ["not a url", "ftp://gitlab.internal", "http:///no-host"] {
        let mut bad = testbed();
        bad.internal_base_url = internal.to_string();
        let err = resolve_git_platforms(&vec![bad], &vec![]).unwrap_err();
        assert!(err.starts_with("invalid internalBaseUrl"), "{internal:?} must be rejected: {err}");
    }
}

#[test]
fn the_submitted_array_replaces_the_whole_set() {
    let mut second = testbed();
    second.name = "prod".to_string();
    let existing = stored_after(vec![testbed(), second], &vec![]);
    assert_eq!(existing.len(), 2);
    let after = stored_after(vec![testbed()], &existing);
    assert_eq!(after.len(), 1);
    assert_eq!(after[0].name, "testbed");
    assert!(stored_after(vec![], &after).is_empty(), "an empty array clears the set");
}

#[test]
fn unknown_platform_types_are_rejected() {
    let mut bad = testbed();
    bad.platform_type = "gitea".to_string();
    let err = resolve_git_platforms(&vec![bad], &vec![]).unwrap_err();
    assert_eq!(err, "unsupported git platform type 'gitea' for entry 'testbed' (only 'gitlab' is implemented)");
    // A blank type means gitlab.
    let mut blank = testbed();
    blank.platform_type = String::new();
    assert_eq!(stored_after(vec![blank], &vec![])[0].platform_type, "gitlab");
}

#[test]
fn nameless_entries_are_skipped_and_the_last_duplicate_wins() {
    let stored = stored_after(
        vec![
            ui_platform("", "http://x.internal", "", ""),
            ui_platform("testbed", "http://a.internal", "glpat-a", ""),
            ui_platform("testbed", "http://b.internal", "glpat-b", ""),
        ],
        &vec![],
    );
    assert_eq!(stored.len(), 1);
    assert_eq!(stored[0].base_url, "http://b.internal", "duplicate name: last write wins");
    assert_eq!(stored[0].token, "glpat-b");
}
