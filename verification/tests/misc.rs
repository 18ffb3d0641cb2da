use review_engine::catalog::{after_fetch, catalog_is_fresh, CatalogChoice, CatalogSource, CATALOG_CACHE_TTL_MS};
use review_engine::digest::{push_field, sha256_hex};
use review_engine::feedback::{validate_feedback, FeedbackRequest, FindingRef, Verdict};
use review_engine::keyed::KeyedEntries;
use review_engine::text::{
    eq_ignore_ascii_case, parse_usize, rsplit_once, starts_with, suffix_from, to_ascii_lower, trim, trim_url,
    usize_to_decimal,
};

fn request() -> FeedbackRequest {
    FeedbackRequest {
        finding_fingerprint: None,
        file: None,
        line: None,
        title: None,
        category: None,
        verdict: Some(Verdict::FalsePositive),
        comment: None,
    }
}

#[test]
fn feedback_with_locating_fields_is_accepted() {
    let mut req = request();
    req.file = Some("src/db.rs".to_string());
    req.line = Some(42);
    req.title = Some("SQL injection".to_string());
    req.category = Some("security".to_string());
    req.comment = Some("input is sanitised upstream".to_string());
    let v = validate_feedback(&req).unwrap();
    assert_eq!(v.verdict, Verdict::FalsePositive);
    assert_eq!(v.comment.as_deref(), Some("input is sanitised upstream"));
    assert_eq!(v.category.as_deref(), Some("security"));
    match v.finding {
        FindingRef::Locating { file, line, title, category } => {
            assert_eq!((file.as_str(), line, title.as_str(), category.as_str()), ("src/db.rs", Some(42), "SQL injection", "security"));
        }
        other => panic!("expected the locating triple, got {other:?}"),
    }
}

#[test]
fn feedback_with_a_fingerprint_only_is_accepted() {
    let mut req = request();
    req.finding_fingerprint = Some("0123456789abcdef".to_string());
    req.verdict = Some(Verdict::Useful);
    req.comment = Some("   ".to_string());
    let v = validate_feedback(&req).unwrap();
    assert!(matches!(v.finding, FindingRef::Fingerprint(ref f) if f == "0123456789abcdef"));
    assert_eq!(v.verdict, Verdict::Useful);
    assert_eq!(v.comment, None, "a blank comment is dropped");
    assert_eq!(v.category, None);
}

#[test]
fn feedback_without_a_verdict_is_refused() {
    let mut req = request();
    req.verdict = None;
    req.finding_fingerprint = Some("fp".to_string());
    let e = validate_feedback(&req).unwrap_err();
    assert_eq!(e.message, "verdict is required (\"useful\" or \"false_positive\")");
}

#[test]
fn feedback_without_fingerprint_or_locating_fields_names_what_is_missing() {
    let mut req = request();
    req.title = Some("t".to_string());
    req.file = Some("  ".to_string());
    let e = validate_feedback(&req).unwrap_err();
    assert_eq!(
        e.message,
        "finding_fingerprint is missing; provide it directly or supply file, category (line optional)"
    );
    let e = validate_feedback(&request()).unwrap_err();
    assert!(e.message.contains("file, title, category"));
}

#[test]
fn the_catalog_is_fresh_for_a_day() {
    assert_eq!(CATALOG_CACHE_TTL_MS, 86_400_000);
    assert!(catalog_is_fresh(1_000, 1_000 + CATALOG_CACHE_TTL_MS - 1));
    assert!(!catalog_is_fresh(1_000, 1_000 + CATALOG_CACHE_TTL_MS));
    assert!(catalog_is_fresh(i64::MAX, i64::MIN), "no overflow at the extremes");
}

#[test]
fn after_a_fetch_the_best_catalog_is_served() {
    assert_eq!(after_fetch(Some(CatalogSource::Network), 77, true), CatalogChoice::Fetched { cached_at: 77 });
    assert_eq!(after_fetch(Some(CatalogSource::DiskCache(5)), 77, false), CatalogChoice::Fetched { cached_at: 5 });
    assert_eq!(after_fetch(None, 77, true), CatalogChoice::Stale);
    assert_eq!(after_fetch(None, 77, false), CatalogChoice::Builtin);
}

#[test]
fn sha256_hex_matches_the_known_digests() {
    assert_eq!(sha256_hex(b""), "e3b0c44298fc1c149afbf4c8996fb92427ae41e4649b934ca495991b7852b855");
    assert_eq!(sha256_hex(b"abc"), "ba7816bf8f01cfea414140de5dae2223b00361a396177a9cb410ff61f20015ad");
}

#[test]
fn fields_are_joined_with_the_separator() {
    let mut out = Vec::new();
    push_field(&mut out, "ab", 0x1f);
    push_field(&mut out, "é", 0x1f);
    assert_eq!(out, vec![b'a', b'b', 0x1f, 0xc3, 0xa9, 0x1f]);
}

#[test]
fn keyed_entries_keep_one_value_per_key() {
    let mut m: KeyedEntries<u64> = KeyedEntries::new();
    m.insert("a".to_string(), 1);
    m.insert("b".to_string(), 2);
    m.insert("a".to_string(), 3);
    assert_eq!(m.len(), 2);
    assert_eq!(m.get("a"), Some(&3));
    m.remove("a");
    assert_eq!(m.get("a"), None);
    m.insert("c".to_string(), 4);
    let dropped = m.retain_keys(&vec!["c".to_string(), "zzz".to_string()]);
    assert_eq!(dropped, 1);
    assert_eq!(m.get("b"), None);
    assert_eq!(m.get("c"), Some(&4));
}

#[test]
fn text_helpers_behave_like_std() {
    assert_eq!(trim("  a b \t\n"), "a b");
    assert_eq!(trim_url(" https://x.example/// "), "https://x.example");
    assert_eq!(to_ascii_lower("AbC-É"), "abc-É");
    assert!(eq_ignore_ascii_case("OpenAI", "openai"));
    assert!(starts_with("enc:abc", "enc:"));
    assert!(!starts_with("en", "enc:"));
    assert_eq!(usize_to_decimal(0), "0");
    assert_eq!(usize_to_decimal(1203), "1203");
    assert_eq!(parse_usize("1203"), Some(1203));
    assert_eq!(parse_usize("+7"), Some(7));
    assert_eq!(parse_usize(""), None);
    assert_eq!(parse_usize("1x"), None);
    assert_eq!(parse_usize("99999999999999999999999999"), None);
    assert_eq!(rsplit_once("a-b-c", '-'), Some(("a-b".to_string(), "c".to_string())));
    assert_eq!(rsplit_once("abc", '-'), None);
    assert_eq!(suffix_from("whsec_abc", 6), "abc");
}
