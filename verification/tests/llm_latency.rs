use review_engine::llm_latency::{
    bucket_of, bucket_seconds, rounded_mean, window_start, CallSample, LatencySnapshot, LATENCY_WINDOW_DAYS,
    SPARKLINE_BUCKETS,
};

/// Milliseconds since the epoch of an RFC 3339 instant.
fn at(rfc3339: &str) -> i64 {
    chrono::DateTime::parse_from_rfc3339(rfc3339).unwrap().timestamp_millis()
}

fn entry_row(provider: &str, model: &str, entry_fp: Option<&str>, created: i64, latency_ms: i64, success: bool) -> CallSample {
    CallSample {
        provider: provider.to_string(),
        model: model.to_string(),
        entry_fp: entry_fp.map(str::to_string),
        created_at: created,
        latency_ms,
        success,
    }
}

fn row(provider: &str, created: i64, latency_ms: i64, success: bool) -> CallSample {
    entry_row(
        provider,
        &format!("{provider}-model"),
        Some(&format!("fp-{provider}")),
        created,
        latency_ms,
        success,
    )
}

#[test]
fn window_is_seven_rolling_days_in_six_hour_buckets() {
    let now = at("2026-09-15T12:00:00Z");
    assert_eq!(window_start(now), at("2026-09-08T12:00:00Z"));
    assert_eq!(LATENCY_WINDOW_DAYS, 7);
    assert_eq!(bucket_seconds(), 6 * 60 * 60);
    assert_eq!(SPARKLINE_BUCKETS, 28);
}

#[test]
fn samples_average_per_provider_and_exclude_failures() {
    let since = at("2026-09-08T12:00:00Z");
    let snapshot = LatencySnapshot::new(
        since,
        vec![
            row("xiaomi", at("2026-09-14T10:00:00Z"), 100, true),
            row("xiaomi", at("2026-09-14T10:00:30Z"), 200, true),
            row("xiaomi", at("2026-09-14T11:00:00Z"), 300, true),
            // A failure at a wild latency must not move the average.
            row("xiaomi", at("2026-09-14T11:05:00Z"), 120_000, false),
            row("deepseek", at("2026-09-14T11:00:00Z"), 50, true),
            // A provider that is no longer configured still aggregates.
            row("retired", at("2026-09-10T11:00:00Z"), 10, true),
        ],
    );

    let xiaomi = snapshot.for_card("xiaomi", "xiaomi-model", "fp-xiaomi", false);
    assert_eq!(xiaomi.avg_latency_ms, Some(200), "mean of 100/200/300");
    assert_eq!(xiaomi.sample_count, 3);
    assert_eq!(xiaomi.failure_count, 1, "the failed call is counted, not averaged");
    assert_eq!(xiaomi.last_sample_at, Some(at("2026-09-14T11:05:00Z")), "last sample includes failures");

    let deepseek = snapshot.for_card("deepseek", "deepseek-model", "fp-deepseek", false);
    assert_eq!(deepseek.avg_latency_ms, Some(50));
    assert_eq!(deepseek.sample_count, 1);
    assert_eq!(deepseek.failure_count, 0);
    assert_eq!(snapshot.for_card("retired", "retired-model", "fp-retired", false).avg_latency_ms, Some(10));

    // A configured provider the window never called: zeros, no series.
    let untouched = snapshot.for_card("brand-new", "m", "fp-new", false);
    assert_eq!(untouched.avg_latency_ms, None, "0/0 is not an average");
    assert_eq!(untouched.sample_count, 0);
    assert_eq!(untouched.failure_count, 0);
    assert_eq!(untouched.last_sample_at, None);
    assert_eq!(untouched.sparkline, None);
}

#[test]
fn empty_window_reports_no_average() {
    let snapshot = LatencySnapshot::new(at("2026-09-08T12:00:00Z"), Vec::new());
    let latency = snapshot.for_card("xiaomi", "xiaomi-model", "fp-xiaomi", false);
    assert_eq!(latency.avg_latency_ms, None);
    assert_eq!(latency.sample_count, 0);
    assert_eq!(latency.failure_count, 0);
    assert_eq!(latency.sparkline, None);
}

#[test]
fn failures_alone_produce_no_average() {
    let since = at("2026-09-08T12:00:00Z");
    let snapshot = LatencySnapshot::new(
        since,
        vec![
            row("broken", at("2026-09-14T10:00:00Z"), 5, false),
            row("broken", at("2026-09-14T10:01:00Z"), 9, false),
        ],
    );
    let latency = snapshot.for_card("broken", "broken-model", "fp-broken", false);
    assert_eq!(latency.avg_latency_ms, None);
    assert_eq!(latency.sample_count, 0);
    assert_eq!(latency.failure_count, 2);
    assert_eq!(latency.last_sample_at, Some(at("2026-09-14T10:01:00Z")));
    // Failures alone draw no point of the series.
    assert_eq!(latency.sparkline.unwrap().iter().filter(|b| b.is_some()).count(), 0);
}

#[test]
fn sparkline_buckets_the_window_with_gaps() {
    let since = at("2026-09-08T12:00:00Z");
    let snapshot = LatencySnapshot::new(
        since,
        vec![
            // Bucket 0: [09-08 12:00, 09-08 18:00).
            row("xiaomi", at("2026-09-08T12:00:00Z"), 100, true),
            row("xiaomi", at("2026-09-08T17:59:59Z"), 300, true),
            // Bucket 1 is empty (gap).
            // Bucket 2: [09-09 00:00, 09-09 06:00).
            row("xiaomi", at("2026-09-09T00:00:00Z"), 400, true),
            // The last bucket is the newest 6 h of the window.
            row("xiaomi", at("2026-09-15T11:00:00Z"), 700, true),
            // A failure in bucket 2 must not shift its average.
            row("xiaomi", at("2026-09-09T01:00:00Z"), 60_000, false),
        ],
    );
    let series = snapshot.for_card("xiaomi", "xiaomi-model", "fp-xiaomi", false).sparkline.unwrap();
    assert_eq!(series.len(), SPARKLINE_BUCKETS, "one point per bucket");
    assert_eq!(series[0], Some(200), "mean of 100 and 300 in bucket 0");
    assert_eq!(series[1], None, "a bucket with no call is a gap");
    assert_eq!(series[2], Some(400), "the failed call stays out of the average");
    assert_eq!(series[SPARKLINE_BUCKETS - 1], Some(700));
    assert_eq!(series.iter().filter(|b| b.is_some()).count(), 3);
}

#[test]
fn bucket_index_is_clamped_to_the_window() {
    let since = at("2026-09-08T12:00:00Z");
    assert_eq!(bucket_of(since, since), 0);
    assert_eq!(bucket_of(since + 21_599_000, since), 0);
    assert_eq!(bucket_of(since + 21_600_000, since), 1);
    // A sample ahead of "now" (clock skew) lands in the last bucket.
    assert_eq!(bucket_of(since + 9 * 86_400_000, since), SPARKLINE_BUCKETS - 1, "clamped, not dropped");
    assert_eq!(bucket_of(since - 3_600_000, since), 0);
}

#[test]
fn averages_are_whole_milliseconds() {
    let since = at("2026-09-08T12:00:00Z");
    let snapshot = LatencySnapshot::new(
        since,
        vec![
            row("xiaomi", at("2026-09-14T10:00:00Z"), 100, true),
            row("xiaomi", at("2026-09-14T10:01:00Z"), 101, true),
        ],
    );
    let avg = snapshot.for_card("xiaomi", "xiaomi-model", "fp-xiaomi", false).avg_latency_ms.unwrap();
    assert_eq!(avg, 101, "100.5 rounds to 101");
}

#[test]
fn same_name_cards_fold_per_fingerprint() {
    let since = at("2026-09-08T12:00:00Z");
    let snapshot = LatencySnapshot::new(
        since,
        vec![
            entry_row("acme", "m1", Some("fp-a"), at("2026-09-14T10:00:00Z"), 100, true),
            entry_row("acme", "m1", Some("fp-a"), at("2026-09-14T10:05:00Z"), 300, true),
            entry_row("acme", "m1", Some("fp-b"), at("2026-09-14T10:00:00Z"), 900, true),
            entry_row("acme", "m1", Some("fp-b"), at("2026-09-14T10:01:00Z"), 5, false),
        ],
    );
    let a = snapshot.for_card("acme", "m1", "fp-a", false);
    assert_eq!(a.avg_latency_ms, Some(200), "mean of its own 100/300");
    assert_eq!(a.sample_count, 2);
    assert_eq!(a.failure_count, 0, "B's failure is not A's");
    let b = snapshot.for_card("acme", "m1", "fp-b", false);
    assert_eq!(b.avg_latency_ms, Some(900));
    assert_eq!(b.sample_count, 1);
    assert_eq!(b.failure_count, 1);
    // A fingerprint the window never saw: untouched.
    let other = snapshot.for_card("acme", "m1", "fp-c", false);
    assert_eq!(other.avg_latency_ms, None);
    assert_eq!(other.sample_count, 0);
}

#[test]
fn unmarked_fold_merges_as_raw_sums_only_when_flagged() {
    let since = at("2026-09-08T12:00:00Z");
    let snapshot = LatencySnapshot::new(
        since,
        vec![
            entry_row("acme", "m1", Some("fp-a"), at("2026-09-14T10:00:00Z"), 100, true),
            entry_row("acme", "m1", None, at("2026-09-13T10:00:00Z"), 300, true),
            entry_row("acme", "m1", None, at("2026-09-13T11:00:00Z"), 500, true),
            entry_row("acme", "m1", None, at("2026-09-13T11:05:00Z"), 7, false),
        ],
    );
    let merged = snapshot.for_card("acme", "m1", "fp-a", true);
    assert_eq!(merged.avg_latency_ms, Some(300), "(100+300+500)/3, not (100+400)/2");
    assert_eq!(merged.sample_count, 3);
    assert_eq!(merged.failure_count, 1, "the unmarked failure comes along");
    assert_eq!(merged.last_sample_at, Some(at("2026-09-14T10:00:00Z")), "newest across both folds");
    // The sparkline draws both folds' buckets.
    let series = merged.sparkline.unwrap();
    assert_eq!(series.iter().filter(|b| b.is_some()).count(), 2);

    let own_only = snapshot.for_card("acme", "m1", "fp-a", false);
    assert_eq!(own_only.avg_latency_ms, Some(100), "unflagged: no merge");
    assert_eq!(own_only.failure_count, 0);

    // A different (provider, model) pair never sees this unmarked fold.
    let other = snapshot.for_card("acme", "m2", "fp-b", true);
    assert_eq!(other.avg_latency_ms, None);
    assert_eq!(other.sample_count, 0);
}

#[test]
fn rounded_mean_rounds_halves_up() {
    assert_eq!(rounded_mean(201, 2), 101);
    assert_eq!(rounded_mean(200, 3), 67);
    assert_eq!(rounded_mean(199, 3), 66);
    assert_eq!(rounded_mean(0, 5), 0);
}

#[test]
fn rows_handed_over_are_all_counted_and_early_ones_clamp_to_the_first_bucket() {
    let since = at("2026-09-08T12:00:00Z");
    let snapshot = LatencySnapshot::new(
        since,
        vec![
            row("xiaomi", since - 1, 999, true),
            row("xiaomi", since, 100, true),
        ],
    );
    let l = snapshot.for_card("xiaomi", "xiaomi-model", "fp-xiaomi", false);
    assert_eq!(snapshot.since(), since);
    assert_eq!(l.sample_count, 2);
    assert_eq!(l.sparkline.unwrap()[0], Some(550), "(999 + 100) / 2 rounded");
}
