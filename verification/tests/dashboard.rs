use chrono::{Datelike, NaiveDate, Timelike};
use review_engine::dashboard::{
    compute_kpis, default_kpis, pct_change_tenths, rate_delta_tenths, success_rate_tenths, Kpis, WindowCounts,
    avg_duration_ms, compute_trend, compute_trend_daily, dashboard_windows, day_start, iso_week_start,
    local_midnight, overall_health, recent_review_order, OverallHealth,
};
use review_engine::llm_health::ProviderStatus;
use review_engine::llm_health::ProviderStatus::{Disabled, Error, Healthy, Offline};

const MICROS_PER_HOUR: i64 = 3_600_000_000;

/// Days since 1970-01-01 of a calendar date.
fn day(y: i32, m: u32, d: u32) -> i64 {
    NaiveDate::from_ymd_opt(y, m, d)
        .unwrap()
        .signed_duration_since(NaiveDate::from_ymd_opt(1970, 1, 1).unwrap())
        .num_days()
}

/// The local wall-clock time of a microsecond instant at `offset_secs` east of UTC.
fn wall(us: i64, offset_secs: i64) -> chrono::NaiveDateTime {
    chrono::DateTime::from_timestamp_micros(us + offset_secs * 1_000_000).unwrap().naive_utc()
}

#[test]
fn iso_week_start_is_monday_midnight_local() {
    for offset in [0i64, 8 * 3600, -5 * 3600] {
        // 2026-09-09 is a Wednesday; 2026-09-07 the Monday of that ISO week.
        let start = wall(iso_week_start(day(2026, 9, 9), offset), offset);
        assert_eq!(start.date(), NaiveDate::from_ymd_opt(2026, 9, 7).unwrap());
        assert_eq!((start.hour(), start.minute(), start.second()), (0, 0, 0));
        assert_eq!(start.weekday(), chrono::Weekday::Mon);
        // A Monday is its own week start.
        let start = wall(iso_week_start(day(2026, 9, 7), offset), offset);
        assert_eq!(start.date(), NaiveDate::from_ymd_opt(2026, 9, 7).unwrap());
        // Sunday belongs to the ISO week that started the previous Monday.
        let start = wall(iso_week_start(day(2026, 9, 13), offset), offset);
        assert_eq!(start.date(), NaiveDate::from_ymd_opt(2026, 9, 7).unwrap());
    }
}

#[test]
fn day_start_is_local_midnight() {
    for offset in [0i64, 8 * 3600, -5 * 3600] {
        let start = wall(day_start(day(2026, 9, 9), offset), offset);
        assert_eq!(start.date(), NaiveDate::from_ymd_opt(2026, 9, 9).unwrap());
        assert_eq!((start.hour(), start.minute(), start.second()), (0, 0, 0));
    }
    // UTC+8 midnight is 16:00 UTC the day before.
    assert_eq!(local_midnight(1, 8 * 3600), (86_400 - 28_800) * 1_000_000);
}

#[test]
fn daily_trend_buckets_by_local_calendar_day() {
    let offset = 2 * 3600;
    let today = day(2026, 9, 13);
    let aug31 = local_midnight(day(2026, 8, 31), offset);
    let sep1 = local_midnight(day(2026, 9, 1), offset);
    let created = vec![aug31 + 2 * MICROS_PER_HOUR, sep1 + 2 * MICROS_PER_HOUR];

    let points = compute_trend_daily(&created, today, offset);
    assert_eq!(points.len(), 14, "exactly 14 daily points");
    // Window: Aug 31 ..= Sep 13, oldest first.
    assert_eq!(points[0].time, aug31 / 1_000_000);
    assert_eq!(points[13].time, local_midnight(today, offset) / 1_000_000);
    // Month boundary: each review sits in its own day's bucket.
    assert_eq!(points[0].value, 1, "Aug 31 review in the Aug 31 bucket");
    assert_eq!(points[1].time, sep1 / 1_000_000);
    assert_eq!(points[1].value, 1, "Sep 1 review in the Sep 1 bucket");
    assert_eq!(points.iter().map(|p| p.value).sum::<u64>(), 2, "no review is double-counted");
    for w in points.windows(2) {
        assert_eq!(w[1].time - w[0].time, 86_400, "one midnight step apart");
    }
}

#[test]
fn hourly_trend_has_24_buckets_ending_now() {
    let now = 1_000 * MICROS_PER_HOUR + 123;
    let created = vec![
        now - 1,                         // last bucket
        now - MICROS_PER_HOUR - 1,       // second-to-last bucket
        now - 24 * MICROS_PER_HOUR,      // first bucket's start
        now - 24 * MICROS_PER_HOUR - 1,  // before the window
        now,                             // the bucket end is exclusive
        now - MICROS_PER_HOUR,           // the last bucket's start is inclusive
    ];
    let points = compute_trend(&created, now);
    assert_eq!(points.len(), 24);
    assert_eq!(points[23].time, now / 1_000_000);
    assert_eq!(points[23].value, 2);
    assert_eq!(points[22].value, 1);
    assert_eq!(points[0].value, 1);
    assert_eq!(points[0].time, (now - 23 * MICROS_PER_HOUR) / 1_000_000);
    assert_eq!(points.iter().map(|p| p.value).sum::<u64>(), 4);
}

#[test]
fn dashboard_windows_line_up_with_the_anchors() {
    let offset = 3600;
    let today = day(2026, 9, 9);
    let w = dashboard_windows(today, offset);
    assert_eq!(w.week_start, iso_week_start(today, offset));
    assert_eq!(w.last_week_start, w.week_start - 7 * 24 * MICROS_PER_HOUR);
    assert_eq!(w.last_week_end, w.week_start - 1);
    assert_eq!(w.today_start, day_start(today, offset));
    assert_eq!(w.yesterday_start, w.today_start - 24 * MICROS_PER_HOUR);
    assert_eq!(w.yesterday_end, w.today_start - 1);
    assert_eq!(w.trend_window_start, local_midnight(today - 13, offset));
}

#[test]
fn average_duration_ignores_unmeasured_reviews() {
    assert_eq!(avg_duration_ms(&vec![]), None);
    assert_eq!(avg_duration_ms(&vec![None, None]), None);
    assert_eq!(avg_duration_ms(&vec![Some(1000), None, Some(2001)]), Some(1500));
    assert_eq!(avg_duration_ms(&vec![Some(7)]), Some(7));
}

#[test]
fn overall_health_follows_the_enabled_providers() {
    assert_eq!(overall_health(&vec![]), OverallHealth::Offline);
    assert_eq!(overall_health(&vec![Disabled, Disabled]), OverallHealth::Offline);
    assert_eq!(overall_health(&vec![Healthy, Disabled]), OverallHealth::Success);
    assert_eq!(overall_health(&vec![Healthy, Error]), OverallHealth::Warning);
    assert_eq!(overall_health(&vec![Error, Offline, Disabled]), OverallHealth::Error);
    assert_eq!(OverallHealth::Success.as_str(), "success");
    assert_eq!(OverallHealth::Warning.as_str(), "warning");
    assert_eq!(OverallHealth::Offline.as_str(), "offline");
    assert_eq!(OverallHealth::Error.as_str(), "error");
}

#[test]
fn recent_reviews_are_the_newest_five_newest_first() {
    let created = vec![10, 70, 30, 50, 20, 60, 40];
    assert_eq!(recent_review_order(&created), vec![1, 5, 3, 6, 2]);
    // Fewer than five: all of them.
    assert_eq!(recent_review_order(&vec![5, 9]), vec![1, 0]);
    assert!(recent_review_order(&vec![]).is_empty());
}

// Rates and trends are carried in tenths of a percent: 25.0 % is 250.

#[test]
fn pct_change_is_relative_percent_with_null_for_empty_comparison() {
    assert_eq!(pct_change_tenths(5, 4), Some(250));
    assert_eq!(pct_change_tenths(4, 5), Some(-200));
    assert_eq!(pct_change_tenths(3, 3), Some(0));
    // Empty comparison window: no number, never a fake 0.
    assert_eq!(pct_change_tenths(3, 0), None);
    assert_eq!(pct_change_tenths(0, 0), None);
}

#[test]
fn rate_delta_is_percentage_points_and_null_without_both_windows() {
    assert_eq!(rate_delta_tenths(Some(1000), Some(800)), Some(200));
    assert_eq!(rate_delta_tenths(Some(500), Some(800)), Some(-300));
    assert_eq!(rate_delta_tenths(None, Some(800)), None);
    assert_eq!(rate_delta_tenths(Some(1000), None), None);
    assert_eq!(rate_delta_tenths(None, None), None);
}

#[test]
fn success_rate_is_null_without_terminal_reviews() {
    assert_eq!(success_rate_tenths(9, 1), Some(900));
    assert_eq!(success_rate_tenths(0, 4), Some(0));
    assert_eq!(success_rate_tenths(0, 0), None);
    // One decimal, rounded: 2/3 is 66.7 %, 1/3 is 33.3 %, 1/8 is 12.5 %.
    assert_eq!(success_rate_tenths(2, 1), Some(667));
    assert_eq!(success_rate_tenths(1, 2), Some(333));
    assert_eq!(success_rate_tenths(1, 7), Some(125));
    // Halves round away from zero both ways.
    assert_eq!(pct_change_tenths(1, 8000), Some(-1000));
    assert_eq!(pct_change_tenths(2001, 2000), Some(1));
    assert_eq!(pct_change_tenths(1999, 2000), Some(-1));
}

#[test]
fn kpis_follow_the_window_counts() {
    let w = WindowCounts {
        this_week_all: 3,
        last_week_all: 1,
        this_week_completed: 2,
        this_week_failed: 1,
        today_completed: 1,
        today_failed: 0,
        yesterday_completed: 4,
        yesterday_failed: 1,
        this_week_avg_ms: Some(30_000),
        last_week_avg_ms: Some(20_000),
    };
    assert_eq!(
        compute_kpis(&w, 4),
        Kpis {
            reviews_this_week: 3,
            reviews_trend: Some(2000),
            active_queue: 4,
            success_rate: Some(667),
            success_trend: Some(200),
            avg_duration_ms: Some(30_000),
            duration_trend: Some(500),
        }
    );
    let empty = WindowCounts {
        this_week_all: 0,
        last_week_all: 0,
        this_week_completed: 0,
        this_week_failed: 0,
        today_completed: 0,
        today_failed: 0,
        yesterday_completed: 0,
        yesterday_failed: 0,
        this_week_avg_ms: None,
        last_week_avg_ms: None,
    };
    assert_eq!(compute_kpis(&empty, 0), default_kpis());
}
