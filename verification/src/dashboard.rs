//! The integer side of the dashboard: the local-time windows (ISO week,
//! calendar day), the hourly and daily trend buckets, the average review
//! duration, the overall LLM health verdict, and the recent-reviews order.
//!
//! Timestamps are microseconds since the Unix epoch; a local calendar day is
//! given as a day number (days since 1970-01-01 in local time) together with
//! the local UTC offset in seconds.

use vstd::prelude::*;
use crate::llm_health::ProviderStatus;

verus! {

pub const MICROS_PER_SECOND: i64 = 1_000_000;
pub const SECONDS_PER_DAY: i64 = 86_400;
pub const MICROS_PER_HOUR: i64 = 3_600_000_000;
pub const MICROS_PER_DAY: i64 = 86_400_000_000;

/// Days in the daily trend (today included).
pub const TREND_DAILY_DAYS: i64 = 14;

/// Size of the recent-reviews card.
pub const RECENT_REVIEWS_LIMIT: usize = 5;

/// The largest day number handled (far beyond any real date).
pub open spec fn max_day() -> int {
    100_000_000
}

/// Local midnight of day `day` at UTC offset `offset_secs`, in microseconds.
pub open spec fn local_midnight_spec(day: int, offset_secs: int) -> int {
    (day * 86_400 - offset_secs) * 1_000_000
}

/// 00:00 local time of day `day`, in UTC microseconds.
pub fn local_midnight(day: i64, offset_secs: i64) -> (r: i64)
    requires
        -max_day() <= day <= max_day(),
        -86_400 <= offset_secs <= 86_400,
    ensures
        r == local_midnight_spec(day as int, offset_secs as int),
{
    (day * SECONDS_PER_DAY - offset_secs) * MICROS_PER_SECOND
}

/// Local midnight is the local zero hour: shifted by the UTC offset, it is
/// exactly the start of the day (`day` whole days after the epoch), so a
/// zone ahead of UTC reaches midnight earlier in UTC.
pub proof fn law_local_midnight_is_the_local_zero_hour(day: int, offset_secs: int)
    ensures
        local_midnight_spec(day, offset_secs) + offset_secs * 1_000_000 == day * 86_400_000_000,
        offset_secs > 0 ==> local_midnight_spec(day, offset_secs) < local_midnight_spec(day, 0),
{
}

/// Days since Monday of the weekday of day `day` (1970-01-01 was a
/// Thursday).
pub open spec fn days_from_monday(day: int) -> int {
    (day + 3) % 7
}

/// Monday 00:00 local time of the ISO week containing day `today`.
pub fn iso_week_start(today: i64, offset_secs: i64) -> (r: i64)
    requires
        -max_day() + 6 <= today <= max_day(),
        -86_400 <= offset_secs <= 86_400,
    ensures
        r == local_midnight_spec(today - days_from_monday(today as int), offset_secs as int),
{
    let shifted: i64 = today + 3 + 105_000_000;
    let dow: i64 = shifted % 7;
    proof {
        assert(shifted % 7 == (today + 3) % 7) by (nonlinear_arith)
            requires
                shifted == today + 3 + 7 * 15_000_000,
        ;
        assert(0 <= dow < 7);
    }
    local_midnight(today - dow, offset_secs)
}

/// 00:00 local time of day `today`.
pub fn day_start(today: i64, offset_secs: i64) -> (r: i64)
    requires
        -max_day() <= today <= max_day(),
        -86_400 <= offset_secs <= 86_400,
    ensures
        r == local_midnight_spec(today as int, offset_secs as int),
{
    local_midnight(today, offset_secs)
}

/// The query windows of the KPI cards. Bounds are inclusive, so each open
/// end is one microsecond short of the next window's start.
#[derive(Debug)]
pub struct DashboardWindows {
    pub week_start: i64,
    pub last_week_start: i64,
    pub last_week_end: i64,
    pub today_start: i64,
    pub yesterday_start: i64,
    pub yesterday_end: i64,
    /// The first day of the daily trend (local midnight 13 days ago).
    pub trend_window_start: i64,
}

pub fn dashboard_windows(today: i64, offset_secs: i64) -> (r: DashboardWindows)
    requires
        -max_day() + 13 <= today <= max_day(),
        -86_400 <= offset_secs <= 86_400,
    ensures
        r.week_start == local_midnight_spec(today - days_from_monday(today as int), offset_secs as int),
        r.last_week_start == r.week_start - 7 * 86_400_000_000,
        r.last_week_end == r.week_start - 1,
        r.today_start == local_midnight_spec(today as int, offset_secs as int),
        r.yesterday_start == r.today_start - 86_400_000_000,
        r.yesterday_end == r.today_start - 1,
        r.trend_window_start == local_midnight_spec(today - 13, offset_secs as int),
{
    let week_start = iso_week_start(today, offset_secs);
    let today_start = day_start(today, offset_secs);
    DashboardWindows {
        week_start,
        last_week_start: week_start - 7 * MICROS_PER_DAY,
        last_week_end: week_start - 1,
        today_start,
        yesterday_start: today_start - MICROS_PER_DAY,
        yesterday_end: today_start - 1,
        trend_window_start: local_midnight(today - (TREND_DAILY_DAYS - 1), offset_secs),
    }
}

/// The saturating sum of the measured durations and their number.
pub open spec fn duration_fold(ds: Seq<Option<u64>>) -> (int, int)
    decreases ds.len(),
{
    if ds.len() == 0 {
        (0, 0)
    } else {
        let f = duration_fold(ds.drop_last());
        match ds.last() {
            Some(ms) => (if f.0 + ms > u64::MAX {
                u64::MAX as int
            } else {
                f.0 + ms
            }, f.1 + 1),
            None => f,
        }
    }
}

/// The exact sum of the measured durations, and how many there are.
pub open spec fn measured(ds: Seq<Option<u64>>) -> (int, int)
    decreases ds.len(),
{
    if ds.len() == 0 {
        (0, 0)
    } else {
        let f = measured(ds.drop_last());
        match ds.last() {
            Some(ms) => (f.0 + ms, f.1 + 1),
            None => f,
        }
    }
}

/// The duration average counts exactly the reviews with a duration, and its
/// sum is their exact sum, capped at `u64::MAX` (so the average is exact
/// whenever the sum fits); reviews without a duration change nothing.
pub proof fn law_duration_average_counts_measured_reviews(ds: Seq<Option<u64>>, extra: Option<u64>)
    ensures
        duration_fold(ds).1 == measured(ds).1,
        duration_fold(ds).0 == (if measured(ds).0 > u64::MAX { u64::MAX as int } else { measured(ds).0 }),
        measured(ds).0 >= 0,
        extra is None ==> duration_fold(ds.push(extra)) == duration_fold(ds),
    decreases ds.len(),
{
    if ds.len() > 0 {
        law_duration_average_counts_measured_reviews(ds.drop_last(), extra);
    }
    assert(ds.push(extra).drop_last() =~= ds);
}

/// Average duration of the reviews that have one (the sum saturates);
/// `None` when none has.
pub fn avg_duration_ms(durations: &Vec<Option<u64>>) -> (r: Option<u64>)
    ensures
        match r {
            Some(a) => duration_fold(durations@).1 > 0 && a == duration_fold(durations@).0 / duration_fold(durations@).1,
            None => duration_fold(durations@).1 == 0,
        },
{
    let mut total: u64 = 0;
    let mut n: u64 = 0;
    let mut i: usize = 0;
    while i < durations.len()
        invariant
            i <= durations@.len(),
            (total as int, n as int) == duration_fold(durations@.subrange(0, i as int)),
            n <= i,
        decreases durations@.len() - i,
    {
        proof {
            let p = durations@.subrange(0, i + 1);
            assert(p.drop_last() =~= durations@.subrange(0, i as int));
        }
        match durations[i] {
            Some(ms) => {
                total = total.saturating_add(ms);
                n = n + 1;
            },
            None => {},
        }
        i = i + 1;
    }
    assert(durations@.subrange(0, durations@.len() as int) =~= durations@);
    if n > 0 {
        Some(total / n)
    } else {
        None
    }
}

/// `n / d` rounded to the nearest integer, halves away from zero (`d > 0`).
pub open spec fn round_half_away(n: int, d: int) -> int {
    if n >= 0 {
        (2 * n + d) / (2 * d)
    } else {
        -((2 * (-n) + d) / (2 * d))
    }
}

/// The relative change from `previous` to `current` in tenths of a percent
/// (rounded); `None` when there is nothing to compare against.
pub open spec fn pct_change_spec(current: int, previous: int) -> Option<int> {
    if previous == 0 {
        None
    } else {
        Some(round_half_away((current - previous) * 1000, previous))
    }
}

/// The share of completed among finished reviews in tenths of a percent
/// (rounded); `None` when none finished.
pub open spec fn success_rate_spec(completed: int, failed: int) -> Option<int> {
    if completed + failed == 0 {
        None
    } else {
        Some(round_half_away(completed * 1000, completed + failed))
    }
}

/// The difference of two rates in tenths of a percentage point; `None`
/// unless both are known.
pub open spec fn rate_delta_spec(current: Option<int>, previous: Option<int>) -> Option<int> {
    match (current, previous) {
        (Some(c), Some(p)) => Some(c - p),
        _ => None,
    }
}

pub open spec fn opt_int_u64(v: Option<u64>) -> Option<int> {
    match v {
        Some(x) => Some(x as int),
        None => None,
    }
}

pub open spec fn opt_int_i128(v: Option<i128>) -> Option<int> {
    match v {
        Some(x) => Some(x as int),
        None => None,
    }
}

/// `m / d` rounded half up, for a magnitude and a positive divisor.
fn div_round_half_up(m: u128, d: u128) -> (r: u128)
    requires
        d > 0,
        m <= 0x1_0000_0000_0000_0000_0000_0000,
        d <= 0x1_0000_0000_0000_0000,
    ensures
        r == (2 * m + d) / (2 * d),
        r <= m,
{
    let r = (2 * m + d) / (2 * d);
    assert(r <= m) by (nonlinear_arith)
        requires
            r == (2 * m + d) / (2 * d),
            d >= 1,
    ;
    r
}

/// Relative change in tenths of a percent (`reviewsTrend`, `durationTrend`).
pub fn pct_change_tenths(current: u64, previous: u64) -> (r: Option<i128>)
    ensures
        opt_int_i128(r) == pct_change_spec(current as int, previous as int),
{
    if previous == 0 {
        return None;
    }
    let d = previous as u128;
    if current >= previous {
        let m = ((current - previous) as u128) * 1000;
        let q = div_round_half_up(m, d);
        Some(q as i128)
    } else {
        let m = ((previous - current) as u128) * 1000;
        let q = div_round_half_up(m, d);
        Some(-(q as i128))
    }
}

/// Success rate in tenths of a percent (`successRate`).
pub fn success_rate_tenths(completed: u64, failed: u64) -> (r: Option<u64>)
    requires
        completed + failed <= u64::MAX,
    ensures
        opt_int_u64(r) == success_rate_spec(completed as int, failed as int),
        r matches Some(v) ==> v <= 1000,
{
    let total = completed + failed;
    if total == 0 {
        return None;
    }
    let q = div_round_half_up((completed as u128) * 1000, total as u128);
    assert(q <= 1000) by (nonlinear_arith)
        requires
            q == (2 * ((completed as u128) * 1000) + total as u128) / (2 * (total as u128)),
            completed <= total,
            total > 0,
    ;
    Some(q as u64)
}

/// Difference of two rates in tenths of a point (`successTrend`).
pub fn rate_delta_tenths(current: Option<u64>, previous: Option<u64>) -> (r: Option<i128>)
    ensures
        opt_int_i128(r) == rate_delta_spec(opt_int_u64(current), opt_int_u64(previous)),
{
    match (current, previous) {
        (Some(c), Some(p)) => Some((c as i128) - (p as i128)),
        _ => None,
    }
}

/// The review counts of the dashboard's windows.
#[derive(Debug, Clone, Copy, PartialEq, Eq, Structural)]
pub struct WindowCounts {
    pub this_week_all: u64,
    pub last_week_all: u64,
    pub this_week_completed: u64,
    pub this_week_failed: u64,
    pub today_completed: u64,
    pub today_failed: u64,
    pub yesterday_completed: u64,
    pub yesterday_failed: u64,
    pub this_week_avg_ms: Option<u64>,
    pub last_week_avg_ms: Option<u64>,
}

/// The KPI card: counts as they are, rates and trends in tenths of a
/// percent (of a point for `success_trend`), `None` where nothing can be
/// derived.
#[derive(Debug, Clone, Copy, PartialEq, Eq, Structural)]
pub struct Kpis {
    pub reviews_this_week: u64,
    pub reviews_trend: Option<i128>,
    pub active_queue: u64,
    pub success_rate: Option<u64>,
    pub success_trend: Option<i128>,
    pub avg_duration_ms: Option<u64>,
    pub duration_trend: Option<i128>,
}

/// Whether the finished counts of every window add up within `u64`.
pub open spec fn counts_fit(w: WindowCounts) -> bool {
    &&& w.this_week_completed + w.this_week_failed <= u64::MAX
    &&& w.today_completed + w.today_failed <= u64::MAX
    &&& w.yesterday_completed + w.yesterday_failed <= u64::MAX
}

/// The KPI card of the window counts.
pub fn compute_kpis(w: &WindowCounts, active_queue: u64) -> (r: Kpis)
    requires
        counts_fit(*w),
    ensures
        r.reviews_this_week == w.this_week_all,
        opt_int_i128(r.reviews_trend) == pct_change_spec(w.this_week_all as int, w.last_week_all as int),
        r.active_queue == active_queue,
        opt_int_u64(r.success_rate) == success_rate_spec(w.this_week_completed as int, w.this_week_failed as int),
        opt_int_i128(r.success_trend) == rate_delta_spec(
            success_rate_spec(w.today_completed as int, w.today_failed as int),
            success_rate_spec(w.yesterday_completed as int, w.yesterday_failed as int),
        ),
        r.avg_duration_ms == w.this_week_avg_ms,
        opt_int_i128(r.duration_trend) == match (w.this_week_avg_ms, w.last_week_avg_ms) {
            (Some(c), Some(p)) => pct_change_spec(c as int, p as int),
            _ => None,
        },
{
    let duration_trend = match (w.this_week_avg_ms, w.last_week_avg_ms) {
        (Some(c), Some(p)) => pct_change_tenths(c, p),
        _ => None,
    };
    Kpis {
        reviews_this_week: w.this_week_all,
        reviews_trend: pct_change_tenths(w.this_week_all, w.last_week_all),
        active_queue,
        success_rate: success_rate_tenths(w.this_week_completed, w.this_week_failed),
        success_trend: rate_delta_tenths(
            success_rate_tenths(w.today_completed, w.today_failed),
            success_rate_tenths(w.yesterday_completed, w.yesterday_failed),
        ),
        avg_duration_ms: w.this_week_avg_ms,
        duration_trend,
    }
}

/// The KPI card shown without a review store: zero counts, nothing derived.
pub fn default_kpis() -> (r: Kpis)
    ensures
        r == (Kpis {
            reviews_this_week: 0,
            reviews_trend: None,
            active_queue: 0,
            success_rate: None,
            success_trend: None,
            avg_duration_ms: None,
            duration_trend: None,
        }),
{
    Kpis {
        reviews_this_week: 0,
        reviews_trend: None,
        active_queue: 0,
        success_rate: None,
        success_trend: None,
        avg_duration_ms: None,
        duration_trend: None,
    }
}

/// One point of a trend series.
#[derive(Debug, Clone, Copy, PartialEq, Eq, Structural)]
pub struct TrendPoint {
    /// The bucket's anchor, in seconds since the epoch.
    pub time: i64,
    pub value: u64,
}

/// How many of `ts` fall in `[lo, hi)`.
pub open spec fn count_in(ts: Seq<i64>, lo: int, hi: int) -> int
    decreases ts.len(),
{
    if ts.len() == 0 {
        0
    } else {
        count_in(ts.drop_last(), lo, hi) + (if lo <= ts.last() && ts.last() < hi {
            1int
        } else {
            0int
        })
    }
}

fn count_in_exec(ts: &Vec<i64>, lo: i64, hi: i64) -> (r: u64)
    ensures
        r == count_in(ts@, lo as int, hi as int),
{
    let mut c: u64 = 0;
    let mut i: usize = 0;
    while i < ts.len()
        invariant
            i <= ts@.len(),
            c == count_in(ts@.subrange(0, i as int), lo as int, hi as int),
            c <= i,
        decreases ts@.len() - i,
    {
        proof {
            let p = ts@.subrange(0, i + 1);
            assert(p.drop_last() =~= ts@.subrange(0, i as int));
        }
        if lo <= ts[i] && ts[i] < hi {
            c = c + 1;
        }
        i = i + 1;
    }
    assert(ts@.subrange(0, ts@.len() as int) =~= ts@);
    c
}

/// Trend buckets never double-count: the count over `[a, c)` is the count
/// over `[a, b)` plus the count over `[b, c)`, a window holds at most every
/// review, and a review created exactly at a boundary counts in the later
/// window only. Consecutive local midnights are one day apart.
pub proof fn law_adjacent_windows_split_the_count(ts: Seq<i64>, a: int, b: int, c: int, x: i64, day: int, offset: int)
    requires
        a <= b <= c,
    ensures
        count_in(ts, a, b) + count_in(ts, b, c) == count_in(ts, a, c),
        0 <= count_in(ts, a, c) <= ts.len(),
        count_in(ts.push(x), a, b) == count_in(ts, a, b) + (if a <= x < b { 1int } else { 0int }),
        x == b ==> count_in(seq![x], a, b) == 0 && count_in(seq![x], b, c) == (if b < c { 1int } else { 0int }),
        local_midnight_spec(day + 1, offset) - local_midnight_spec(day, offset) == 86_400_000_000,
    decreases ts.len(),
{
    if ts.len() > 0 {
        law_adjacent_windows_split_the_count(ts.drop_last(), a, b, c, x, day, offset);
    }
    assert(ts.push(x).drop_last() =~= ts);
    assert(seq![x].drop_last() =~= Seq::<i64>::empty());
    assert(count_in(Seq::<i64>::empty(), a, b) == 0);
    assert(count_in(Seq::<i64>::empty(), b, c) == 0);
    assert(seq![x].last() == x);
}

/// Whole seconds of a microsecond time, rounded down.
pub open spec fn seconds_of(us: int) -> int {
    us / 1_000_000
}

fn seconds_floor(us: i64) -> (r: i64)
    ensures
        r == seconds_of(us as int),
{
    let q = us / MICROS_PER_SECOND;
    let rem = us % MICROS_PER_SECOND;
    proof {
        assert(us == q * 1_000_000 + rem);
    }
    if rem < 0 {
        proof {
            assert((q - 1) == (us as int) / 1_000_000) by (nonlinear_arith)
                requires
                    us == q * 1_000_000 + rem,
                    -1_000_000 < rem < 0,
            ;
        }
        q - 1
    } else {
        proof {
            assert(q == (us as int) / 1_000_000) by (nonlinear_arith)
                requires
                    us == q * 1_000_000 + rem,
                    0 <= rem < 1_000_000,
            ;
        }
        q
    }
}

/// The last 24 hours in hourly buckets, oldest first: point `k` counts the
/// reviews created in `[now - (24 - k) h, now - (23 - k) h)` and is
/// anchored at its end.
pub fn compute_trend(created_at: &Vec<i64>, now: i64) -> (r: Vec<TrendPoint>)
    requires
        i64::MIN + 25 * 3_600_000_000 <= now,
    ensures
        r@.len() == 24,
        forall|k: int| #![trigger r@[k]] 0 <= k < 24 ==> r@[k].time == seconds_of(now - (23 - k) * 3_600_000_000) && r@[k].value
            == count_in(created_at@, now - (24 - k) * 3_600_000_000, now - (23 - k) * 3_600_000_000),
{
    let mut points: Vec<TrendPoint> = Vec::new();
    let mut k: i64 = 0;
    while k < 24
        invariant
            0 <= k <= 24,
            i64::MIN + 25 * 3_600_000_000 <= now,
            points@.len() == k,
            forall|j: int| #![trigger points@[j]] 0 <= j < k ==> points@[j].time == seconds_of(now - (23 - j) * 3_600_000_000)
                && points@[j].value == count_in(created_at@, now - (24 - j) * 3_600_000_000, now - (23 - j) * 3_600_000_000),
        decreases 24 - k,
    {
        let hour_start = now - (24 - k) * MICROS_PER_HOUR;
        let hour_end = now - (23 - k) * MICROS_PER_HOUR;
        let value = count_in_exec(created_at, hour_start, hour_end);
        points.push(TrendPoint { time: seconds_floor(hour_end), value });
        k = k + 1;
    }
    points
}

/// The last 14 local days, oldest first (today last): point `k` counts the
/// reviews created between the local midnights of day `today - 13 + k` and
/// the next day, and is anchored at the first.
pub fn compute_trend_daily(created_at: &Vec<i64>, today: i64, offset_secs: i64) -> (r: Vec<TrendPoint>)
    requires
        -max_day() + 14 <= today <= max_day() - 1,
        -86_400 <= offset_secs <= 86_400,
    ensures
        r@.len() == 14,
        forall|k: int| #![trigger r@[k]] 0 <= k < 14 ==> r@[k].time == seconds_of(
            local_midnight_spec(today - 13 + k, offset_secs as int),
        ) && r@[k].value == count_in(
            created_at@,
            local_midnight_spec(today - 13 + k, offset_secs as int),
            local_midnight_spec(today - 12 + k, offset_secs as int),
        ),
{
    let mut points: Vec<TrendPoint> = Vec::new();
    let mut k: i64 = 0;
    while k < 14
        invariant
            0 <= k <= 14,
            -max_day() + 14 <= today <= max_day() - 1,
            -86_400 <= offset_secs <= 86_400,
            points@.len() == k,
            forall|j: int| #![trigger points@[j]] 0 <= j < k ==> points@[j].time == seconds_of(
                local_midnight_spec(today - 13 + j, offset_secs as int),
            ) && points@[j].value == count_in(
                created_at@,
                local_midnight_spec(today - 13 + j, offset_secs as int),
                local_midnight_spec(today - 12 + j, offset_secs as int),
            ),
        decreases 14 - k,
    {
        let start = local_midnight(today - 13 + k, offset_secs);
        let end = local_midnight(today - 12 + k, offset_secs);
        let value = count_in_exec(created_at, start, end);
        points.push(TrendPoint { time: seconds_floor(start), value });
        k = k + 1;
    }
    points
}

/// The overall LLM verdict of the dashboard.
#[derive(Debug, Clone, Copy, PartialEq, Eq, Structural)]
pub enum OverallHealth {
    /// No enabled provider.
    Offline,
    /// Every enabled provider is healthy.
    Success,
    /// Some but not all enabled providers are healthy.
    Warning,
    /// No enabled provider is healthy.
    Error,
}

impl OverallHealth {
    pub open spec fn as_str_spec(self) -> Seq<char> {
        match self {
            OverallHealth::Offline => "offline"@,
            OverallHealth::Success => "success"@,
            OverallHealth::Warning => "warning"@,
            OverallHealth::Error => "error"@,
        }
    }

    pub fn as_str(self) -> (r: &'static str)
        ensures
            r@ == self.as_str_spec(),
    {
        match self {
            OverallHealth::Offline => "offline",
            OverallHealth::Success => "success",
            OverallHealth::Warning => "warning",
            OverallHealth::Error => "error",
        }
    }
}

/// The verdict over the probed statuses of the enabled providers (a disabled
/// provider is deliberately off and does not count).
pub open spec fn overall_spec(st: Seq<ProviderStatus>) -> OverallHealth {
    if !(exists|i: int| 0 <= i < st.len() && #[trigger] st[i] != ProviderStatus::Disabled) {
        OverallHealth::Offline
    } else if forall|i: int| 0 <= i < st.len() && #[trigger] st[i] != ProviderStatus::Disabled ==> st[i]
        == ProviderStatus::Healthy {
        OverallHealth::Success
    } else if exists|i: int| 0 <= i < st.len() && #[trigger] st[i] != ProviderStatus::Disabled && st[i]
        == ProviderStatus::Healthy {
        OverallHealth::Warning
    } else {
        OverallHealth::Error
    }
}

pub fn overall_health(statuses: &Vec<ProviderStatus>) -> (r: OverallHealth)
    ensures
        r == overall_spec(statuses@),
{
    let mut any_enabled = false;
    let mut all_healthy = true;
    let mut any_healthy = false;
    let mut i: usize = 0;
    while i < statuses.len()
        invariant
            i <= statuses@.len(),
            any_enabled == exists|j: int| 0 <= j < i && statuses@[j] != ProviderStatus::Disabled,
            all_healthy == forall|j: int|
                0 <= j < i && statuses@[j] != ProviderStatus::Disabled ==> statuses@[j] == ProviderStatus::Healthy,
            any_healthy == exists|j: int|
                0 <= j < i && statuses@[j] != ProviderStatus::Disabled && statuses@[j] == ProviderStatus::Healthy,
        decreases statuses@.len() - i,
    {
        let s = statuses[i];
        if s != ProviderStatus::Disabled {
            any_enabled = true;
            if s == ProviderStatus::Healthy {
                any_healthy = true;
            } else {
                all_healthy = false;
            }
        }
        i = i + 1;
    }
    if !any_enabled {
        OverallHealth::Offline
    } else if all_healthy {
        OverallHealth::Success
    } else if any_healthy {
        OverallHealth::Warning
    } else {
        OverallHealth::Error
    }
}

/// Rounding to the nearest integer: the result is within half of `n / d`
/// (`|r - n/d| <= 1/2`), and a result of zero means `n / d` is under a half
/// in size.
pub proof fn law_round_half_away_is_nearest(n: int, d: int)
    requires
        d > 0,
    ensures
        2 * n - d <= 2 * d * round_half_away(n, d) <= 2 * n + d,
        n >= 0 ==> round_half_away(n, d) >= 0,
        n <= 0 ==> round_half_away(n, d) <= 0,
{
    let r = round_half_away(n, d);
    if n >= 0 {
        let q = (2 * n + d) / (2 * d);
        assert(q == r);
        assert(2 * d * q <= 2 * n + d && 2 * n + d < 2 * d * q + 2 * d) by (nonlinear_arith)
            requires
                d > 0,
                n >= 0,
                q == (2 * n + d) / (2 * d),
        ;
        assert(q >= 0) by (nonlinear_arith)
            requires
                d > 0,
                n >= 0,
                q == (2 * n + d) / (2 * d),
        ;
        if n == 0 {
            assert(q <= 0) by (nonlinear_arith)
                requires
                    d > 0,
                    2 * d * q <= d,
            ;
        }
    } else {
        let m = -n;
        let q = (2 * m + d) / (2 * d);
        assert(r == -q);
        assert(2 * d * q <= 2 * m + d && 2 * m + d < 2 * d * q + 2 * d) by (nonlinear_arith)
            requires
                d > 0,
                m > 0,
                q == (2 * m + d) / (2 * d),
        ;
        assert(q >= 0) by (nonlinear_arith)
            requires
                d > 0,
                m > 0,
                q == (2 * m + d) / (2 * d),
        ;
        assert(2 * d * r == -(2 * d * q)) by (nonlinear_arith)
            requires
                r == -q,
        ;
    }
}

/// The success rate is a share: unknown exactly when nothing finished,
/// otherwise between 0 and 1000 tenths, 0 when nothing completed, 1000 when
/// nothing failed, and within half a tenth of `1000 * completed / finished`.
pub proof fn law_success_rate_is_a_share(completed: nat, failed: nat)
    ensures
        success_rate_spec(completed as int, failed as int) is None <==> completed + failed == 0,
        success_rate_spec(completed as int, failed as int) matches Some(r) ==> {
            &&& 0 <= r <= 1000
            &&& completed == 0 ==> r == 0
            &&& failed == 0 ==> r == 1000
            &&& 2 * 1000 * completed - (completed + failed) <= 2 * (completed + failed) * r <= 2 * 1000 * completed
                + (completed + failed)
        },
{
    let t: int = (completed + failed) as int;
    if t > 0 {
        let c: int = completed as int;
        let r = round_half_away(c * 1000, t);
        law_round_half_away_is_nearest(c * 1000, t);
        assert(success_rate_spec(completed as int, failed as int) == Some(r));
        assert(2 * 1000 * completed == 2 * (c * 1000)) by (nonlinear_arith)
            requires
                c == completed,
        ;
        assert(r <= 1000) by (nonlinear_arith)
            requires
                2 * t * r <= 2 * (c * 1000) + t,
                c <= t,
                t > 0,
        ;
        if failed == 0 {
            assert(r == 1000) by (nonlinear_arith)
                requires
                    2 * (c * 1000) - t <= 2 * t * r,
                    r <= 1000,
                    c == t,
                    t > 0,
            ;
        }
        if completed == 0 {
            assert(r == 0) by (nonlinear_arith)
                requires
                    2 * t * r <= t,
                    r >= 0,
                    t > 0,
            ;
        }
    }
}

/// The relative change is unknown exactly when the comparison window is
/// empty; otherwise it is zero when nothing changed, never negative for a
/// rise and never positive for a fall, and within half a tenth of
/// `1000 * (current - previous) / previous`.
pub proof fn law_pct_change_follows_the_direction(current: nat, previous: nat)
    ensures
        pct_change_spec(current as int, previous as int) is None <==> previous == 0,
        pct_change_spec(current as int, previous as int) matches Some(r) ==> {
            &&& current == previous ==> r == 0
            &&& current > previous ==> r >= 0
            &&& current < previous ==> r <= 0
            &&& 2 * 1000 * (current - previous) - previous <= 2 * previous * r <= 2 * 1000 * (current - previous)
                + previous
        },
{
    if previous > 0 {
        let n: int = (current - previous) * 1000;
        law_round_half_away_is_nearest(n, previous as int);
        assert(pct_change_spec(current as int, previous as int) == Some(round_half_away(n, previous as int)));
        assert(2 * 1000 * (current - previous) == 2 * n) by (nonlinear_arith)
            requires
                n == (current - previous) * 1000,
        ;
        if current > previous {
            assert(n > 0);
        }
        if current < previous {
            assert(n < 0);
        }
        if current == previous {
            assert(n == 0);
            assert(round_half_away(0, previous as int) == 0);
        }
    }
}

/// The week starts on a Monday: the start day is a Monday, not after today
/// and at most six days before it.
pub proof fn law_week_starts_on_monday(today: int)
    ensures
        days_from_monday(today - days_from_monday(today)) == 0,
        today - 6 <= today - days_from_monday(today) <= today,
{
    let w = today - days_from_monday(today);
    assert(0 <= (today + 3) % 7 < 7);
    assert((w + 3) % 7 == 0) by (nonlinear_arith)
        requires
            w == today - (today + 3) % 7,
    ;
}

/// The overall verdict over the providers' statuses, stated by what each
/// verdict means: `offline` exactly when every provider is disabled (or there
/// is none); `success` exactly when some provider is enabled and every
/// enabled one is healthy, so an enabled provider that is offline or failing
/// rules it out; `warning` exactly when some enabled provider is healthy and
/// another is not; `error` exactly when some provider is enabled and none
/// is healthy. Adding a disabled provider never changes the verdict.
pub proof fn law_overall_verdict(st: Seq<ProviderStatus>, extra: ProviderStatus)
    ensures
        (overall_spec(st) == OverallHealth::Offline) <==> (forall|i: int| 0 <= i < st.len() ==> st[i] == ProviderStatus::Disabled),
        (overall_spec(st) == OverallHealth::Success) <==> ((exists|i: int| 0 <= i < st.len() && st[i] != ProviderStatus::Disabled)
            && (forall|i: int| 0 <= i < st.len() && st[i] != ProviderStatus::Disabled ==> st[i] == ProviderStatus::Healthy)),
        (overall_spec(st) == OverallHealth::Warning) <==> ((exists|i: int| 0 <= i < st.len() && st[i] == ProviderStatus::Healthy)
            && (exists|i: int|
            0 <= i < st.len() && st[i] != ProviderStatus::Disabled && st[i] != ProviderStatus::Healthy)),
        (overall_spec(st) == OverallHealth::Error) <==> ((exists|i: int| 0 <= i < st.len() && st[i] != ProviderStatus::Disabled)
            && (forall|i: int| 0 <= i < st.len() ==> st[i] != ProviderStatus::Healthy)),
        overall_spec(st.push(ProviderStatus::Disabled)) == overall_spec(st),
        overall_spec(st) == OverallHealth::Success && extra != ProviderStatus::Disabled && extra
            != ProviderStatus::Healthy ==> overall_spec(st.push(extra)) == OverallHealth::Warning,
{
    let t = st.push(ProviderStatus::Disabled);
    assert forall|i: int| 0 <= i < t.len() && t[i] != ProviderStatus::Disabled implies i < st.len() && t[i] == st[i] by {}
    if exists|i: int| 0 <= i < st.len() && #[trigger] st[i] != ProviderStatus::Disabled {
        let i = choose|i: int| 0 <= i < st.len() && #[trigger] st[i] != ProviderStatus::Disabled;
        assert(t[i] == st[i]);
    }
    if exists|i: int| 0 <= i < st.len() && #[trigger] st[i] != ProviderStatus::Disabled && st[i] == ProviderStatus::Healthy {
        let i = choose|i: int| 0 <= i < st.len() && #[trigger] st[i] != ProviderStatus::Disabled && st[i] == ProviderStatus::Healthy;
        assert(t[i] == st[i]);
    }
    let u = st.push(extra);
    if overall_spec(st) == OverallHealth::Success && extra != ProviderStatus::Disabled && extra != ProviderStatus::Healthy {
        let i = choose|i: int| 0 <= i < st.len() && #[trigger] st[i] != ProviderStatus::Disabled;
        assert(u[i] == st[i]);
        assert(u[st.len() as int] == extra);
    }
}

/// Whether index `i` is among `picked`.
pub open spec fn is_picked(picked: Seq<int>, i: int) -> bool {
    exists|k: int| 0 <= k < picked.len() && picked[k] == i
}

/// Whether `i` is the newest of the not-yet-picked reviews (the earliest
/// listed among equally new ones).
pub open spec fn is_next_pick(ts: Seq<i64>, picked: Seq<int>, i: int) -> bool {
    &&& 0 <= i < ts.len()
    &&& !is_picked(picked, i)
    &&& forall|j: int| 0 <= j < ts.len() && !is_picked(picked, j) ==> ts[j] <= ts[i]
    &&& forall|j: int| 0 <= j < i && !is_picked(picked, j) ==> ts[j] < ts[i]
}

/// `order` lists the newest reviews first (stable among equal times): each
/// entry is the newest of those not listed before it.
pub open spec fn newest_first(ts: Seq<i64>, order: Seq<int>) -> bool {
    forall|k: int| 0 <= k < order.len() ==> is_next_pick(ts, order.subrange(0, k), #[trigger] order[k])
}

/// The indices of the (at most five) newest reviews, newest first; equally
/// new ones keep their listed order.
pub fn recent_review_order(created_at: &Vec<i64>) -> (r: Vec<usize>)
    ensures
        r@.len() == if created_at@.len() < 5 {
            created_at@.len()
        } else {
            5
        },
        newest_first(created_at@, r@.map_values(|i: usize| i as int)),
{
    let n = created_at.len();
    let mut order: Vec<usize> = Vec::new();
    let mut taken: Vec<bool> = Vec::new();
    let mut t: usize = 0;
    while t < n
        invariant
            t <= n,
            n == created_at@.len(),
            taken@.len() == t,
            forall|j: int| 0 <= j < t ==> !(#[trigger] taken@[j]),
        decreases n - t,
    {
        taken.push(false);
        t = t + 1;
    }
    let limit: usize = if n < 5 {
        n
    } else {
        5
    };
    while order.len() < limit
        invariant
            limit <= n,
            limit <= 5,
            n == created_at@.len(),
            taken@.len() == n,
            order@.len() <= limit,
            forall|j: int| 0 <= j < n ==> (#[trigger] taken@[j] <==> is_picked(order@.map_values(|i: usize| i as int), j)),
            forall|k: int| 0 <= k < order@.len() ==> (#[trigger] order@[k]) < n,
            order@.len() < n || order@.len() == limit,
            newest_first(created_at@, order@.map_values(|i: usize| i as int)),
        decreases limit - order@.len(),
    {
        let ghost picked = order@.map_values(|i: usize| i as int);
        let mut best: usize = n;
        let mut i: usize = 0;
        while i < n
            invariant
                i <= n,
                n == created_at@.len(),
                taken@.len() == n,
                best == n || (best < i && !taken@[best as int]),
                best == n ==> forall|j: int| 0 <= j < i ==> taken@[j],
                best < n ==> forall|j: int| 0 <= j < i && !taken@[j] ==> created_at@[j] <= created_at@[best as int],
                best < n ==> forall|j: int| 0 <= j < best && !taken@[j] ==> created_at@[j] < created_at@[best as int],
            decreases n - i,
        {
            if !taken[i] {
                if best == n || created_at[i] > created_at[best] {
                    best = i;
                }
            }
            i = i + 1;
        }
        proof {
            if best == n {
                // every review is taken, so all n are listed: impossible below the limit
                assert forall|j: int| 0 <= j < n implies is_picked(picked, j) by {
                    assert(taken@[j]);
                }
                lemma_all_picked_len(picked, n as int);
                assert(false);
            }
        }
        proof {
            assert forall|j: int| 0 <= j < created_at@.len() && !is_picked(picked, j) implies created_at@[j]
                <= created_at@[best as int] by {
                assert(!taken@[j]);
            }
            assert forall|j: int| 0 <= j < best && !is_picked(picked, j) implies created_at@[j] < created_at@[best as int] by {
                assert(!taken@[j]);
            }
            assert(!is_picked(picked, best as int)) by {
                assert(!taken@[best as int]);
            }
            assert(is_next_pick(created_at@, picked, best as int));
        }
        let ghost before = order@;
        order.push(best);
        taken.set(best, true);
        proof {
            let np = order@.map_values(|i: usize| i as int);
            assert(np.subrange(0, before.len() as int) =~= picked);
            assert forall|j: int| 0 <= j < n implies (#[trigger] taken@[j] <==> is_picked(np, j)) by {
                if j == best {
                    assert(np[before.len() as int] == j);
                } else {
                    if is_picked(np, j) {
                        let k = choose|k: int| 0 <= k < np.len() && np[k] == j;
                        assert(k < before.len());
                        assert(picked[k] == j);
                    }
                    if is_picked(picked, j) {
                        let k = choose|k: int| 0 <= k < picked.len() && picked[k] == j;
                        assert(np[k] == j);
                    }
                }
            }
            assert forall|k: int| 0 <= k < np.len() implies is_next_pick(created_at@, np.subrange(0, k), #[trigger] np[k]) by {
                if k < before.len() {
                    assert(np.subrange(0, k) =~= picked.subrange(0, k));
                    assert(np[k] == picked[k]);
                } else {
                    assert(np.subrange(0, k) =~= picked);
                    assert(np[k] == best as int);
                }
            }
            assert forall|k: int| 0 <= k < order@.len() implies (#[trigger] order@[k]) < n by {
                if k < before.len() {
                    assert(order@[k] == before[k]);
                }
            }
        }
    }
    order
}

/// A list of distinct indices below `n` that covers all of them has `n`
/// entries at least.
proof fn lemma_all_picked_len(picked: Seq<int>, n: int)
    requires
        0 <= n,
        forall|j: int| 0 <= j < n ==> is_picked(picked, j),
    ensures
        picked.len() >= n,
{
    let s = vstd::set_lib::set_int_range(0, n);
    let img = picked.to_set();
    assert(s.subset_of(img)) by {
        assert forall|j: int| s.contains(j) implies img.contains(j) by {
            assert(is_picked(picked, j));
            let k = choose|k: int| 0 <= k < picked.len() && picked[k] == j;
            assert(picked.contains(j));
        }
    }
    vstd::set_lib::lemma_int_range(0, n);
    picked.lemma_cardinality_of_set();
    vstd::seq_lib::seq_to_set_is_finite(picked);
    vstd::set_lib::lemma_len_subset(s, img);
}

} // verus!
