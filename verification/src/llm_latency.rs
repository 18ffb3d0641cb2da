//! Per-provider LLM call latency: the average of the successful calls over a
//! rolling week, and a 28-point sparkline of 6-hour buckets.
//!
//! Only successful calls enter an average (failures are counted apart), and
//! absent data is `None`, never a fabricated zero. Timestamps are
//! milliseconds since the Unix epoch.

use vstd::prelude::*;
use crate::text::str_eq;

verus! {

/// Length of the latency window in days.
pub const LATENCY_WINDOW_DAYS: i64 = 7;

/// Points in a sparkline: 6-hour buckets over the 7-day window.
pub const SPARKLINE_BUCKETS: usize = 28;

/// One day in milliseconds.
pub const DAY_MS: i64 = 86_400_000;

/// The largest latency a sample can carry.
pub open spec fn max_latency() -> int {
    0x7fff_ffff_ffff_ffff
}

/// Start of the window for a request observed at `now` (inclusive).
pub fn window_start(now: i64) -> (r: i64)
    requires
        now >= i64::MIN + LATENCY_WINDOW_DAYS * DAY_MS,
    ensures
        r == now - LATENCY_WINDOW_DAYS * DAY_MS,
{
    now - LATENCY_WINDOW_DAYS * DAY_MS
}

/// Width of one sparkline bucket in seconds: 7 days / 28 buckets = 6 hours.
pub fn bucket_seconds() -> (r: i64)
    ensures
        r == 21_600,
{
    (LATENCY_WINDOW_DAYS * 24 * 60 * 60) / 28
}

/// Whole seconds from `since` to `at`, truncated toward zero.
pub open spec fn offset_seconds(at: i64, since: i64) -> int {
    let d = at - since;
    if d >= 0 {
        d / 1000
    } else {
        -((-d) / 1000)
    }
}

/// The bucket a sample falls in, clamped into `0..SPARKLINE_BUCKETS`.
pub open spec fn bucket_of_spec(at: i64, since: i64) -> int {
    let offset = offset_seconds(at, since);
    if offset <= 0 {
        0
    } else if offset / 21_600 > 27 {
        27
    } else {
        offset / 21_600
    }
}

/// Bucket index of a sample taken at `at` for a window starting at `since`.
pub fn bucket_of(at: i64, since: i64) -> (r: usize)
    ensures
        r == bucket_of_spec(at, since),
        r < SPARKLINE_BUCKETS,
{
    let d: i128 = (at as i128) - (since as i128);
    let offset: i128 = if d >= 0 {
        d / 1000
    } else {
        -((-d) / 1000)
    };
    if offset <= 0 {
        return 0;
    }
    let index: i128 = offset / 21_600;
    if index > 27 {
        27
    } else {
        index as usize
    }
}

/// `sum / count` rounded to the nearest whole number, halves up.
pub open spec fn round_div(sum: int, count: int) -> int {
    sum / count + (if 2 * (sum % count) >= count {
        1int
    } else {
        0int
    })
}

/// The sparkline bucket of a sample is the six-hour slot of the window it
/// was taken in: a sample taken in `[since + k·6h, since + (k+1)·6h)` lands
/// in bucket `k`; earlier samples land in the first bucket, later ones in the
/// last, and a later sample never lands in an earlier bucket.
pub proof fn law_bucket_is_the_six_hour_slot(at: i64, since: i64, k: int, later: i64)
    ensures
        0 <= k < 28 && since + k * 21_600_000 <= at < since + (k + 1) * 21_600_000 ==> bucket_of_spec(at, since) == k,
        at < since ==> bucket_of_spec(at, since) == 0,
        at <= later ==> bucket_of_spec(at, since) <= bucket_of_spec(later, since),
        0 <= bucket_of_spec(at, since) < 28,
{
    let d = at - since;
    if 0 <= k < 28 && since + k * 21_600_000 <= at < since + (k + 1) * 21_600_000 {
        let o = d / 1000;
        assert(k * 21_600 <= o < (k + 1) * 21_600) by (nonlinear_arith)
            requires
                k * 21_600_000 <= d < (k + 1) * 21_600_000,
                o == d / 1000,
                k >= 0,
        ;
        assert(o / 21_600 == k) by (nonlinear_arith)
            requires
                k * 21_600 <= o < (k + 1) * 21_600,
        ;
        if o <= 0 {
            assert(k == 0);
        }
    }
    if at < since {
        assert(-((-d) / 1000) <= 0) by (nonlinear_arith)
            requires
                d < 0,
        ;
    }
    if at <= later {
        let d2 = later - since;
        let o1 = offset_seconds(at, since);
        let o2 = offset_seconds(later, since);
        assert(o1 <= o2) by (nonlinear_arith)
            requires
                d <= d2,
                o1 == (if d >= 0 { d / 1000 } else { -((-d) / 1000) }),
                o2 == (if d2 >= 0 { d2 / 1000 } else { -((-d2) / 1000) }),
        ;
        if o1 > 0 {
            assert(o1 / 21_600 <= o2 / 21_600) by (nonlinear_arith)
                requires
                    0 < o1 <= o2,
            ;
        }
    }
    let o = offset_seconds(at, since);
    if o > 0 {
        assert(o / 21_600 >= 0) by (nonlinear_arith)
            requires
                o > 0,
        ;
    }
}

/// The rounded mean is the nearest whole number to `sum / count` (a half
/// rounds up).
pub proof fn law_round_div_is_nearest(sum: int, count: int)
    requires
        count > 0,
    ensures
        2 * sum - count < 2 * count * round_div(sum, count) <= 2 * sum + count,
{
    let q = sum / count;
    let m = sum % count;
    assert(sum == q * count + m && 0 <= m < count) by (nonlinear_arith)
        requires
            count > 0,
            q == sum / count,
            m == sum % count,
    ;
    if 2 * m >= count {
        assert(2 * count * (q + 1) == 2 * (q * count + m) + 2 * count - 2 * m) by (nonlinear_arith);
    } else {
        assert(2 * count * q == 2 * (q * count + m) - 2 * m) by (nonlinear_arith);
    }
}

/// The rounded mean of `count` values summing to `sum`, each at most
/// `i64::MAX`.
pub fn rounded_mean(sum: u128, count: u64) -> (r: u64)
    requires
        count > 0,
        sum <= count * max_latency(),
    ensures
        r == round_div(sum as int, count as int),
{
    let c = count as u128;
    let q = sum / c;
    let rem = sum % c;
    proof {
        assert(q <= max_latency()) by (nonlinear_arith)
            requires
                q == sum / c,
                c > 0,
                sum <= c * max_latency(),
        ;
    }
    let q64 = q as u64;
    if 2 * rem >= c {
        q64 + 1
    } else {
        q64
    }
}

/// One recorded LLM call.
#[derive(Debug)]
pub struct CallSample {
    pub provider: String,
    pub model: String,
    /// The card fingerprint; `None` for samples recorded before fingerprints.
    pub entry_fp: Option<String>,
    /// When the call was made (milliseconds since the epoch).
    pub created_at: i64,
    pub latency_ms: i64,
    pub success: bool,
}

pub struct CallSampleView {
    pub provider: Seq<char>,
    pub model: Seq<char>,
    pub entry_fp: Option<Seq<char>>,
    pub created_at: i64,
    pub latency_ms: i64,
    pub success: bool,
}

impl View for CallSample {
    type V = CallSampleView;

    open spec fn view(&self) -> CallSampleView {
        CallSampleView {
            provider: self.provider@,
            model: self.model@,
            entry_fp: match self.entry_fp {
                Some(f) => Some(f@),
                None => None,
            },
            created_at: self.created_at,
            latency_ms: self.latency_ms,
            success: self.success,
        }
    }
}

pub open spec fn sample_views(s: Seq<CallSample>) -> Seq<CallSampleView> {
    s.map_values(|r: CallSample| r@)
}

/// The measurements of one entry: successful-call sum and count, failures,
/// newest sample time, and per-bucket successful sums and counts.
#[verifier::ext_equal]
pub struct FoldView {
    pub sum: int,
    pub count: int,
    pub failures: int,
    pub last: Option<i64>,
    pub buckets: Seq<(int, int)>,
}

pub open spec fn empty_fold() -> FoldView {
    FoldView { sum: 0, count: 0, failures: 0, last: None, buckets: Seq::new(28, |i: int| (0int, 0int)) }
}

/// The newer of two optional times (the first wins a tie).
pub open spec fn newer(a: Option<i64>, b: Option<i64>) -> Option<i64> {
    if a is None || (b is Some && b->0 > a->0) {
        b
    } else {
        a
    }
}

/// A fold with one more sample in it.
pub open spec fn add_sample(f: FoldView, r: CallSampleView, since: i64) -> FoldView {
    let last = newer(f.last, Some(r.created_at));
    if !r.success {
        FoldView { failures: f.failures + 1, last, ..f }
    } else {
        let lat: int = if r.latency_ms < 0 {
            0
        } else {
            r.latency_ms as int
        };
        let b = bucket_of_spec(r.created_at, since);
        FoldView {
            sum: f.sum + lat,
            count: f.count + 1,
            last,
            buckets: f.buckets.update(b, (f.buckets[b].0 + lat, f.buckets[b].1 + 1)),
            ..f
        }
    }
}

/// Whether a sample belongs to the `(provider, model, entry_fp)` entry.
pub open spec fn of_entry(r: CallSampleView, provider: Seq<char>, model: Seq<char>, fp: Option<Seq<char>>) -> bool {
    r.provider == provider && r.model == model && r.entry_fp == fp
}

/// The fold of the samples of one entry.
pub open spec fn fold_spec(
    rows: Seq<CallSampleView>,
    since: i64,
    provider: Seq<char>,
    model: Seq<char>,
    fp: Option<Seq<char>>,
) -> FoldView
    decreases rows.len(),
{
    if rows.len() == 0 {
        empty_fold()
    } else {
        let f = fold_spec(rows.drop_last(), since, provider, model, fp);
        if of_entry(rows.last(), provider, model, fp) {
            add_sample(f, rows.last(), since)
        } else {
            f
        }
    }
}

/// How many of `rows` belong to the entry.
pub open spec fn entry_rows(rows: Seq<CallSampleView>, provider: Seq<char>, model: Seq<char>, fp: Option<Seq<char>>) -> int
    decreases rows.len(),
{
    if rows.len() == 0 {
        0
    } else {
        entry_rows(rows.drop_last(), provider, model, fp) + if of_entry(rows.last(), provider, model, fp) {
            1int
        } else {
            0int
        }
    }
}

/// What an entry's fold holds: every sample of the entry is counted once,
/// a success in the average's count and a failure beside it (a failure never
/// moves the average's sum); samples of other entries count nowhere; and the
/// newest-sample time is at least every entry sample's time and is one of
/// them (none without a sample).
pub proof fn law_fold_counts_each_entry_sample_once(
    rows: Seq<CallSampleView>,
    since: i64,
    provider: Seq<char>,
    model: Seq<char>,
    fp: Option<Seq<char>>,
    r: CallSampleView,
)
    ensures
        ({
            let f = fold_spec(rows, since, provider, model, fp);
            let g = fold_spec(rows.push(r), since, provider, model, fp);
            &&& f.count + f.failures == entry_rows(rows, provider, model, fp)
            &&& f.count >= 0 && f.failures >= 0 && f.sum >= 0
            &&& !of_entry(r, provider, model, fp) ==> g == f
            &&& of_entry(r, provider, model, fp) && !r.success ==> g.sum == f.sum && g.count == f.count && g.failures
                == f.failures + 1
            &&& of_entry(r, provider, model, fp) && r.success ==> g.sum == f.sum + (if r.latency_ms < 0 {
                0int
            } else {
                r.latency_ms as int
            }) && g.count == f.count + 1 && g.failures == f.failures
            &&& (f.last is None <==> entry_rows(rows, provider, model, fp) == 0)
            &&& forall|i: int|
                0 <= i < rows.len() && of_entry(#[trigger] rows[i], provider, model, fp) ==> (f.last matches Some(t) && rows[i].created_at <= t)
            &&& f.last matches Some(t) ==> exists|i: int|
                0 <= i < rows.len() && of_entry(#[trigger] rows[i], provider, model, fp) && rows[i].created_at == t
        }),
    decreases rows.len(),
{
    assert(rows.push(r).drop_last() =~= rows);
    if rows.len() > 0 {
        let t = rows.drop_last();
        law_fold_counts_each_entry_sample_once(t, since, provider, model, fp, rows.last());
        assert(t.push(rows.last()) =~= rows);
        let f = fold_spec(rows, since, provider, model, fp);
        let ft = fold_spec(t, since, provider, model, fp);
        assert forall|i: int|
            0 <= i < rows.len() && of_entry(#[trigger] rows[i], provider, model, fp) implies (f.last matches Some(x) && rows[i].created_at <= x) by {
            if i < t.len() {
                assert(t[i] == rows[i]);
            }
        }
        if f.last is Some {
            let x = f.last->0;
            if ft.last == f.last {
                let i = choose|i: int| 0 <= i < t.len() && of_entry(#[trigger] t[i], provider, model, fp) && t[i].created_at == x;
                assert(rows[i] == t[i]);
            } else {
                assert(rows[rows.len() - 1] == rows.last());
            }
        }
    }
}

/// Two folds added as raw sums (never as averages of averages).
pub open spec fn merge_spec(a: FoldView, b: FoldView) -> FoldView {
    FoldView {
        sum: a.sum + b.sum,
        count: a.count + b.count,
        failures: a.failures + b.failures,
        last: newer(a.last, b.last),
        buckets: Seq::new(28, |i: int| (a.buckets[i].0 + b.buckets[i].0, a.buckets[i].1 + b.buckets[i].1)),
    }
}

/// The latency metrics of one card.
#[derive(Debug)]
pub struct ProviderLatency {
    /// Rounded mean of the successful calls; `None` when there were none.
    pub avg_latency_ms: Option<u64>,
    /// Successful calls (the average's denominator).
    pub sample_count: u64,
    /// Failed calls, excluded from the average.
    pub failure_count: u64,
    /// When the entry was last called; `None` without any sample.
    pub last_sample_at: Option<i64>,
    /// Per-bucket rounded means, oldest first; `None` without any sample.
    pub sparkline: Option<Vec<Option<u64>>>,
}

pub struct ProviderLatencyView {
    pub avg_latency_ms: Option<u64>,
    pub sample_count: u64,
    pub failure_count: u64,
    pub last_sample_at: Option<i64>,
    pub sparkline: Option<Seq<Option<u64>>>,
}

impl View for ProviderLatency {
    type V = ProviderLatencyView;

    open spec fn view(&self) -> ProviderLatencyView {
        ProviderLatencyView {
            avg_latency_ms: self.avg_latency_ms,
            sample_count: self.sample_count,
            failure_count: self.failure_count,
            last_sample_at: self.last_sample_at,
            sparkline: match self.sparkline {
                Some(v) => Some(v@),
                None => None,
            },
        }
    }
}

pub open spec fn untouched_spec() -> ProviderLatencyView {
    ProviderLatencyView {
        avg_latency_ms: None,
        sample_count: 0,
        failure_count: 0,
        last_sample_at: None,
        sparkline: None,
    }
}

/// The rounded mean of a bucket, `None` for an empty one.
pub open spec fn bucket_mean(b: (int, int)) -> Option<u64> {
    if b.1 > 0 {
        Some(round_div(b.0, b.1) as u64)
    } else {
        None
    }
}

/// A fold rounded into the wire shape.
pub open spec fn finish_spec(f: FoldView) -> ProviderLatencyView {
    ProviderLatencyView {
        avg_latency_ms: if f.count > 0 {
            Some(round_div(f.sum, f.count) as u64)
        } else {
            None
        },
        sample_count: f.count as u64,
        failure_count: f.failures as u64,
        last_sample_at: f.last,
        sparkline: if f.count + f.failures > 0 {
            Some(f.buckets.map_values(|b: (int, int)| bucket_mean(b)))
        } else {
            None
        },
    }
}

/// The metrics of a card: its own entry's fold, plus the unmarked fold of
/// the same provider and model when `merge_unmarked`; untouched when no
/// sample of either was seen.
pub open spec fn for_card_spec(
    rows: Seq<CallSampleView>,
    since: i64,
    provider: Seq<char>,
    model: Seq<char>,
    fp: Seq<char>,
    merge_unmarked: bool,
) -> ProviderLatencyView {
    let own = fold_spec(rows, since, provider, model, Some(fp));
    let f = if merge_unmarked {
        merge_spec(own, fold_spec(rows, since, provider, model, None))
    } else {
        own
    };
    if f.count + f.failures == 0 {
        untouched_spec()
    } else {
        finish_spec(f)
    }
}

/// The exec form of a fold.
#[derive(Debug)]
struct Fold {
    success_sum_ms: u128,
    success_count: u64,
    failure_count: u64,
    last_sample_at: Option<i64>,
    buckets: Vec<(u128, u64)>,
}

impl View for Fold {
    type V = FoldView;

    closed spec fn view(&self) -> FoldView {
        FoldView {
            sum: self.success_sum_ms as int,
            count: self.success_count as int,
            failures: self.failure_count as int,
            last: self.last_sample_at,
            buckets: self.buckets@.map_values(|b: (u128, u64)| (b.0 as int, b.1 as int)),
        }
    }
}

/// What keeps a fold of at most `n` samples free of overflow.
pub open spec fn bounded(f: FoldView, n: int) -> bool {
    &&& f.buckets.len() == 28
    &&& 0 <= f.sum <= f.count * max_latency()
    &&& 0 <= f.count
    &&& 0 <= f.failures
    &&& f.count + f.failures <= n
    &&& forall|i: int| #![trigger f.buckets[i]] 0 <= i < 28 ==> 0 <= f.buckets[i].0 <= f.buckets[i].1 * max_latency()
        && 0 <= f.buckets[i].1 <= f.count
}

proof fn lemma_bound_mono(a: int, b: int)
    requires
        0 <= a <= b,
    ensures
        a * max_latency() <= b * max_latency(),
{
    assert(a * max_latency() <= b * max_latency()) by (nonlinear_arith)
        requires
            0 <= a <= b,
    ;
}

impl Fold {
    fn new() -> (r: Fold)
        ensures
            r@ == empty_fold(),
            r.buckets@.len() == 28,
    {
        let mut buckets: Vec<(u128, u64)> = Vec::new();
        let mut i: usize = 0;
        while i < 28
            invariant
                i <= 28,
                buckets@.len() == i,
                forall|k: int| 0 <= k < i ==> #[trigger] buckets@[k] == (0u128, 0u64),
            decreases 28 - i,
        {
            buckets.push((0, 0));
            i = i + 1;
        }
        let r = Fold { success_sum_ms: 0, success_count: 0, failure_count: 0, last_sample_at: None, buckets };
        assert(r@.buckets =~= empty_fold().buckets);
        r
    }

    fn add(&mut self, row: &CallSample, since: i64, Ghost(n): Ghost<int>)
        requires
            bounded(old(self)@, n),
            n < usize::MAX,
        ensures
            final(self)@ == add_sample(old(self)@, row@, since),
            bounded(final(self)@, n + 1),
    {
        let ghost f0 = self@;
        let newer_t = match self.last_sample_at {
            None => true,
            Some(prev) => row.created_at > prev,
        };
        if newer_t {
            self.last_sample_at = Some(row.created_at);
        }
        if !row.success {
            self.failure_count = self.failure_count + 1;
            proof {
                assert(self@.buckets == f0.buckets);
            }
            return;
        }
        let lat: u128 = if row.latency_ms < 0 {
            0
        } else {
            row.latency_ms as u128
        };
        let b = bucket_of(row.created_at, since);
        proof {
            lemma_bound_mono(f0.count, f0.count + 1);
            lemma_bound_mono(f0.buckets[b as int].1, f0.buckets[b as int].1 + 1);
            assert(self.buckets@[b as int].0 as int == f0.buckets[b as int].0);
        }
        self.success_sum_ms = self.success_sum_ms + lat;
        self.success_count = self.success_count + 1;
        let (bs, bc) = self.buckets[b];
        self.buckets.set(b, (bs + lat, bc + 1));
        proof {
            let nb = f0.buckets.update(b as int, (f0.buckets[b as int].0 + lat, f0.buckets[b as int].1 + 1));
            assert(self@.buckets =~= nb);
            assert forall|i: int| #![trigger self@.buckets[i]] 0 <= i < 28 implies 0 <= self@.buckets[i].0
                <= self@.buckets[i].1 * max_latency() && 0 <= self@.buckets[i].1 <= self@.count by {
                if i != b {
                    assert(self@.buckets[i] == f0.buckets[i]);
                }
            }
        }
    }

    /// Add another fold's measurements as raw sums.
    fn merge_from(&mut self, other: &Fold, Ghost(n): Ghost<int>, Ghost(m): Ghost<int>)
        requires
            bounded(old(self)@, n),
            bounded(other@, m),
            n + m <= usize::MAX,
            old(self).buckets@.len() == 28,
            other.buckets@.len() == 28,
        ensures
            final(self)@ == merge_spec(old(self)@, other@),
            bounded(final(self)@, n + m),
            final(self).buckets@.len() == 28,
    {
        let ghost a = self@;
        proof {
            lemma_bound_mono(0, other@.count);
            lemma_bound_mono(0, a.count);
            assert((a.count + other@.count) * max_latency() == a.count * max_latency() + other@.count * max_latency())
                by (nonlinear_arith);
        }
        self.success_sum_ms = self.success_sum_ms + other.success_sum_ms;
        self.success_count = self.success_count + other.success_count;
        self.failure_count = self.failure_count + other.failure_count;
        let take_other = match self.last_sample_at {
            None => true,
            Some(prev) => match other.last_sample_at {
                Some(t) => t > prev,
                None => false,
            },
        };
        if take_other {
            self.last_sample_at = other.last_sample_at;
        }
        let mut i: usize = 0;
        while i < 28
            invariant
                i <= 28,
                self.buckets@.len() == 28,
                other.buckets@.len() == 28,
                bounded(a, n),
                bounded(other@, m),
                forall|k: int| #![trigger self.buckets@[k]] 0 <= k < i ==> self.buckets@[k].0 == a.buckets[k].0
                    + other@.buckets[k].0 && self.buckets@[k].1 == a.buckets[k].1 + other@.buckets[k].1,
                forall|k: int| #![trigger self.buckets@[k]] i <= k < 28 ==> self.buckets@[k].0 == a.buckets[k].0
                    && self.buckets@[k].1 == a.buckets[k].1,
                a.count + other@.count <= usize::MAX,
                self.success_sum_ms == a.sum + other@.sum,
                self.success_count == a.count + other@.count,
                self.failure_count == a.failures + other@.failures,
                self.last_sample_at == newer(a.last, other@.last),
            decreases 28 - i,
        {
            let (s1, c1) = self.buckets[i];
            let (s2, c2) = other.buckets[i];
            proof {
                assert(other@.buckets[i as int].0 == s2 as int);
                lemma_bound_mono(a.buckets[i as int].1, a.count);
                lemma_bound_mono(other@.buckets[i as int].1, other@.count);
                lemma_bound_mono(0, a.count);
                lemma_bound_mono(0, other@.count);
                assert((a.count + other@.count) * max_latency() == a.count * max_latency() + other@.count
                    * max_latency()) by (nonlinear_arith);
            }
            self.buckets.set(i, (s1 + s2, c1 + c2));
            i = i + 1;
        }
        proof {
            let mb = merge_spec(a, other@).buckets;
            assert(self@.buckets =~= mb);
            assert forall|k: int| #![trigger self@.buckets[k]] 0 <= k < 28 implies 0 <= self@.buckets[k].0
                <= self@.buckets[k].1 * max_latency() && 0 <= self@.buckets[k].1 <= self@.count by {
                assert(self@.buckets[k] == mb[k]);
                assert(0 <= a.buckets[k].0 <= a.buckets[k].1 * max_latency() && 0 <= a.buckets[k].1 <= a.count);
                assert(0 <= other@.buckets[k].0 <= other@.buckets[k].1 * max_latency() && 0 <= other@.buckets[k].1
                    <= other@.count);
                assert((a.buckets[k].1 + other@.buckets[k].1) * max_latency() == a.buckets[k].1 * max_latency()
                    + other@.buckets[k].1 * max_latency()) by (nonlinear_arith);
            }
            assert(self@.sum == a.sum + other@.sum);
            assert(self@.count == a.count + other@.count);
            assert(self@.failures == a.failures + other@.failures);
            assert(self@.last == newer(a.last, other@.last));
            assert(self@ =~= merge_spec(a, other@));
        }
    }

    fn finish(&self) -> (r: ProviderLatency)
        requires
            bounded(self@, usize::MAX as int),
            self.buckets@.len() == 28,
        ensures
            r@ == finish_spec(self@),
    {
        let avg = if self.success_count > 0 {
            Some(rounded_mean(self.success_sum_ms, self.success_count))
        } else {
            None
        };
        let has_any = self.success_count > 0 || self.failure_count > 0;
        let sparkline = if has_any {
            let mut pts: Vec<Option<u64>> = Vec::new();
            let mut i: usize = 0;
            while i < 28
                invariant
                    i <= 28,
                    self.buckets@.len() == 28,
                    bounded(self@, usize::MAX as int),
                    pts@.len() == i,
                    forall|k: int| 0 <= k < i ==> #[trigger] pts@[k] == bucket_mean(self@.buckets[k]),
                decreases 28 - i,
            {
                let (s, c) = self.buckets[i];
                proof {
                    assert(self@.buckets[i as int] == (s as int, c as int));
                }
                if c > 0 {
                    pts.push(Some(rounded_mean(s, c)));
                } else {
                    pts.push(None);
                }
                i = i + 1;
            }
            assert(pts@ =~= self@.buckets.map_values(|b: (int, int)| bucket_mean(b)));
            Some(pts)
        } else {
            None
        };
        ProviderLatency {
            avg_latency_ms: avg,
            sample_count: self.success_count,
            failure_count: self.failure_count,
            last_sample_at: self.last_sample_at,
            sparkline,
        }
    }
}

/// The samples of one window, aggregated per card on request.
#[derive(Debug)]
pub struct LatencySnapshot {
    /// Window start the aggregate is computed for.
    since: i64,
    rows: Vec<CallSample>,
}

impl LatencySnapshot {
    /// The samples held.
    pub closed spec fn samples(&self) -> Seq<CallSampleView> {
        sample_views(self.rows@)
    }

    /// The window start.
    pub closed spec fn window(&self) -> i64 {
        self.since
    }

    /// Window start the aggregate is computed for.
    pub fn since(&self) -> (r: i64)
        ensures
            r == self.window(),
    {
        self.since
    }

    /// Take the window's samples (rows of providers no longer configured
    /// included: the samples are facts).
    pub fn new(since: i64, rows: Vec<CallSample>) -> (r: Self)
        ensures
            r.window() == since,
            r.samples() == sample_views(rows@),
    {
        LatencySnapshot { since, rows }
    }

    fn fold_of(&self, provider: &str, model: &str, fp: Option<&str>) -> (r: Fold)
        ensures
            r@ == fold_spec(self.samples(), self.since, provider@, model@, match fp {
                Some(f) => Some(f@),
                None => None,
            }),
            bounded(r@, self.rows@.len() as int),
            r.buckets@.len() == 28,
    {
        let ghost fpv = match fp {
            Some(f) => Some(f@),
            None => None::<Seq<char>>,
        };
        let mut f = Fold::new();
        let mut i: usize = 0;
        while i < self.rows.len()
            invariant
                i <= self.rows@.len(),
                f@ == fold_spec(self.samples().subrange(0, i as int), self.since, provider@, model@, fpv),
                bounded(f@, i as int),
                f.buckets@.len() == 28,
                fpv == (match fp {
                    Some(f) => Some(f@),
                    None => None::<Seq<char>>,
                }),
            decreases self.rows@.len() - i,
        {
            let r = &self.rows[i];
            proof {
                let p = self.samples().subrange(0, i + 1);
                assert(p.drop_last() =~= self.samples().subrange(0, i as int));
                assert(p.last() == r@);
            }
            let fp_matches = match (&r.entry_fp, fp) {
                (Some(a), Some(b)) => str_eq(a.as_str(), b),
                (None, None) => true,
                _ => false,
            };
            if str_eq(r.provider.as_str(), provider) && str_eq(r.model.as_str(), model) && fp_matches {
                f.add(r, self.since, Ghost(i as int));
            } else {
                proof {
                    assert(bounded(f@, i + 1));
                }
            }
            i = i + 1;
        }
        proof {
            assert(self.samples().subrange(0, self.rows@.len() as int) =~= self.samples());
        }
        f
    }

    /// The latency metrics of one card: its own fingerprint's samples, plus
    /// (when `merge_unmarked`) the pre-fingerprint samples of the same
    /// provider and model, merged as raw sums.
    pub fn for_card(&self, provider: &str, model: &str, entry_fp: &str, merge_unmarked: bool) -> (r: ProviderLatency)
        ensures
            r@ == for_card_spec(self.samples(), self.window(), provider@, model@, entry_fp@, merge_unmarked),
    {
        let mut own = self.fold_of(provider, model, Some(entry_fp));
        let _n = self.rows.len();
        proof {
            assert(self.samples().len() == self.rows@.len());
        }
        if merge_unmarked {
            let unmarked = self.fold_of(provider, model, None);
            proof {
                lemma_disjoint_total(self.samples(), self.since, provider@, model@, entry_fp@);
            }
            own.merge_from(
                &unmarked,
                Ghost(own@.count + own@.failures),
                Ghost(unmarked@.count + unmarked@.failures),
            );
        }
        if own.success_count == 0 && own.failure_count == 0 {
            return ProviderLatency {
                avg_latency_ms: None,
                sample_count: 0,
                failure_count: 0,
                last_sample_at: None,
                sparkline: None,
            };
        }
        proof {
            assert(bounded(own@, usize::MAX as int));
        }
        own.finish()
    }
}

/// A card's own samples and the unmarked ones are disjoint, so together they
/// number at most the window's samples.
proof fn lemma_disjoint_total(
    rows: Seq<CallSampleView>,
    since: i64,
    provider: Seq<char>,
    model: Seq<char>,
    fp: Seq<char>,
)
    ensures
        fold_spec(rows, since, provider, model, Some(fp)).count + fold_spec(rows, since, provider, model, Some(fp)).failures
            + fold_spec(rows, since, provider, model, None).count + fold_spec(rows, since, provider, model, None).failures
            <= rows.len(),
        fold_spec(rows, since, provider, model, Some(fp)).count >= 0,
        fold_spec(rows, since, provider, model, None).count >= 0,
        fold_spec(rows, since, provider, model, Some(fp)).failures >= 0,
        fold_spec(rows, since, provider, model, None).failures >= 0,
    decreases rows.len(),
{
    if rows.len() > 0 {
        lemma_disjoint_total(rows.drop_last(), since, provider, model, fp);
    }
}

/// Whether a sample belongs to the card's own entry or to the unmarked
/// entry of the same provider and model.
pub open spec fn of_card_or_unmarked(r: CallSampleView, provider: Seq<char>, model: Seq<char>, fp: Seq<char>) -> bool {
    of_entry(r, provider, model, Some(fp)) || of_entry(r, provider, model, None)
}

/// The fold of the card's own samples together with the unmarked ones.
pub open spec fn fold_both(rows: Seq<CallSampleView>, since: i64, provider: Seq<char>, model: Seq<char>, fp: Seq<char>) -> FoldView
    decreases rows.len(),
{
    if rows.len() == 0 {
        empty_fold()
    } else {
        let f = fold_both(rows.drop_last(), since, provider, model, fp);
        if of_card_or_unmarked(rows.last(), provider, model, fp) {
            add_sample(f, rows.last(), since)
        } else {
            f
        }
    }
}

proof fn lemma_fold_buckets(rows: Seq<CallSampleView>, since: i64, provider: Seq<char>, model: Seq<char>, fp: Option<Seq<char>>)
    ensures
        fold_spec(rows, since, provider, model, fp).buckets.len() == 28,
    decreases rows.len(),
{
    if rows.len() > 0 {
        lemma_fold_buckets(rows.drop_last(), since, provider, model, fp);
    }
}

proof fn lemma_merge_add(a: FoldView, b: FoldView, r: CallSampleView, since: i64, left: bool)
    requires
        a.buckets.len() == 28,
        b.buckets.len() == 28,
    ensures
        left ==> merge_spec(add_sample(a, r, since), b) =~= add_sample(merge_spec(a, b), r, since),
        !left ==> merge_spec(a, add_sample(b, r, since)) =~= add_sample(merge_spec(a, b), r, since),
{
    let k = bucket_of_spec(r.created_at, since);
    assert(0 <= k < 28);
    if left {
        let x = merge_spec(add_sample(a, r, since), b);
        let y = add_sample(merge_spec(a, b), r, since);
        assert(x.buckets =~= y.buckets);
        assert(x.last == y.last);
    } else {
        let x = merge_spec(a, add_sample(b, r, since));
        let y = add_sample(merge_spec(a, b), r, since);
        assert(x.buckets =~= y.buckets);
        assert(x.last == y.last);
    }
}

/// The merged statistics of a card are the raw fold of its own and the
/// unmarked samples together: merging adds sums and counts (never averages
/// of averages), so the merged average is the true mean of both.
pub proof fn law_merge_is_fold_of_both(
    rows: Seq<CallSampleView>,
    since: i64,
    provider: Seq<char>,
    model: Seq<char>,
    fp: Seq<char>,
)
    ensures
        merge_spec(fold_spec(rows, since, provider, model, Some(fp)), fold_spec(rows, since, provider, model, None))
            == fold_both(rows, since, provider, model, fp),
    decreases rows.len(),
{
    if rows.len() == 0 {
        assert(merge_spec(empty_fold(), empty_fold()) =~= empty_fold());
    } else {
        let t = rows.drop_last();
        let r = rows.last();
        law_merge_is_fold_of_both(t, since, provider, model, fp);
        lemma_fold_buckets(t, since, provider, model, Some(fp));
        lemma_fold_buckets(t, since, provider, model, None);
        let a = fold_spec(t, since, provider, model, Some(fp));
        let b = fold_spec(t, since, provider, model, None);
        if of_entry(r, provider, model, Some(fp)) {
            lemma_merge_add(a, b, r, since, true);
        } else if of_entry(r, provider, model, None) {
            lemma_merge_add(a, b, r, since, false);
        }
    }
}

} // verus!
