//! The communication latency of a provider, measured by the connectivity
//! probe, and the bookkeeping of the proactive probe loop.
//!
//! Only successful probes enter the average; a card's samples are matched by
//! its fingerprint, so two same-named cards never share a latency; a
//! persistent outage is reported once, not once per round.

use vstd::prelude::*;
use crate::keyed::KeyedEntries;
use crate::llm_health::{llm_fingerprint, LlmHealthStore, ProviderHealth, ProviderStatus};
use crate::llm_latency::{max_latency, round_div, rounded_mean, DAY_MS, LATENCY_WINDOW_DAYS};
use crate::models::LLMConfig;
use crate::text::str_eq;

verus! {

/// Length of the probe-latency window in days: the call-latency window.
pub const PROBE_WINDOW_DAYS: i64 = LATENCY_WINDOW_DAYS;

/// How long a probe sample is kept, in days.
pub const PROBE_RETENTION_DAYS: i64 = 30;

/// Start of the probe window for a request observed at `now` (inclusive).
pub fn window_start(now: i64) -> (r: i64)
    requires
        now >= i64::MIN + PROBE_WINDOW_DAYS * DAY_MS,
    ensures
        r == now - PROBE_WINDOW_DAYS * DAY_MS,
{
    now - PROBE_WINDOW_DAYS * DAY_MS
}

/// Oldest probe sample a sweep run at `now` lets survive.
pub fn retention_cutoff(now: i64) -> (r: i64)
    requires
        now >= i64::MIN + PROBE_RETENTION_DAYS * DAY_MS,
    ensures
        r == now - PROBE_RETENTION_DAYS * DAY_MS,
{
    now - PROBE_RETENTION_DAYS * DAY_MS
}

impl LLMConfig {
    /// The card fingerprint samples and health entries are keyed by.
    pub fn entry_fp(&self) -> (r: String)
        ensures
            r@ == llm_fingerprint(self@),
    {
        LlmHealthStore::fingerprint(self)
    }
}

/// One recorded probe.
#[derive(Debug)]
pub struct ProbeSample {
    pub provider: String,
    pub entry_fp: String,
    /// When the probe ran (milliseconds since the epoch).
    pub at: i64,
    /// The probe's round trip; absent on failure.
    pub latency_ms: Option<i64>,
    pub success: bool,
    /// The failure text of a failed probe.
    pub error: Option<String>,
}

pub struct ProbeSampleView {
    pub provider: Seq<char>,
    pub entry_fp: Seq<char>,
    pub at: i64,
    pub latency_ms: Option<i64>,
    pub success: bool,
}

impl View for ProbeSample {
    type V = ProbeSampleView;

    open spec fn view(&self) -> ProbeSampleView {
        ProbeSampleView {
            provider: self.provider@,
            entry_fp: self.entry_fp@,
            at: self.at,
            latency_ms: self.latency_ms,
            success: self.success,
        }
    }
}

/// Whether a sample enters the average of the `(provider, fp)` card: a
/// successful probe of that card with a non-negative measured latency.
pub open spec fn counts_for(r: ProbeSampleView, provider: Seq<char>, fp: Seq<char>) -> bool {
    r.provider == provider && r.entry_fp == fp && r.success && r.latency_ms is Some && r.latency_ms->0 >= 0
}

/// Sum and count of the latencies that enter a card's average.
pub open spec fn probe_fold(rows: Seq<ProbeSampleView>, provider: Seq<char>, fp: Seq<char>) -> (int, int)
    decreases rows.len(),
{
    if rows.len() == 0 {
        (0, 0)
    } else {
        let f = probe_fold(rows.drop_last(), provider, fp);
        let r = rows.last();
        if counts_for(r, provider, fp) {
            (f.0 + r.latency_ms->0, f.1 + 1)
        } else {
            f
        }
    }
}

/// The communication latency of one card.
#[derive(Debug, Clone, Copy, PartialEq, Eq, Structural)]
pub struct ProviderProbe {
    /// Rounded mean of the successful probes; `None` when there were none.
    pub avg_latency_ms: Option<u64>,
    /// Successful probes in the window.
    pub sample_count: u64,
}

impl ProviderProbe {
    /// A card the window holds no successful probe for.
    pub fn untouched() -> (r: Self)
        ensures
            r.avg_latency_ms.is_none(),
            r.sample_count == 0,
    {
        ProviderProbe { avg_latency_ms: None, sample_count: 0 }
    }
}

/// What `for_card` answers for a card.
pub open spec fn probe_for_card_spec(rows: Seq<ProbeSampleView>, provider: Seq<char>, fp: Seq<char>) -> ProviderProbe {
    let f = probe_fold(rows, provider, fp);
    if f.1 > 0 {
        ProviderProbe { avg_latency_ms: Some(round_div(f.0, f.1) as u64), sample_count: f.1 as u64 }
    } else {
        ProviderProbe { avg_latency_ms: None, sample_count: 0 }
    }
}

/// Probe samples of one window, aggregated per card on request.
#[derive(Debug)]
pub struct ProbeSnapshot {
    rows: Vec<ProbeSample>,
}

impl ProbeSnapshot {
    /// The samples held.
    pub closed spec fn samples(&self) -> Seq<ProbeSampleView> {
        self.rows@.map_values(|r: ProbeSample| r@)
    }

    /// Take the window's samples.
    pub fn new(rows: Vec<ProbeSample>) -> (r: Self)
        ensures
            r.samples() == rows@.map_values(|r: ProbeSample| r@),
    {
        ProbeSnapshot { rows }
    }

    /// The probe latency of one card (by its fingerprint).
    pub fn for_card(&self, provider: &str, entry_fp: &str) -> (r: ProviderProbe)
        ensures
            r == probe_for_card_spec(self.samples(), provider@, entry_fp@),
    {
        let n = self.rows.len();
        let mut sum: u128 = 0;
        let mut count: u64 = 0;
        let mut i: usize = 0;
        while i < n
            invariant
                n == self.rows@.len(),
                i <= n,
                (sum as int, count as int) == probe_fold(self.samples().subrange(0, i as int), provider@, entry_fp@),
                count <= i,
                sum <= count * max_latency(),
            decreases n - i,
        {
            let r = &self.rows[i];
            proof {
                let p = self.samples().subrange(0, i + 1);
                assert(p.drop_last() =~= self.samples().subrange(0, i as int));
                assert(p.last() == r@);
            }
            if r.success && str_eq(r.provider.as_str(), provider) && str_eq(r.entry_fp.as_str(), entry_fp) {
                match r.latency_ms {
                    Some(v) => {
                        if v >= 0 {
                            proof {
                                assert((count + 1) * max_latency() == count * max_latency() + max_latency())
                                    by (nonlinear_arith);
                            }
                            sum = sum + (v as u128);
                            count = count + 1;
                        }
                    },
                    None => {},
                }
            }
            i = i + 1;
        }
        proof {
            assert(self.samples().subrange(0, n as int) =~= self.samples());
        }
        if count > 0 {
            ProviderProbe { avg_latency_ms: Some(rounded_mean(sum, count)), sample_count: count }
        } else {
            ProviderProbe::untouched()
        }
    }
}

/// Which kind of process is running, as far as proactive probing goes.
#[derive(Debug, Clone, Copy, PartialEq, Eq, Structural)]
pub enum ProcessMode {
    /// A long-lived server.
    Server,
    /// A one-shot command that exits when its work is done.
    Cli,
}

impl ProcessMode {
    /// Only a server runs the proactive probe loop.
    pub fn runs_probe_loop(self) -> (r: bool)
        ensures
            r == (self == ProcessMode::Server),
    {
        match self {
            ProcessMode::Server => true,
            ProcessMode::Cli => false,
        }
    }
}

/// The once-per-process retention sweep of the sample sink.
#[derive(Debug)]
pub struct StoreProbeSampleSink {
    swept: bool,
}

impl StoreProbeSampleSink {
    /// Whether the sweep has run.
    pub closed spec fn has_swept(&self) -> bool {
        self.swept
    }

    /// A sink that has not swept yet.
    pub fn new() -> (r: Self)
        ensures
            !r.has_swept(),
    {
        StoreProbeSampleSink { swept: false }
    }

    /// Whether this sample should run the sweep: true exactly once.
    pub fn sweep_due(&mut self) -> (r: bool)
        ensures
            r == !old(self).has_swept(),
            final(self).has_swept(),
    {
        let due = !self.swept;
        self.swept = true;
        due
    }
}

/// What one round's outcome means for the log.
#[derive(Debug, Clone, Copy, PartialEq, Eq, Structural)]
pub enum RoundEvent {
    /// Succeeded, as before: nothing to say.
    Healthy,
    /// Failed after succeeding (or for the first time).
    FirstFailure,
    /// Failed again: sampled, not logged.
    StillFailing,
    /// Succeeded after failing: closes the outage.
    Recovered,
}

/// The event and the new failing set for one observed outcome.
pub open spec fn observe_spec(failing: Set<Seq<char>>, fp: Seq<char>, success: bool) -> (Set<Seq<char>>, RoundEvent) {
    if !failing.contains(fp) {
        if success {
            (failing, RoundEvent::Healthy)
        } else {
            (failing.insert(fp), RoundEvent::FirstFailure)
        }
    } else {
        if success {
            (failing.remove(fp), RoundEvent::Recovered)
        } else {
            (failing, RoundEvent::StillFailing)
        }
    }
}

/// Which cards are currently failing, by card fingerprint.
#[derive(Debug)]
pub struct FailureLog {
    failing: KeyedEntries<bool>,
}

impl FailureLog {
    /// The fingerprints of the failing cards.
    pub closed spec fn failing_set(&self) -> Set<Seq<char>> {
        self.failing@.dom()
    }

    /// A log with no failing card.
    pub fn new() -> (r: Self)
        ensures
            r.failing_set() == Set::<Seq<char>>::empty(),
    {
        let r = FailureLog { failing: KeyedEntries::new() };
        assert(r.failing_set() =~= Set::<Seq<char>>::empty());
        r
    }

    /// Fold one round's outcome for one card in, returning what to log.
    pub fn observe(&mut self, entry_fp: &str, success: bool) -> (r: RoundEvent)
        ensures
            (final(self).failing_set(), r) == observe_spec(old(self).failing_set(), entry_fp@, success),
    {
        let was_failing = match self.failing.get(entry_fp) {
            Some(_) => true,
            None => false,
        };
        if !was_failing {
            if success {
                RoundEvent::Healthy
            } else {
                self.failing.insert(crate::text::copy_str(entry_fp), true);
                proof {
                    assert(self.failing_set() =~= old(self).failing_set().insert(entry_fp@));
                }
                RoundEvent::FirstFailure
            }
        } else {
            if success {
                self.failing.remove(entry_fp);
                proof {
                    assert(self.failing_set() =~= old(self).failing_set().remove(entry_fp@));
                }
                RoundEvent::Recovered
            } else {
                RoundEvent::StillFailing
            }
        }
    }

    /// How many cards are failing right now.
    pub fn failing_count(&self) -> (r: usize)
        ensures
            self.failing_set().finite(),
            r == self.failing_set().len(),
    {
        self.failing.len()
    }
}

/// The log events of one round: each probed card's outcome folded into the
/// log in order; a card that was not probed (no key, disabled) has none.
pub open spec fn round_spec(failing: Set<Seq<char>>, fps: Seq<Seq<char>>, statuses: Seq<ProviderStatus>) -> (
    Set<Seq<char>>,
    Seq<Option<RoundEvent>>,
)
    decreases fps.len(),
{
    if fps.len() == 0 {
        (failing, Seq::empty())
    } else {
        let prev = round_spec(failing, fps.drop_last(), statuses);
        let i = fps.len() - 1;
        match statuses[i] {
            ProviderStatus::Healthy => {
                let o = observe_spec(prev.0, fps[i], true);
                (o.0, prev.1.push(Some(o.1)))
            },
            ProviderStatus::Error => {
                let o = observe_spec(prev.0, fps[i], false);
                (o.0, prev.1.push(Some(o.1)))
            },
            _ => (prev.0, prev.1.push(None)),
        }
    }
}

/// Fold a round's outcomes into the log, one event per probed card (in the
/// order of `configs`, paired with `reports`).
pub fn log_round(failures: &mut FailureLog, configs: &Vec<LLMConfig>, reports: &Vec<ProviderHealth>) -> (r: Vec<
    Option<RoundEvent>,
>)
    ensures
        ({
            let n = if configs@.len() <= reports@.len() {
                configs@.len()
            } else {
                reports@.len()
            };
            let fps = Seq::new(n as nat, |i: int| llm_fingerprint(configs@[i]@));
            let sts = Seq::new(n as nat, |i: int| reports@[i].status);
            (final(failures).failing_set(), r@) == round_spec(old(failures).failing_set(), fps, sts)
        }),
{
    let n = if configs.len() <= reports.len() {
        configs.len()
    } else {
        reports.len()
    };
    let ghost fps = Seq::new(n as nat, |i: int| llm_fingerprint(configs@[i]@));
    let ghost sts = Seq::new(n as nat, |i: int| reports@[i].status);
    let mut out: Vec<Option<RoundEvent>> = Vec::new();
    let mut i: usize = 0;
    while i < n
        invariant
            n <= configs@.len(),
            n <= reports@.len(),
            i <= n,
            fps == Seq::new(n as nat, |i: int| llm_fingerprint(configs@[i]@)),
            sts == Seq::new(n as nat, |i: int| reports@[i].status),
            (failures.failing_set(), out@) == round_spec(old(failures).failing_set(), fps.subrange(0, i as int), sts),
        decreases n - i,
    {
        proof {
            let p = fps.subrange(0, i + 1);
            assert(p.drop_last() =~= fps.subrange(0, i as int));
        }
        let ev = match reports[i].status {
            ProviderStatus::Healthy => Some(failures.observe(configs[i].entry_fp().as_str(), true)),
            ProviderStatus::Error => Some(failures.observe(configs[i].entry_fp().as_str(), false)),
            _ => None,
        };
        out.push(ev);
        i = i + 1;
    }
    proof {
        assert(fps.subrange(0, n as int) =~= fps);
    }
    out
}

/// An outage is reported once: after a first failure, further failures of
/// the same card are `StillFailing` until it recovers.
pub proof fn law_outage_reported_once(failing: Set<Seq<char>>, fp: Seq<char>)
    ensures
        observe_spec(failing, fp, false).0.contains(fp),
        observe_spec(observe_spec(failing, fp, false).0, fp, false).1 == RoundEvent::StillFailing,
        observe_spec(observe_spec(failing, fp, false).0, fp, true).1 == RoundEvent::Recovered,
        !observe_spec(observe_spec(failing, fp, false).0, fp, true).0.contains(fp),
{
}

/// The failing set after observing `obs` (card fingerprint, success) in
/// order, starting from `failing`.
pub open spec fn observe_all(failing: Set<Seq<char>>, obs: Seq<(Seq<char>, bool)>) -> Set<Seq<char>>
    decreases obs.len(),
{
    if obs.len() == 0 {
        failing
    } else {
        observe_spec(observe_all(failing, obs.drop_last()), obs.last().0, obs.last().1).0
    }
}

/// The outcome of the last observation of `fp` in `obs`, if any.
pub open spec fn last_outcome(obs: Seq<(Seq<char>, bool)>, fp: Seq<char>) -> Option<bool>
    decreases obs.len(),
{
    if obs.len() == 0 {
        None
    } else if obs.last().0 == fp {
        Some(obs.last().1)
    } else {
        last_outcome(obs.drop_last(), fp)
    }
}

/// After any sequence of observations a card is failing exactly when its
/// last observed outcome was a failure; a card not observed keeps its state.
/// (`failing_count` is the size of this set.)
pub proof fn law_failing_is_the_last_outcome(failing: Set<Seq<char>>, obs: Seq<(Seq<char>, bool)>, fp: Seq<char>)
    ensures
        observe_all(failing, obs).contains(fp) == match last_outcome(obs, fp) {
            Some(ok) => !ok,
            None => failing.contains(fp),
        },
    decreases obs.len(),
{
    if obs.len() > 0 {
        law_failing_is_the_last_outcome(failing, obs.drop_last(), fp);
    }
}

/// What one row adds to a card's (sum, count).
pub open spec fn probe_contrib(r: ProbeSampleView, provider: Seq<char>, fp: Seq<char>) -> (int, int) {
    if counts_for(r, provider, fp) {
        (r.latency_ms->0 as int, 1)
    } else {
        (0, 0)
    }
}

proof fn lemma_probe_fold_remove(rows: Seq<ProbeSampleView>, provider: Seq<char>, fp: Seq<char>, j: int)
    requires
        0 <= j < rows.len(),
    ensures
        probe_fold(rows, provider, fp) == ({
            let f = probe_fold(rows.remove(j), provider, fp);
            let c = probe_contrib(rows[j], provider, fp);
            (f.0 + c.0, f.1 + c.1)
        }),
    decreases rows.len(),
{
    if j == rows.len() - 1 {
        assert(rows.remove(j) =~= rows.drop_last());
    } else {
        lemma_probe_fold_remove(rows.drop_last(), provider, fp, j);
        assert(rows.drop_last().remove(j) =~= rows.remove(j).drop_last());
        assert(rows.remove(j).last() == rows.last());
        assert(rows.drop_last()[j] == rows[j]);
    }
}

/// A card's probe figures do not depend on the order of the rows: any two
/// row lists with the same rows give the same average and count.
pub proof fn law_probe_average_ignores_order(
    a: Seq<ProbeSampleView>,
    b: Seq<ProbeSampleView>,
    provider: Seq<char>,
    fp: Seq<char>,
)
    requires
        a.to_multiset() == b.to_multiset(),
    ensures
        probe_for_card_spec(a, provider, fp) == probe_for_card_spec(b, provider, fp),
{
    lemma_probe_fold_perm(a, b, provider, fp);
}

proof fn lemma_probe_fold_perm(a: Seq<ProbeSampleView>, b: Seq<ProbeSampleView>, provider: Seq<char>, fp: Seq<char>)
    requires
        a.to_multiset() == b.to_multiset(),
    ensures
        probe_fold(a, provider, fp) == probe_fold(b, provider, fp),
    decreases a.len(),
{
    broadcast use vstd::seq_lib::group_to_multiset_ensures;
    broadcast use vstd::multiset::group_multiset_axioms;

    if a.len() == 0 {
        vstd::seq_lib::to_multiset_len(a);
        vstd::seq_lib::to_multiset_len(b);
        assert(b.len() == 0);
        assert(b =~= a);
    } else {
        let x = a.last();
        let t = a.drop_last();
        assert(a =~= t.push(x));
        assert(a.to_multiset() =~= t.to_multiset().insert(x));
        assert(b.to_multiset().count(x) > 0);
        assert(b.contains(x));
        let j = choose|j: int| 0 <= j < b.len() && b[j] == x;
        assert(b.remove(j).to_multiset() == b.to_multiset().remove(x));
        assert(b.remove(j).to_multiset() =~= t.to_multiset());
        lemma_probe_fold_perm(t, b.remove(j), provider, fp);
        lemma_probe_fold_remove(b, provider, fp, j);
    }
}

/// Rows that do not count for a card (failed probes, probes without a
/// latency, other cards' probes) never change its figures, wherever they
/// stand among the rows.
pub proof fn law_failed_probes_do_not_count(
    rows: Seq<ProbeSampleView>,
    i: int,
    r: ProbeSampleView,
    provider: Seq<char>,
    fp: Seq<char>,
)
    requires
        0 <= i <= rows.len(),
        !counts_for(r, provider, fp),
    ensures
        probe_for_card_spec(rows.insert(i, r), provider, fp) == probe_for_card_spec(rows, provider, fp),
{
    lemma_probe_fold_remove(rows.insert(i, r), provider, fp, i);
    assert(rows.insert(i, r).remove(i) =~= rows);
}

} // verus!
