//! Cached per-provider LLM connectivity health.
//!
//! The store keys each probe result by a SHA-256 fingerprint of the exact
//! provider config it was probed with, so a changed credential or endpoint is
//! never answered by an earlier config's result. The decisions of a health
//! report (offline, disabled, served from cache, refreshed, probed) are made
//! here; running the probes is the caller's job.

use vstd::prelude::*;
use crate::digest::{joined_fields, push_field, sha256_hex, sha256_hex_spec};
use crate::keyed::{key_set, KeyedEntries};
use crate::models::{llm_views, LLMConfig, LlmConfigView};
use crate::text::copy_str;

verus! {

/// How long a probe result is served before the next reader refreshes it, in
/// milliseconds.
pub const DEFAULT_TTL_MS: i64 = 60_000;

/// The wire vocabulary of a health report.
#[derive(Debug, Clone, Copy, PartialEq, Eq, Structural)]
pub enum ProviderStatus {
    /// The last probe reached the provider and it accepted the stored key.
    Healthy,
    /// The last probe failed (rejected credentials, transport error, ...).
    Error,
    /// No `api_key` is stored, so no probe was made.
    Offline,
    /// The card is switched off, so no probe was made.
    Disabled,
}

impl ProviderStatus {
    pub open spec fn as_str_spec(self) -> Seq<char> {
        match self {
            ProviderStatus::Healthy => "healthy"@,
            ProviderStatus::Error => "error"@,
            ProviderStatus::Offline => "offline"@,
            ProviderStatus::Disabled => "disabled"@,
        }
    }

    pub open spec fn dashboard_str_spec(self) -> Seq<char> {
        match self {
            ProviderStatus::Healthy => "success"@,
            ProviderStatus::Error => "error"@,
            ProviderStatus::Offline => "offline"@,
            ProviderStatus::Disabled => "disabled"@,
        }
    }

    /// The provider-list vocabulary.
    pub fn as_str(self) -> (r: &'static str)
        ensures
            r@ == self.as_str_spec(),
    {
        match self {
            ProviderStatus::Healthy => "healthy",
            ProviderStatus::Error => "error",
            ProviderStatus::Offline => "offline",
            ProviderStatus::Disabled => "disabled",
        }
    }

    /// The dashboard vocabulary (`success` in place of `healthy`).
    pub fn dashboard_str(self) -> (r: &'static str)
        ensures
            r@ == self.dashboard_str_spec(),
    {
        match self {
            ProviderStatus::Healthy => "success",
            ProviderStatus::Error => "error",
            ProviderStatus::Offline => "offline",
            ProviderStatus::Disabled => "disabled",
        }
    }
}

/// The current time in milliseconds since the Unix epoch
/// (`chrono::Utc::now().timestamp_millis()`); nothing is promised of it.
#[verifier::external_body]
pub(crate) fn now_millis() -> i64 {
    chrono::Utc::now().timestamp_millis()
}

/// Health of one configured provider, as of its most recent probe.
#[derive(Debug)]
pub struct ProviderHealth {
    pub status: ProviderStatus,
    /// `Configured`, `Missing API key`, `Disabled`, or the probe's failure.
    pub message: String,
    /// Round-trip time of the probe itself (0 when no probe was made).
    pub latency_ms: u64,
    /// When the probe behind this report ran (milliseconds since the epoch).
    pub checked_at: i64,
}

pub struct ProviderHealthView {
    pub status: ProviderStatus,
    pub message: Seq<char>,
    pub latency_ms: u64,
    pub checked_at: i64,
}

impl View for ProviderHealth {
    type V = ProviderHealthView;

    open spec fn view(&self) -> ProviderHealthView {
        ProviderHealthView {
            status: self.status,
            message: self.message@,
            latency_ms: self.latency_ms,
            checked_at: self.checked_at,
        }
    }
}

impl ProviderHealth {
    /// A provider with no usable key: reported, never probed.
    pub fn offline() -> (r: Self)
        ensures
            r.status == ProviderStatus::Offline,
            r.message@ == "Missing API key"@,
            r.latency_ms == 0,
    {
        ProviderHealth {
            status: ProviderStatus::Offline,
            message: String::from_str("Missing API key"),
            latency_ms: 0,
            checked_at: now_millis(),
        }
    }

    /// A switched-off card: reported, never probed.
    pub fn disabled() -> (r: Self)
        ensures
            r.status == ProviderStatus::Disabled,
            r.message@ == "Disabled"@,
            r.latency_ms == 0,
    {
        ProviderHealth {
            status: ProviderStatus::Disabled,
            message: String::from_str("Disabled"),
            latency_ms: 0,
            checked_at: now_millis(),
        }
    }

    /// A probe that reached the provider and was accepted.
    pub fn healthy(latency_ms: u64) -> (r: Self)
        ensures
            r.status == ProviderStatus::Healthy,
            r.message@ == "Configured"@,
            r.latency_ms == latency_ms,
    {
        ProviderHealth {
            status: ProviderStatus::Healthy,
            message: String::from_str("Configured"),
            latency_ms,
            checked_at: now_millis(),
        }
    }

    /// A probe that failed, carrying why.
    pub fn error(message: String, latency_ms: u64) -> (r: Self)
        ensures
            r.status == ProviderStatus::Error,
            r.message@ == message@,
            r.latency_ms == latency_ms,
    {
        ProviderHealth { status: ProviderStatus::Error, message, latency_ms, checked_at: now_millis() }
    }

    /// The health a finished probe produces: `Ok` is healthy, `Err` carries
    /// the failure text.
    pub fn from_probe(outcome: Result<(), String>, latency_ms: u64) -> (r: Self)
        ensures
            match outcome {
                Ok(_) => r.status == ProviderStatus::Healthy && r.message@ == "Configured"@,
                Err(e) => r.status == ProviderStatus::Error && r.message@ == e@,
            },
            r.latency_ms == latency_ms,
    {
        match outcome {
            Ok(_) => ProviderHealth::healthy(latency_ms),
            Err(e) => ProviderHealth::error(e, latency_ms),
        }
    }

    /// An equal copy.
    pub fn copy(&self) -> (r: Self)
        ensures
            r@ == self@,
    {
        ProviderHealth {
            status: self.status,
            message: copy_str(self.message.as_str()),
            latency_ms: self.latency_ms,
            checked_at: self.checked_at,
        }
    }
}

/// The cache key of a provider config: SHA-256 hex over provider, model,
/// API base and key, each followed by a 0x1f separator.
#[verifier::opaque]
pub open spec fn llm_fingerprint(c: LlmConfigView) -> Seq<char> {
    sha256_hex_spec(joined_fields(seq![c.provider, c.model, c.api_base, c.api_key], 0x1f))
}

/// Whether a result checked at `checked_at` is still fresh at `now`.
pub open spec fn fresh_spec(ttl_ms: i64, checked_at: i64, now: i64) -> bool {
    now - checked_at < ttl_ms
}

/// How one config is answered by a health report.
#[derive(Debug)]
pub enum ReportStep {
    /// The card is switched off: reported, never probed.
    Disabled,
    /// No key is stored: reported offline, never probed.
    Offline,
    /// Served from the cache; `refresh` asks for a background re-probe of a
    /// stale (but still this config's) result.
    Cached { health: ProviderHealth, refresh: bool },
    /// Nothing cached for this config: probe it now under `key`.
    Probe { key: String },
}

pub enum ReportStepView {
    Disabled,
    Offline,
    Cached { health: ProviderHealthView, refresh: bool },
    Probe { key: Seq<char> },
}

impl View for ReportStep {
    type V = ReportStepView;

    open spec fn view(&self) -> ReportStepView {
        match self {
            ReportStep::Disabled => ReportStepView::Disabled,
            ReportStep::Offline => ReportStepView::Offline,
            ReportStep::Cached { health, refresh } => ReportStepView::Cached { health: health@, refresh: *refresh },
            ReportStep::Probe { key } => ReportStepView::Probe { key: key@ },
        }
    }
}

/// The step a report takes for `c`, given the cached results and the time.
pub open spec fn report_step(
    entries: Map<Seq<char>, ProviderHealthView>,
    ttl_ms: i64,
    c: LlmConfigView,
    now: i64,
) -> ReportStepView {
    if c.disabled {
        ReportStepView::Disabled
    } else if c.api_key.len() == 0 {
        ReportStepView::Offline
    } else if entries.contains_key(llm_fingerprint(c)) {
        let h = entries[llm_fingerprint(c)];
        ReportStepView::Cached { health: h, refresh: !fresh_spec(ttl_ms, h.checked_at, now) }
    } else {
        ReportStepView::Probe { key: llm_fingerprint(c) }
    }
}

/// The fingerprints of the configs a cache entry may be kept for: those with
/// a stored key.
pub open spec fn live_fingerprints(cfgs: Seq<LlmConfigView>) -> Set<Seq<char>> {
    Set::new(
        |k: Seq<char>|
            exists|i: int| 0 <= i < cfgs.len() && cfgs[i].api_key.len() > 0 && #[trigger] llm_fingerprint(cfgs[i]) == k,
    )
}

/// The fingerprints of the keyed configs of `cs`, in order.
pub open spec fn keyed_fingerprints(cs: Seq<LlmConfigView>) -> Seq<Seq<char>>
    decreases cs.len(),
{
    if cs.len() == 0 {
        Seq::empty()
    } else {
        let r = keyed_fingerprints(cs.drop_last());
        if cs.last().api_key.len() > 0 {
            r.push(llm_fingerprint(cs.last()))
        } else {
            r
        }
    }
}

proof fn lemma_keyed_fingerprints(cs: Seq<LlmConfigView>)
    ensures
        forall|k: Seq<char>| keyed_fingerprints(cs).contains(k) <==> #[trigger] live_fingerprints(cs).contains(k),
    decreases cs.len(),
{
    if cs.len() > 0 {
        let t = cs.drop_last();
        lemma_keyed_fingerprints(t);
        assert forall|k: Seq<char>| keyed_fingerprints(cs).contains(k) <==> #[trigger] live_fingerprints(cs).contains(k) by {
            if live_fingerprints(cs).contains(k) {
                let j = choose|j: int| 0 <= j < cs.len() && cs[j].api_key.len() > 0 && #[trigger] llm_fingerprint(cs[j]) == k;
                if j < cs.len() - 1 {
                    assert(t[j] == cs[j]);
                    assert(live_fingerprints(t).contains(k));
                    assert(keyed_fingerprints(t).contains(k));
                    let q = choose|q: int| 0 <= q < keyed_fingerprints(t).len() && keyed_fingerprints(t)[q] == k;
                    assert(keyed_fingerprints(cs)[q] == k);
                } else {
                    assert(cs[j] == cs.last());
                    assert(keyed_fingerprints(cs) == keyed_fingerprints(t).push(k));
                    assert(keyed_fingerprints(cs)[keyed_fingerprints(t).len() as int] == k);
                }
            }
            if keyed_fingerprints(cs).contains(k) {
                if keyed_fingerprints(t).contains(k) {
                    assert(live_fingerprints(t).contains(k));
                    let j = choose|j: int| 0 <= j < t.len() && t[j].api_key.len() > 0 && #[trigger] llm_fingerprint(t[j]) == k;
                    assert(t[j] == cs[j]);
                } else {
                    let q = choose|q: int| 0 <= q < keyed_fingerprints(cs).len() && keyed_fingerprints(cs)[q] == k;
                    assert(cs.last().api_key.len() > 0);
                    assert(keyed_fingerprints(cs) == keyed_fingerprints(t).push(llm_fingerprint(cs.last())));
                    if q < keyed_fingerprints(t).len() {
                        assert(keyed_fingerprints(t)[q] == k);
                    }
                    assert(llm_fingerprint(cs[cs.len() - 1]) == k);
                }
            }
        }
    }
}

proof fn lemma_live_set(live: Seq<String>, cfgs: Seq<LLMConfig>)
    requires
        live.map_values(|s: String| s@) == keyed_fingerprints(llm_views(cfgs)),
    ensures
        key_set(live) == live_fingerprints(llm_views(cfgs)),
{
    let vs = llm_views(cfgs);
    let m = live.map_values(|s: String| s@);
    lemma_keyed_fingerprints(vs);
    assert forall|k: Seq<char>| key_set(live).contains(k) <==> live_fingerprints(vs).contains(k) by {
        if key_set(live).contains(k) {
            let q = choose|q: int| 0 <= q < live.len() && (#[trigger] live[q])@ == k;
            assert(m[q] == k);
            assert(m.contains(k));
        }
        if live_fingerprints(vs).contains(k) {
            assert(m.contains(k));
            let q = choose|q: int| 0 <= q < m.len() && m[q] == k;
            assert(live[q]@ == k);
        }
    }
    assert(key_set(live) =~= live_fingerprints(vs));
}

/// What a reader that needs a probe of one config does next.
#[derive(Debug)]
pub enum ProbeGate {
    /// A fresh result of the config is cached: serve it.
    Serve(ProviderHealth),
    /// Another probe of the config is running: wait for it, then ask again.
    Wait,
    /// Run the probe, then store it.
    Run,
}

/// Per-provider health cache.
#[derive(Debug)]
pub struct LlmHealthStore {
    /// How long an entry is served before it is refreshed, in milliseconds.
    ttl_ms: i64,
    /// Last probe result per config fingerprint.
    entries: KeyedEntries<ProviderHealth>,
    /// Fingerprints whose probe is running (at most one per config).
    flights: KeyedEntries<bool>,
}

impl LlmHealthStore {
    /// The cached results, by fingerprint.
    pub closed spec fn cache(&self) -> Map<Seq<char>, ProviderHealthView> {
        self.entries@
    }

    /// The freshness window in milliseconds.
    pub closed spec fn ttl(&self) -> i64 {
        self.ttl_ms
    }

    /// The fingerprints whose probe is running.
    pub closed spec fn in_flight(&self) -> Set<Seq<char>> {
        self.flights@.dom()
    }

    /// A store with the default TTL.
    pub fn new() -> (r: Self)
        ensures
            r.cache() == Map::<Seq<char>, ProviderHealthView>::empty(),
            r.ttl() == DEFAULT_TTL_MS,
            r.in_flight() == Set::<Seq<char>>::empty(),
    {
        let r = LlmHealthStore { ttl_ms: DEFAULT_TTL_MS, entries: KeyedEntries::new(), flights: KeyedEntries::new() };
        assert(r.in_flight() =~= Set::<Seq<char>>::empty());
        r
    }

    /// A store serving results for `ttl_ms` milliseconds (a TTL too large to
    /// represent falls back to the default).
    pub fn with_ttl(ttl_ms: u64) -> (r: Self)
        ensures
            r.cache() == Map::<Seq<char>, ProviderHealthView>::empty(),
            r.ttl() == (if ttl_ms <= i64::MAX { ttl_ms as i64 } else { DEFAULT_TTL_MS }),
            r.in_flight() == Set::<Seq<char>>::empty(),
    {
        let ttl: i64 = if ttl_ms <= 0x7fff_ffff_ffff_ffffu64 {
            ttl_ms as i64
        } else {
            DEFAULT_TTL_MS
        };
        let r = LlmHealthStore { ttl_ms: ttl, entries: KeyedEntries::new(), flights: KeyedEntries::new() };
        assert(r.in_flight() =~= Set::<Seq<char>>::empty());
        r
    }

    /// The cache key of `cfg`.
    pub fn fingerprint(cfg: &LLMConfig) -> (r: String)
        ensures
            r@ == llm_fingerprint(cfg@),
            r@.len() == 64,
    {
        let mut data: Vec<u8> = Vec::new();
        push_field(&mut data, cfg.provider.as_str(), 0x1f);
        proof {
            let f1 = seq![cfg@.provider];
            assert(f1.drop_last() =~= Seq::<Seq<char>>::empty());
            assert(joined_fields(f1.drop_last(), 0x1f) =~= Seq::<u8>::empty());
            assert(f1.last() == cfg@.provider);
            assert(data@ =~= joined_fields(f1, 0x1f));
        }
        push_field(&mut data, cfg.model.as_str(), 0x1f);
        proof {
            let f2 = seq![cfg@.provider, cfg@.model];
            assert(f2.drop_last() =~= seq![cfg@.provider]);
            assert(data@ =~= joined_fields(f2, 0x1f));
        }
        push_field(&mut data, cfg.api_base.as_str(), 0x1f);
        proof {
            let f3 = seq![cfg@.provider, cfg@.model, cfg@.api_base];
            assert(f3.drop_last() =~= seq![cfg@.provider, cfg@.model]);
            assert(data@ =~= joined_fields(f3, 0x1f));
        }
        push_field(&mut data, cfg.api_key.as_str(), 0x1f);
        proof {
            let f4 = seq![cfg@.provider, cfg@.model, cfg@.api_base, cfg@.api_key];
            assert(f4.drop_last() =~= seq![cfg@.provider, cfg@.model, cfg@.api_base]);
            assert(data@ =~= joined_fields(f4, 0x1f));
            reveal(llm_fingerprint);
        }
        sha256_hex(data.as_slice())
    }

    /// Whether `entry` is still fresh at `now`.
    pub fn is_fresh(&self, entry: &ProviderHealth, now: i64) -> (r: bool)
        ensures
            r == fresh_spec(self.ttl(), entry.checked_at, now),
    {
        let age: i128 = (now as i128) - (entry.checked_at as i128);
        age < (self.ttl_ms as i128)
    }

    /// The cached result under `key`.
    pub fn cached(&self, key: &str) -> (r: Option<ProviderHealth>)
        ensures
            match r {
                Some(h) => self.cache().contains_key(key@) && h@ == self.cache()[key@],
                None => !self.cache().contains_key(key@),
            },
    {
        match self.entries.get(key) {
            Some(h) => Some(h.copy()),
            None => None,
        }
    }

    /// Decide how each config of a report is answered, in order: disabled and
    /// keyless cards are never probed, a cached result of the exact config is
    /// served (with a background refresh once stale), anything else is probed.
    pub fn plan_report(&self, cfgs: &Vec<LLMConfig>, now: i64) -> (r: Vec<ReportStep>)
        ensures
            r@.len() == cfgs@.len(),
            forall|i: int| 0 <= i < cfgs@.len() ==> (#[trigger] r@[i])@ == report_step(self.cache(), self.ttl(), cfgs@[i]@, now),
    {
        let mut out: Vec<ReportStep> = Vec::new();
        let mut i: usize = 0;
        while i < cfgs.len()
            invariant
                i <= cfgs@.len(),
                out@.len() == i,
                forall|j: int| 0 <= j < i ==> (#[trigger] out@[j])@ == report_step(self.cache(), self.ttl(), cfgs@[j]@, now),
            decreases cfgs@.len() - i,
        {
            let cfg = &cfgs[i];
            let step = if cfg.disabled {
                ReportStep::Disabled
            } else if cfg.api_key.as_str().is_empty() {
                ReportStep::Offline
            } else {
                let key = Self::fingerprint(cfg);
                match self.cached(key.as_str()) {
                    Some(h) => {
                        let refresh = !self.is_fresh(&h, now);
                        ReportStep::Cached { health: h, refresh }
                    },
                    None => ReportStep::Probe { key },
                }
            };
            out.push(step);
            i = i + 1;
        }
        out
    }

    /// Drop every cached entry whose config is not among the keyed configs
    /// of `cfgs`; returns how many were dropped.
    pub fn retain_live(&mut self, cfgs: &Vec<LLMConfig>) -> (dropped: usize)
        ensures
            final(self).cache() == old(self).cache().restrict(live_fingerprints(llm_views(cfgs@))),
            final(self).ttl() == old(self).ttl(),
            old(self).cache().dom().finite(),
            dropped == old(self).cache().dom().len() - final(self).cache().dom().len(),
            final(self).in_flight() == old(self).in_flight(),
    {
        let mut live: Vec<String> = Vec::new();
        let mut i: usize = 0;
        while i < cfgs.len()
            invariant
                i <= cfgs@.len(),
                live@.map_values(|s: String| s@) == keyed_fingerprints(llm_views(cfgs@).subrange(0, i as int)),
            decreases cfgs@.len() - i,
        {
            let ghost before = live@;
            proof {
                let p = llm_views(cfgs@).subrange(0, i + 1);
                assert(p.drop_last() =~= llm_views(cfgs@).subrange(0, i as int));
                assert(p.last() == cfgs@[i as int]@);
            }
            if !cfgs[i].api_key.as_str().is_empty() {
                let f = Self::fingerprint(&cfgs[i]);
                live.push(f);
                proof {
                    assert(live@.map_values(|s: String| s@) =~= before.map_values(|s: String| s@).push(llm_fingerprint(cfgs@[i as int]@)));
                }
            }
            i = i + 1;
        }
        proof {
            assert(llm_views(cfgs@).subrange(0, cfgs@.len() as int) =~= llm_views(cfgs@));
        }
        proof {
            lemma_live_set(live@, cfgs@);
        }
        self.entries.retain_keys(&live)
    }

    /// Record a probe that already ran elsewhere, so the next report serves
    /// it; a config with no key is not recorded.
    pub fn record(&mut self, cfg: &LLMConfig, health: ProviderHealth)
        ensures
            final(self).cache() == (if cfg@.api_key.len() == 0 {
                old(self).cache()
            } else {
                old(self).cache().insert(llm_fingerprint(cfg@), health@)
            }),
            final(self).ttl() == old(self).ttl(),
            final(self).in_flight() == old(self).in_flight(),
    {
        if cfg.api_key.as_str().is_empty() {
            return;
        }
        let key = Self::fingerprint(cfg);
        self.entries.insert(key, health);
    }

    /// Store the result of a probe run for `key` (see [`ReportStep::Probe`])
    /// and end its flight.
    pub fn store_probe(&mut self, key: String, health: ProviderHealth)
        ensures
            final(self).cache() == old(self).cache().insert(key@, health@),
            final(self).ttl() == old(self).ttl(),
            final(self).in_flight() == old(self).in_flight().remove(key@),
    {
        self.flights.remove(key.as_str());
        proof {
            assert(self.in_flight() =~= old(self).in_flight().remove(key@));
        }
        self.entries.insert(key, health);
    }

    /// Start a background refresh of a stale entry, unless a probe of the
    /// same config is already running: `true` when the caller should probe
    /// (the key is then in flight until [`store_probe`](Self::store_probe)),
    /// `false` when it should leave it to the running one.
    pub fn begin_refresh(&mut self, key: &str) -> (r: bool)
        ensures
            r == !old(self).in_flight().contains(key@),
            final(self).in_flight() == old(self).in_flight().insert(key@),
            final(self).cache() == old(self).cache(),
            final(self).ttl() == old(self).ttl(),
    {
        let running = match self.flights.get(key) {
            Some(_) => true,
            None => false,
        };
        if running {
            proof {
                assert(old(self).in_flight().insert(key@) =~= old(self).in_flight());
            }
            false
        } else {
            self.flights.insert(crate::text::copy_str(key), true);
            proof {
                assert(self.in_flight() =~= old(self).in_flight().insert(key@));
            }
            true
        }
    }

    /// The single-flight gate of a probe a reader needs: serve an entry of
    /// the config that became fresh meanwhile; otherwise wait while another
    /// probe of it runs; otherwise run it (the key is then in flight until
    /// [`store_probe`](Self::store_probe)).
    pub fn begin_probe(&mut self, key: &str, now: i64) -> (r: ProbeGate)
        ensures
            final(self).cache() == old(self).cache(),
            final(self).ttl() == old(self).ttl(),
            if old(self).cache().contains_key(key@) && fresh_spec(old(self).ttl(), old(self).cache()[key@].checked_at, now) {
                &&& r matches ProbeGate::Serve(h) && h@ == old(self).cache()[key@]
                &&& final(self).in_flight() == old(self).in_flight()
            } else if old(self).in_flight().contains(key@) {
                r is Wait && final(self).in_flight() == old(self).in_flight()
            } else {
                r is Run && final(self).in_flight() == old(self).in_flight().insert(key@)
            },
    {
        match self.cached(key) {
            Some(h) => {
                if self.is_fresh(&h, now) {
                    return ProbeGate::Serve(h);
                }
            },
            None => {},
        }
        if self.begin_refresh(key) {
            ProbeGate::Run
        } else {
            ProbeGate::Wait
        }
    }
}

/// A recorded probe is what the next report serves for that config, as long
/// as it is fresh.
pub proof fn law_recorded_probe_is_served(
    before: Map<Seq<char>, ProviderHealthView>,
    ttl_ms: i64,
    cfg: LlmConfigView,
    health: ProviderHealthView,
    now: i64,
)
    requires
        cfg.api_key.len() > 0,
        !cfg.disabled,
    ensures
        report_step(before.insert(llm_fingerprint(cfg), health), ttl_ms, cfg, now) == (ReportStepView::Cached {
            health,
            refresh: !fresh_spec(ttl_ms, health.checked_at, now),
        }),
{
}

/// A keyless or disabled config is never probed, whatever the cache holds.
pub proof fn law_unconfigured_is_never_probed(
    entries: Map<Seq<char>, ProviderHealthView>,
    ttl_ms: i64,
    cfg: LlmConfigView,
    now: i64,
)
    requires
        cfg.api_key.len() == 0 || cfg.disabled,
    ensures
        !(report_step(entries, ttl_ms, cfg, now) is Probe),
        !(report_step(entries, ttl_ms, cfg, now) is Cached),
{
}

/// How a report answers one config: a disabled card reads disabled and a
/// keyless enabled one offline (neither probed); a cached result of the
/// config is served, without a refresh while younger than the TTL and with
/// a background refresh from then on; a config with no cached result is
/// probed under its own fingerprint.
pub proof fn law_report_answers_each_config(
    entries: Map<Seq<char>, ProviderHealthView>,
    ttl_ms: i64,
    cfg: LlmConfigView,
    now: i64,
)
    ensures
        cfg.disabled ==> report_step(entries, ttl_ms, cfg, now) == ReportStepView::Disabled,
        !cfg.disabled && cfg.api_key.len() == 0 ==> report_step(entries, ttl_ms, cfg, now) == ReportStepView::Offline,
        !cfg.disabled && cfg.api_key.len() > 0 && entries.contains_key(llm_fingerprint(cfg)) ==> ({
            let h = entries[llm_fingerprint(cfg)];
            &&& now - h.checked_at < ttl_ms ==> report_step(entries, ttl_ms, cfg, now) == (ReportStepView::Cached {
                health: h,
                refresh: false,
            })
            &&& now - h.checked_at >= ttl_ms ==> report_step(entries, ttl_ms, cfg, now) == (ReportStepView::Cached {
                health: h,
                refresh: true,
            })
        }),
        !cfg.disabled && cfg.api_key.len() > 0 && !entries.contains_key(llm_fingerprint(cfg)) ==> report_step(
            entries,
            ttl_ms,
            cfg,
            now,
        ) == (ReportStepView::Probe { key: llm_fingerprint(cfg) }),
{
}

} // verus!
