//! Cached per-instance git platform connectivity health.
//!
//! Every surface that reports the integration state reads this one store. An
//! outcome is keyed by the entry's base URL and carries a fingerprint of the
//! `(base_url, token)` it was probed with, so a changed or never-saved token
//! is never answered by another probe. The per-type row aggregates
//! conservatively: any failure governs, otherwise the newest success.

use vstd::prelude::*;
use crate::digest::{hex_spec, joined_fields, push_field, sha256_hex, sha256_of};
use crate::keyed::{key_set, KeyedEntries};
use crate::llm_health::now_millis;
use crate::models::{platform_views, GitPlatformConfig, GitPlatformView};
use crate::text::{copy_str, eq_ignore_ascii_case, eq_ignore_ascii_case_spec, push_char, chars_of};

verus! {

/// Verdict of one platform probe.
#[derive(Debug, Clone, Copy, PartialEq, Eq, Structural)]
pub enum GitPlatformStatus {
    /// The probe reached the instance and authenticated.
    Healthy,
    /// The probe failed (rejected credentials, transport error, ...).
    Error,
}

/// Last probe outcome for one platform entry.
#[derive(Debug)]
pub struct GitPlatformHealth {
    pub status: GitPlatformStatus,
    /// `Configured`, or the probe's failure.
    pub message: String,
    /// Instance version reported by a successful probe.
    pub version: Option<String>,
    /// Round-trip time of the probe; 0 when the probe failed.
    pub latency_ms: u64,
    /// When the probe ran (milliseconds since the epoch).
    pub checked_at: i64,
    /// Hash of the `(base_url, token)` the outcome was probed with; set by
    /// the store when the outcome is recorded.
    pub fingerprint: String,
}

pub struct GitHealthView {
    pub status: GitPlatformStatus,
    pub message: Seq<char>,
    pub version: Option<Seq<char>>,
    pub latency_ms: u64,
    pub checked_at: i64,
    pub fingerprint: Seq<char>,
}

impl View for GitPlatformHealth {
    type V = GitHealthView;

    open spec fn view(&self) -> GitHealthView {
        GitHealthView {
            status: self.status,
            message: self.message@,
            version: match self.version {
                Some(v) => Some(v@),
                None => None,
            },
            latency_ms: self.latency_ms,
            checked_at: self.checked_at,
            fingerprint: self.fingerprint@,
        }
    }
}

/// SHA-256 over `base_url` and `token` (each followed by a newline), as hex
/// truncated to 12 characters.
pub open spec fn git_fingerprint(base_url: Seq<char>, token: Seq<char>) -> Seq<char> {
    hex_spec(sha256_of(joined_fields(seq![base_url, token], 10))).subrange(0, 12)
}

impl GitPlatformHealth {
    /// A probe that reached the instance and was accepted.
    pub fn healthy(version: Option<String>, latency_ms: u64) -> (r: Self)
        ensures
            r.status == GitPlatformStatus::Healthy,
            r.message@ == "Configured"@,
            r@.version == (match version {
                Some(v) => Some(v@),
                None => None::<Seq<char>>,
            }),
            r.latency_ms == latency_ms,
            r.fingerprint@.len() == 0,
    {
        GitPlatformHealth {
            status: GitPlatformStatus::Healthy,
            message: String::from_str("Configured"),
            version,
            latency_ms,
            checked_at: now_millis(),
            fingerprint: String::new(),
        }
    }

    /// A probe that failed, carrying why (no latency, no version).
    pub fn error(message: String) -> (r: Self)
        ensures
            r.status == GitPlatformStatus::Error,
            r.message@ == message@,
            r.version.is_none(),
            r.latency_ms == 0,
            r.fingerprint@.len() == 0,
    {
        GitPlatformHealth {
            status: GitPlatformStatus::Error,
            message,
            version: None,
            latency_ms: 0,
            checked_at: now_millis(),
            fingerprint: String::new(),
        }
    }

    /// The `(base_url, token)` fingerprint: 12 lowercase hex characters.
    pub fn fingerprint(base_url: &str, token: &str) -> (r: String)
        ensures
            r@ == git_fingerprint(base_url@, token@),
            r@.len() == 12,
    {
        let mut data: Vec<u8> = Vec::new();
        push_field(&mut data, base_url, 10);
        proof {
            let f1 = seq![base_url@];
            assert(f1.drop_last() =~= Seq::<Seq<char>>::empty());
            assert(joined_fields(f1.drop_last(), 10) =~= Seq::<u8>::empty());
            assert(f1.last() == base_url@);
            assert(data@ =~= joined_fields(f1, 10));
        }
        push_field(&mut data, token, 10);
        proof {
            let f2 = seq![base_url@, token@];
            assert(f2.drop_last() =~= seq![base_url@]);
            assert(data@ =~= joined_fields(f2, 10));
        }
        let full = sha256_hex(data.as_slice());
        let cs = chars_of(full.as_str());
        let mut out = String::new();
        let mut i: usize = 0;
        while i < 12
            invariant
                i <= 12,
                cs@.len() == 64,
                out@ == cs@.subrange(0, i as int),
            decreases 12 - i,
        {
            push_char(&mut out, cs[i]);
            i = i + 1;
        }
        out
    }

    /// An equal copy.
    pub fn copy(&self) -> (r: Self)
        ensures
            r@ == self@,
    {
        GitPlatformHealth {
            status: self.status,
            message: copy_str(self.message.as_str()),
            version: match &self.version {
                Some(v) => Some(copy_str(v.as_str())),
                None => None,
            },
            latency_ms: self.latency_ms,
            checked_at: self.checked_at,
            fingerprint: copy_str(self.fingerprint.as_str()),
        }
    }
}

/// The outcome the store answers for a platform entry: only one probed with
/// the entry's current base URL and token.
pub open spec fn lookup_spec(m: Map<Seq<char>, GitHealthView>, p: GitPlatformView) -> Option<GitHealthView> {
    if m.contains_key(p.base_url) && m[p.base_url].fingerprint == git_fingerprint(p.base_url, p.token) {
        Some(m[p.base_url])
    } else {
        None
    }
}

/// The base URLs of `ps`.
pub open spec fn base_url_set(ps: Seq<GitPlatformView>) -> Set<Seq<char>> {
    Set::new(|k: Seq<char>| exists|i: int| 0 <= i < ps.len() && (#[trigger] ps[i]).base_url == k)
}

/// Per-entry git platform health cache.
#[derive(Debug)]
pub struct GitHealthStore {
    /// Last probe outcome per base URL.
    entries: KeyedEntries<GitPlatformHealth>,
}

impl GitHealthStore {
    /// The recorded outcomes, by base URL.
    pub closed spec fn outcomes(&self) -> Map<Seq<char>, GitHealthView> {
        self.entries@
    }

    pub fn new() -> (r: Self)
        ensures
            r.outcomes() == Map::<Seq<char>, GitHealthView>::empty(),
    {
        GitHealthStore { entries: KeyedEntries::new() }
    }

    /// Record a probe that just ran against `base_url` with `token`.
    pub fn record(&mut self, base_url: &str, token: &str, health: GitPlatformHealth)
        ensures
            final(self).outcomes() == old(self).outcomes().insert(
                base_url@,
                GitHealthView { fingerprint: git_fingerprint(base_url@, token@), ..health@ },
            ),
    {
        let mut h = health;
        h.fingerprint = GitPlatformHealth::fingerprint(base_url, token);
        self.entries.insert(copy_str(base_url), h);
    }

    /// The outcome for `platform`, only when it was probed with the entry's
    /// current token.
    pub fn lookup(&self, platform: &GitPlatformConfig) -> (r: Option<GitPlatformHealth>)
        ensures
            match r {
                Some(h) => lookup_spec(self.outcomes(), platform@) == Some(h@),
                None => lookup_spec(self.outcomes(), platform@).is_none(),
            },
    {
        match self.entries.get(platform.base_url.as_str()) {
            Some(entry) => {
                let fp = GitPlatformHealth::fingerprint(platform.base_url.as_str(), platform.token.as_str());
                if crate::text::str_eq(entry.fingerprint.as_str(), fp.as_str()) {
                    Some(entry.copy())
                } else {
                    None
                }
            },
            None => None,
        }
    }

    /// Drop every outcome whose base URL is no longer configured; returns how
    /// many were dropped.
    pub fn retain_live(&mut self, platforms: &Vec<GitPlatformConfig>) -> (dropped: usize)
        ensures
            final(self).outcomes() == old(self).outcomes().restrict(base_url_set(platform_views(platforms@))),
            old(self).outcomes().dom().finite(),
            dropped == old(self).outcomes().dom().len() - final(self).outcomes().dom().len(),
    {
        let mut live: Vec<String> = Vec::new();
        let mut i: usize = 0;
        while i < platforms.len()
            invariant
                i <= platforms@.len(),
                live@.len() == i,
                forall|j: int| 0 <= j < i ==> (#[trigger] live@[j])@ == platforms@[j]@.base_url,
            decreases platforms@.len() - i,
        {
            live.push(copy_str(platforms[i].base_url.as_str()));
            i = i + 1;
        }
        proof {
            let ps = platform_views(platforms@);
            assert forall|k: Seq<char>| key_set(live@).contains(k) <==> base_url_set(ps).contains(k) by {
                if key_set(live@).contains(k) {
                    let q = choose|q: int| 0 <= q < live@.len() && (#[trigger] live@[q])@ == k;
                    assert(ps[q] == platforms@[q]@);
                }
                if base_url_set(ps).contains(k) {
                    let q = choose|q: int| 0 <= q < ps.len() && (#[trigger] ps[q]).base_url == k;
                    assert(ps[q] == platforms@[q]@);
                    assert(live@[q]@ == k);
                }
            }
            assert(key_set(live@) =~= base_url_set(ps));
        }
        self.entries.retain_keys(&live)
    }
}

/// The state of a per-type integration row.
#[derive(Debug, Clone, Copy, PartialEq, Eq, Structural)]
pub enum IntegrationStatus {
    /// Nothing of this type is configured.
    Offline,
    /// Configured but never probed.
    Unknown,
    /// A probe failed.
    Error,
    /// A probe succeeded.
    Success,
}

impl IntegrationStatus {
    pub open spec fn as_str_spec(self) -> Seq<char> {
        match self {
            IntegrationStatus::Offline => "offline"@,
            IntegrationStatus::Unknown => "unknown"@,
            IntegrationStatus::Error => "error"@,
            IntegrationStatus::Success => "success"@,
        }
    }

    /// The wire spelling.
    pub fn as_str(self) -> (r: &'static str)
        ensures
            r@ == self.as_str_spec(),
    {
        match self {
            IntegrationStatus::Offline => "offline",
            IntegrationStatus::Unknown => "unknown",
            IntegrationStatus::Error => "error",
            IntegrationStatus::Success => "success",
        }
    }
}

/// The dashboard / system-health view of one platform type.
#[derive(Debug)]
pub struct IntegrationRow {
    pub service: String,
    pub status: IntegrationStatus,
    pub message: String,
    /// Present only on success (a real round-trip measurement).
    pub latency_ms: Option<u64>,
    /// Present only when a probe ran.
    pub checked_at: Option<i64>,
}

pub struct IntegrationRowView {
    pub service: Seq<char>,
    pub status: IntegrationStatus,
    pub message: Seq<char>,
    pub latency_ms: Option<u64>,
    pub checked_at: Option<i64>,
}

impl View for IntegrationRow {
    type V = IntegrationRowView;

    open spec fn view(&self) -> IntegrationRowView {
        IntegrationRowView {
            service: self.service@,
            status: self.status,
            message: self.message@,
            latency_ms: self.latency_ms,
            checked_at: self.checked_at,
        }
    }
}

/// The probed outcomes of the entries of type `ty` (ASCII case-insensitive),
/// in entry order.
pub open spec fn type_outcomes(ps: Seq<GitPlatformView>, m: Map<Seq<char>, GitHealthView>, ty: Seq<char>) -> Seq<
    GitHealthView,
>
    decreases ps.len(),
{
    if ps.len() == 0 {
        Seq::empty()
    } else {
        let r = type_outcomes(ps.drop_last(), m, ty);
        let p = ps.last();
        if eq_ignore_ascii_case_spec(p.platform_type, ty) {
            match lookup_spec(m, p) {
                Some(h) => r.push(h),
                None => r,
            }
        } else {
            r
        }
    }
}

/// Whether an entry of type `ty` is configured.
pub open spec fn has_type(ps: Seq<GitPlatformView>, ty: Seq<char>) -> bool {
    exists|i: int| 0 <= i < ps.len() && eq_ignore_ascii_case_spec((#[trigger] ps[i]).platform_type, ty)
}

/// The index of the newest outcome (of the failures only, when
/// `errors_only`); among equally new ones the last.
pub open spec fn latest(s: Seq<GitHealthView>, errors_only: bool) -> Option<int>
    decreases s.len(),
{
    if s.len() == 0 {
        None
    } else {
        let b = latest(s.drop_last(), errors_only);
        let l = s.len() - 1;
        if (!errors_only || s[l].status == GitPlatformStatus::Error) && (b is None || s[b->0].checked_at
            <= s[l].checked_at) {
            Some(l)
        } else {
            b
        }
    }
}

proof fn lemma_latest(s: Seq<GitHealthView>, errors_only: bool)
    ensures
        match latest(s, errors_only) {
            Some(i) => 0 <= i < s.len() && (!errors_only || s[i].status == GitPlatformStatus::Error),
            None => forall|j: int| 0 <= j < s.len() ==> errors_only && (#[trigger] s[j]).status != GitPlatformStatus::Error,
        },
    decreases s.len(),
{
    if s.len() > 0 {
        let t = s.drop_last();
        lemma_latest(t, errors_only);
        match latest(t, errors_only) {
            Some(b) => {
                assert(t[b] == s[b]);
            },
            None => {
                if latest(s, errors_only).is_none() {
                    assert forall|j: int| 0 <= j < s.len() implies errors_only && (#[trigger] s[j]).status
                        != GitPlatformStatus::Error by {
                        if j < t.len() {
                            assert(t[j] == s[j]);
                        }
                    }
                }
            },
        }
    }
}

/// What the row for type `ty` says.
pub open spec fn integration_row_spec(
    ps: Seq<GitPlatformView>,
    m: Map<Seq<char>, GitHealthView>,
    service: Seq<char>,
    ty: Seq<char>,
    env_configured: bool,
) -> IntegrationRowView {
    let outs = type_outcomes(ps, m, ty);
    if !env_configured && !has_type(ps, ty) {
        IntegrationRowView {
            service,
            status: IntegrationStatus::Offline,
            message: "Not configured"@,
            latency_ms: None,
            checked_at: None,
        }
    } else if outs.len() == 0 {
        IntegrationRowView {
            service,
            status: IntegrationStatus::Unknown,
            message: "Not probed yet"@,
            latency_ms: None,
            checked_at: None,
        }
    } else {
        match latest(outs, true) {
            Some(i) => IntegrationRowView {
                service,
                status: IntegrationStatus::Error,
                message: outs[i].message,
                latency_ms: None,
                checked_at: Some(outs[i].checked_at),
            },
            None => {
                let j = latest(outs, false)->0;
                IntegrationRowView {
                    service,
                    status: IntegrationStatus::Success,
                    message: "Configured"@,
                    latency_ms: Some(outs[j].latency_ms),
                    checked_at: Some(outs[j].checked_at),
                }
            },
        }
    }
}

pub open spec fn health_views(s: Seq<GitPlatformHealth>) -> Seq<GitHealthView> {
    s.map_values(|h: GitPlatformHealth| h@)
}

/// The newest outcome of `outs` (of the failures only, when `errors_only`).
fn latest_index(outs: &Vec<GitPlatformHealth>, errors_only: bool) -> (r: Option<usize>)
    ensures
        match r {
            Some(i) => latest(health_views(outs@), errors_only) == Some(i as int),
            None => latest(health_views(outs@), errors_only).is_none(),
        },
{
    let mut best: Option<usize> = None;
    let mut i: usize = 0;
    while i < outs.len()
        invariant
            i <= outs@.len(),
            match best {
                Some(b) => latest(health_views(outs@).subrange(0, i as int), errors_only) == Some(b as int) && b < i,
                None => latest(health_views(outs@).subrange(0, i as int), errors_only).is_none(),
            },
        decreases outs@.len() - i,
    {
        proof {
            let p = health_views(outs@).subrange(0, i + 1);
            assert(p.drop_last() =~= health_views(outs@).subrange(0, i as int));
            assert(p[i as int] == outs@[i as int]@);
        }
        let qualifies = !errors_only || outs[i].status == GitPlatformStatus::Error;
        if qualifies {
            match best {
                Some(b) => {
                    proof {
                        assert(health_views(outs@).subrange(0, i + 1)[b as int] == outs@[b as int]@);
                    }
                    if outs[b].checked_at <= outs[i].checked_at {
                        best = Some(i);
                    }
                },
                None => {
                    best = Some(i);
                },
            }
        }
        i = i + 1;
    }
    proof {
        assert(health_views(outs@).subrange(0, outs@.len() as int) =~= health_views(outs@));
    }
    best
}

/// The per-type row: `offline` when nothing is configured, `unknown` when
/// configured but never probed, `error` with the newest failure when any
/// probe failed, otherwise `success` with the newest probe's latency.
pub fn integration_row(
    platforms: &Vec<GitPlatformConfig>,
    store: &GitHealthStore,
    service: &str,
    platform_type: &str,
    env_configured: bool,
) -> (r: IntegrationRow)
    ensures
        r@ == integration_row_spec(platform_views(platforms@), store.outcomes(), service@, platform_type@, env_configured),
{
    let ghost ps = platform_views(platforms@);
    let mut outs: Vec<GitPlatformHealth> = Vec::new();
    let mut any = false;
    let mut i: usize = 0;
    while i < platforms.len()
        invariant
            i <= platforms@.len(),
            ps == platform_views(platforms@),
            health_views(outs@) == type_outcomes(ps.subrange(0, i as int), store.outcomes(), platform_type@),
            any == has_type(ps.subrange(0, i as int), platform_type@),
        decreases platforms@.len() - i,
    {
        let ghost before = outs@;
        proof {
            let p = ps.subrange(0, i + 1);
            assert(p.drop_last() =~= ps.subrange(0, i as int));
            assert(p.last() == platforms@[i as int]@);
        }
        let matches = eq_ignore_ascii_case(platforms[i].platform_type.as_str(), platform_type);
        if matches {
            match store.lookup(&platforms[i]) {
                Some(h) => {
                    outs.push(h);
                    proof {
                        assert(health_views(outs@) =~= health_views(before).push(outs@[i as int - i + before.len()]@));
                    }
                },
                None => {},
            }
        }
        proof {
            let p = ps.subrange(0, i + 1);
            let q = ps.subrange(0, i as int);
            if matches {
                assert(p[i as int] == platforms@[i as int]@);
                assert(has_type(p, platform_type@));
            } else if has_type(p, platform_type@) {
                let j = choose|j: int| 0 <= j < p.len() && eq_ignore_ascii_case_spec((#[trigger] p[j]).platform_type, platform_type@);
                assert(p[j] == q[j]);
                assert(has_type(q, platform_type@));
            }
            if has_type(q, platform_type@) {
                let j = choose|j: int| 0 <= j < q.len() && eq_ignore_ascii_case_spec((#[trigger] q[j]).platform_type, platform_type@);
                assert(p[j] == q[j]);
            }
        }
        any = any || matches;
        i = i + 1;
    }
    proof {
        assert(ps.subrange(0, platforms@.len() as int) =~= ps);
    }
    let service_s = copy_str(service);
    if !env_configured && !any {
        return IntegrationRow {
            service: service_s,
            status: IntegrationStatus::Offline,
            message: String::from_str("Not configured"),
            latency_ms: None,
            checked_at: None,
        };
    }
    if outs.len() == 0 {
        return IntegrationRow {
            service: service_s,
            status: IntegrationStatus::Unknown,
            message: String::from_str("Not probed yet"),
            latency_ms: None,
            checked_at: None,
        };
    }
    proof {
        lemma_latest(health_views(outs@), true);
        lemma_latest(health_views(outs@), false);
    }
    match latest_index(&outs, true) {
        Some(f) => {
            IntegrationRow {
                service: service_s,
                status: IntegrationStatus::Error,
                message: copy_str(outs[f].message.as_str()),
                latency_ms: None,
                checked_at: Some(outs[f].checked_at),
            }
        },
        None => {
            let s = match latest_index(&outs, false) {
                Some(s) => s,
                None => 0,
            };
            IntegrationRow {
                service: service_s,
                status: IntegrationStatus::Success,
                message: String::from_str("Configured"),
                latency_ms: Some(outs[s].latency_ms),
                checked_at: Some(outs[s].checked_at),
            }
        },
    }
}

/// Read after write: the outcome recorded for an entry's current base URL
/// and token is what the store answers for that entry.
pub proof fn law_lookup_after_record(
    m: Map<Seq<char>, GitHealthView>,
    p: GitPlatformView,
    health: GitHealthView,
)
    ensures
        lookup_spec(m.insert(p.base_url, GitHealthView { fingerprint: git_fingerprint(p.base_url, p.token), ..health }), p)
            == Some(GitHealthView { fingerprint: git_fingerprint(p.base_url, p.token), ..health }),
{
}

/// A failure among an entry type's outcomes always makes its row an error.
pub proof fn law_any_failure_governs(
    ps: Seq<GitPlatformView>,
    m: Map<Seq<char>, GitHealthView>,
    service: Seq<char>,
    ty: Seq<char>,
    env_configured: bool,
    k: int,
)
    requires
        0 <= k < type_outcomes(ps, m, ty).len(),
        type_outcomes(ps, m, ty)[k].status == GitPlatformStatus::Error,
    ensures
        integration_row_spec(ps, m, service, ty, env_configured).status == IntegrationStatus::Error,
{
    lemma_latest(type_outcomes(ps, m, ty), true);
    lemma_type_outcomes_typed(ps, m, ty);
}

proof fn lemma_type_outcomes_typed(ps: Seq<GitPlatformView>, m: Map<Seq<char>, GitHealthView>, ty: Seq<char>)
    ensures
        type_outcomes(ps, m, ty).len() > 0 ==> has_type(ps, ty),
    decreases ps.len(),
{
    if ps.len() > 0 {
        let t = ps.drop_last();
        lemma_type_outcomes_typed(t, m, ty);
        if type_outcomes(ps, m, ty).len() > 0 {
            if type_outcomes(t, m, ty).len() > 0 {
                let j = choose|j: int| 0 <= j < t.len() && eq_ignore_ascii_case_spec((#[trigger] t[j]).platform_type, ty);
                assert(ps[j] == t[j]);
            } else {
                assert(ps[ps.len() - 1] == ps.last());
            }
        }
    }
}

/// The newest qualifying outcome: every outcome that qualifies (every one,
/// or every failure when `errors_only`) is at most as new as the one chosen,
/// and one is chosen exactly when some outcome qualifies.
proof fn lemma_latest_is_newest(s: Seq<GitHealthView>, errors_only: bool)
    ensures
        match latest(s, errors_only) {
            Some(i) => 0 <= i < s.len() && (!errors_only || s[i].status == GitPlatformStatus::Error) && forall|j: int|
                0 <= j < s.len() && (!errors_only || (#[trigger] s[j]).status == GitPlatformStatus::Error)
                    ==> s[j].checked_at <= s[i].checked_at,
            None => forall|j: int| 0 <= j < s.len() ==> errors_only && (#[trigger] s[j]).status != GitPlatformStatus::Error,
        },
    decreases s.len(),
{
    lemma_latest(s, errors_only);
    if s.len() > 0 {
        let t = s.drop_last();
        let l = s.len() - 1;
        lemma_latest_is_newest(t, errors_only);
        assert forall|j: int| 0 <= j < t.len() implies #[trigger] t[j] == s[j] by {}
        match latest(s, errors_only) {
            Some(i) => {
                assert forall|j: int|
                    0 <= j < s.len() && (!errors_only || (#[trigger] s[j]).status == GitPlatformStatus::Error)
                        implies s[j].checked_at <= s[i].checked_at by {
                    if j < l {
                        assert(t[j] == s[j]);
                        let b = latest(t, errors_only);
                        assert(b is Some);
                        assert(t[b->0] == s[b->0]);
                    }
                }
            },
            None => {},
        }
    }
}

/// What a platform type's dashboard row reports, over its outcomes: an
/// `error` row carries the message and time of a failed outcome that is at
/// least as new as every other failure, and comes exactly when some outcome
/// failed; a `success` row carries the latency and time of an outcome at
/// least as new as every other one.
pub proof fn law_row_reports_the_newest_outcome(
    ps: Seq<GitPlatformView>,
    m: Map<Seq<char>, GitHealthView>,
    service: Seq<char>,
    ty: Seq<char>,
    env_configured: bool,
)
    ensures
        ({
            let outs = type_outcomes(ps, m, ty);
            let row = integration_row_spec(ps, m, service, ty, env_configured);
            &&& row.status == IntegrationStatus::Error ==> exists|k: int|
                0 <= k < outs.len() && (#[trigger] outs[k]).status == GitPlatformStatus::Error && row.message
                    == outs[k].message && row.checked_at == Some(outs[k].checked_at) && forall|j: int|
                    0 <= j < outs.len() && (#[trigger] outs[j]).status == GitPlatformStatus::Error
                        ==> outs[j].checked_at <= outs[k].checked_at
            &&& (outs.len() > 0 && (env_configured || has_type(ps, ty))) ==> ((row.status == IntegrationStatus::Error)
                <==> exists|k: int| 0 <= k < outs.len() && (#[trigger] outs[k]).status == GitPlatformStatus::Error)
            &&& row.status == IntegrationStatus::Success ==> exists|k: int|
                0 <= k < outs.len() && row.latency_ms == Some((#[trigger] outs[k]).latency_ms) && row.checked_at
                    == Some(outs[k].checked_at) && forall|j: int| 0 <= j < outs.len() ==> (#[trigger] outs[j]).checked_at
                    <= outs[k].checked_at
        }),
{
    let outs = type_outcomes(ps, m, ty);
    lemma_latest_is_newest(outs, true);
    lemma_latest_is_newest(outs, false);
    lemma_type_outcomes_typed(ps, m, ty);
}

/// The row of a platform type ignores ASCII case on both sides: asking for
/// `GitLab` or `gitlab` gathers the same outcomes. An outcome recorded under
/// another token than the entry's current one is never served for it.
pub proof fn law_type_match_ignores_case(
    ps: Seq<GitPlatformView>,
    m: Map<Seq<char>, GitHealthView>,
    ty1: Seq<char>,
    ty2: Seq<char>,
    p: GitPlatformView,
)
    ensures
        eq_ignore_ascii_case_spec(ty1, ty2) ==> type_outcomes(ps, m, ty1) == type_outcomes(ps, m, ty2),
        eq_ignore_ascii_case_spec(ty1, ty2) ==> has_type(ps, ty1) == has_type(ps, ty2),
        m.contains_key(p.base_url) && m[p.base_url].fingerprint != git_fingerprint(p.base_url, p.token) ==> lookup_spec(m, p)
            is None,
    decreases ps.len(),
{
    if ps.len() > 0 {
        law_type_match_ignores_case(ps.drop_last(), m, ty1, ty2, p);
    }
    if eq_ignore_ascii_case_spec(ty1, ty2) {
        if has_type(ps, ty1) {
            let i = choose|i: int| 0 <= i < ps.len() && eq_ignore_ascii_case_spec((#[trigger] ps[i]).platform_type, ty1);
            assert(eq_ignore_ascii_case_spec(ps[i].platform_type, ty2));
        }
        if has_type(ps, ty2) {
            let i = choose|i: int| 0 <= i < ps.len() && eq_ignore_ascii_case_spec((#[trigger] ps[i]).platform_type, ty2);
            assert(eq_ignore_ascii_case_spec(ps[i].platform_type, ty1));
        }
    }
}

} // verus!
