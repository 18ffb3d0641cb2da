//! The address policy of review-completion callbacks: which resolved target
//! addresses a callback may reach, and over which scheme.
//!
//! Link-local (cloud metadata), `0.0.0.0/8`, unspecified, multicast and
//! broadcast targets are always refused; plain `http` is allowed only when
//! every resolved address is loopback or private. IPv4-mapped IPv6 addresses
//! are judged as the IPv4 address they carry. Before any address is
//! resolved, the URL itself must parse, use `http` or `https`, and name a host.

use vstd::prelude::*;
use crate::text::{ascii_lower_spec, str_eq, to_ascii_lower};
use crate::config::put::{parse_url, url_parse};

verus! {

/// An IP address: four octets, or eight 16-bit IPv6 segments.
#[derive(Debug, Clone, Copy, PartialEq, Eq, Structural)]
pub enum IpAddress {
    V4(u8, u8, u8, u8),
    V6(u16, u16, u16, u16, u16, u16, u16, u16),
}

/// An IPv4-mapped IPv6 address (`::ffff:a.b.c.d`) as its IPv4 address; any
/// other address unchanged.
pub open spec fn normalize_spec(ip: IpAddress) -> IpAddress {
    match ip {
        IpAddress::V6(a, b, c, d, e, f, g, h) => if a == 0 && b == 0 && c == 0 && d == 0 && e == 0 && f == 0xffff {
            IpAddress::V4((g / 256) as u8, (g % 256) as u8, (h / 256) as u8, (h % 256) as u8)
        } else {
            ip
        },
        _ => ip,
    }
}

pub fn normalize_ip(ip: IpAddress) -> (r: IpAddress)
    ensures
        r == normalize_spec(ip),
{
    match ip {
        IpAddress::V6(a, b, c, d, e, f, g, h) => if a == 0 && b == 0 && c == 0 && d == 0 && e == 0 && f == 0xffff {
            IpAddress::V4((g / 256) as u8, (g % 256) as u8, (h / 256) as u8, (h % 256) as u8)
        } else {
            ip
        },
        _ => ip,
    }
}

/// Loopback (`127/8`, `::1`) or private (`10/8`, `172.16/12`,
/// `192.168/16`, unique-local `fc00::/7`).
pub open spec fn loopback_or_private_spec(ip: IpAddress) -> bool {
    match normalize_spec(ip) {
        IpAddress::V4(a, b, _, _) => a == 127 || a == 10 || (a == 172 && 16 <= b <= 31) || (a == 192 && b == 168),
        IpAddress::V6(a, b, c, d, e, f, g, h) => (a == 0 && b == 0 && c == 0 && d == 0 && e == 0 && f == 0 && g == 0
            && h == 1) || (a & 0xfe00) == 0xfc00,
    }
}

pub fn is_loopback_or_private(ip: IpAddress) -> (r: bool)
    ensures
        r == loopback_or_private_spec(ip),
{
    match normalize_ip(ip) {
        IpAddress::V4(a, b, _, _) => a == 127 || a == 10 || (a == 172 && 16 <= b && b <= 31) || (a == 192 && b == 168),
        IpAddress::V6(a, b, c, d, e, f, g, h) => (a == 0 && b == 0 && c == 0 && d == 0 && e == 0 && f == 0 && g == 0
            && h == 1) || (a & 0xfe00) == 0xfc00,
    }
}

/// Always refused: link-local (`169.254/16`, `fe80::/10`), `0.0.0.0/8`,
/// unspecified (`::`), multicast (`224/4`, `ff00::/8`), broadcast.
pub open spec fn blocked_spec(ip: IpAddress) -> bool {
    match normalize_spec(ip) {
        IpAddress::V4(a, b, c, d) => (a == 169 && b == 254) || a == 0 || (224 <= a <= 239) || (a == 255 && b == 255
            && c == 255 && d == 255),
        IpAddress::V6(a, b, c, d, e, f, g, h) => (a & 0xffc0) == 0xfe80 || (a == 0 && b == 0 && c == 0 && d == 0 && e
            == 0 && f == 0 && g == 0 && h == 0) || (a & 0xff00) == 0xff00,
    }
}

pub fn is_blocked_callback_addr(ip: IpAddress) -> (r: bool)
    ensures
        r == blocked_spec(ip),
{
    match normalize_ip(ip) {
        IpAddress::V4(a, b, c, d) => (a == 169 && b == 254) || a == 0 || (224 <= a && a <= 239) || (a == 255 && b
            == 255 && c == 255 && d == 255),
        IpAddress::V6(a, b, c, d, e, f, g, h) => (a & 0xffc0) == 0xfe80 || (a == 0 && b == 0 && c == 0 && d == 0 && e
            == 0 && f == 0 && g == 0 && h == 0) || (a & 0xff00) == 0xff00,
    }
}

/// Why a callback target is refused.
#[derive(Debug, Clone, Copy, PartialEq, Eq, Structural)]
pub enum CallbackPolicyError {
    /// The address at this index of the resolved list is in a blocked range.
    BlockedAddress(usize),
    /// Plain `http` to a target that is not entirely loopback/private.
    HttpToPublic,
    /// A scheme other than `http` or `https`.
    UnsupportedScheme,
}

/// The first blocked address of `ips`, if any.
pub open spec fn first_blocked(ips: Seq<IpAddress>, i: int) -> Option<int>
    decreases ips.len() - i,
{
    if i < 0 || i >= ips.len() {
        None
    } else if blocked_spec(ips[i]) {
        Some(i)
    } else {
        first_blocked(ips, i + 1)
    }
}

/// The verdict on a scheme and the target's resolved addresses.
pub open spec fn policy_spec(scheme: Seq<char>, ips: Seq<IpAddress>) -> Result<(), CallbackPolicyError> {
    match first_blocked(ips, 0) {
        Some(i) => Err(CallbackPolicyError::BlockedAddress(i as usize)),
        None => if scheme == "https"@ {
            Ok(())
        } else if scheme == "http"@ {
            if forall|i: int| 0 <= i < ips.len() ==> loopback_or_private_spec(#[trigger] ips[i]) {
                Ok(())
            } else {
                Err(CallbackPolicyError::HttpToPublic)
            }
        } else {
            Err(CallbackPolicyError::UnsupportedScheme)
        },
    }
}

/// Judge a (lowercase) scheme and the target's resolved addresses.
pub fn validate_scheme_and_ips(scheme: &str, ips: &Vec<IpAddress>) -> (r: Result<(), CallbackPolicyError>)
    ensures
        r == policy_spec(scheme@, ips@),
{
    let mut blocked: Option<usize> = None;
    let mut i: usize = ips.len();
    while i > 0
        invariant
            i <= ips@.len(),
            match blocked {
                Some(j) => first_blocked(ips@, i as int) == Some(j as int),
                None => first_blocked(ips@, i as int).is_none(),
            },
        decreases i,
    {
        i = i - 1;
        if is_blocked_callback_addr(ips[i]) {
            blocked = Some(i);
        }
    }
    match blocked {
        Some(j) => return Err(CallbackPolicyError::BlockedAddress(j)),
        None => {},
    }
    proof {
        reveal_strlit("https");
        reveal_strlit("http");
    }
    if str_eq(scheme, "https") {
        Ok(())
    } else if str_eq(scheme, "http") {
        let mut all = true;
        let mut k: usize = 0;
        while k < ips.len()
            invariant
                k <= ips@.len(),
                all == forall|j: int| 0 <= j < k ==> loopback_or_private_spec(#[trigger] ips@[j]),
            decreases ips@.len() - k,
        {
            if !is_loopback_or_private(ips[k]) {
                all = false;
            }
            k = k + 1;
        }
        if all {
            Ok(())
        } else {
            Err(CallbackPolicyError::HttpToPublic)
        }
    } else {
        Err(CallbackPolicyError::UnsupportedScheme)
    }
}

/// A refused address is refused whatever the scheme.
pub proof fn law_blocked_wins_over_scheme(scheme: Seq<char>, ips: Seq<IpAddress>, k: int)
    requires
        0 <= k < ips.len(),
        blocked_spec(ips[k]),
    ensures
        policy_spec(scheme, ips) is Err,
    decreases k,
{
    lemma_first_blocked_found(ips, 0, k);
}

proof fn lemma_first_blocked_found(ips: Seq<IpAddress>, i: int, k: int)
    requires
        0 <= i <= k < ips.len(),
        blocked_spec(ips[k]),
    ensures
        first_blocked(ips, i) is Some,
    decreases k - i,
{
    if i < k && !blocked_spec(ips[i]) {
        lemma_first_blocked_found(ips, i + 1, k);
    }
}

proof fn lemma_none_blocked(ips: Seq<IpAddress>, i: int)
    requires
        0 <= i <= ips.len(),
        forall|j: int| 0 <= j < ips.len() ==> !blocked_spec(#[trigger] ips[j]),
    ensures
        first_blocked(ips, i) is None,
    decreases ips.len() - i,
{
    if i < ips.len() {
        lemma_none_blocked(ips, i + 1);
    }
}

/// A target whose addresses are all loopback/private and none refused is
/// reachable over `http` and `https` alike; over any other scheme never.
pub proof fn law_private_targets_take_either_scheme(ips: Seq<IpAddress>)
    requires
        forall|j: int| 0 <= j < ips.len() ==> loopback_or_private_spec(#[trigger] ips[j]) && !blocked_spec(ips[j]),
    ensures
        policy_spec("http"@, ips) is Ok,
        policy_spec("https"@, ips) is Ok,
        forall|s: Seq<char>| s != "http"@ && s != "https"@ ==> #[trigger] policy_spec(s, ips) == Err::<(), CallbackPolicyError>(
            CallbackPolicyError::UnsupportedScheme,
        ),
{
    lemma_none_blocked(ips, 0);
    reveal_strlit("http");
    reveal_strlit("https");
}

/// A public target (some address neither loopback nor private) with no
/// refused address is reachable over `https` only: plain `http` is refused
/// as going to a public host.
pub proof fn law_public_targets_need_https(ips: Seq<IpAddress>, k: int)
    requires
        0 <= k < ips.len(),
        !loopback_or_private_spec(ips[k]),
        forall|j: int| 0 <= j < ips.len() ==> !blocked_spec(#[trigger] ips[j]),
    ensures
        policy_spec("https"@, ips) is Ok,
        policy_spec("http"@, ips) == Err::<(), CallbackPolicyError>(CallbackPolicyError::HttpToPublic),
{
    lemma_none_blocked(ips, 0);
    reveal_strlit("http");
    reveal_strlit("https");
    assert("http"@.len() != "https"@.len());
    assert(!loopback_or_private_spec(ips[k]));
    assert(!(forall|i: int| 0 <= i < ips.len() ==> loopback_or_private_spec(#[trigger] ips[i])));
}

/// The refusal names the first refused address of the resolved list.
pub proof fn law_refusal_names_the_first_blocked_address(scheme: Seq<char>, ips: Seq<IpAddress>, k: int)
    requires
        0 <= k < ips.len(),
        blocked_spec(ips[k]),
        forall|j: int| 0 <= j < k ==> !blocked_spec(#[trigger] ips[j]),
    ensures
        policy_spec(scheme, ips) == Err::<(), CallbackPolicyError>(CallbackPolicyError::BlockedAddress(k as usize)),
{
    lemma_first_blocked_at(ips, 0, k);
}

proof fn lemma_first_blocked_at(ips: Seq<IpAddress>, i: int, k: int)
    requires
        0 <= i <= k < ips.len(),
        blocked_spec(ips[k]),
        forall|j: int| 0 <= j < k ==> !blocked_spec(#[trigger] ips[j]),
    ensures
        first_blocked(ips, i) == Some(k),
    decreases k - i,
{
    if i < k {
        lemma_first_blocked_at(ips, i + 1, k);
    }
}

/// An IPv4-mapped IPv6 address (`::ffff:a.b.c.d`) is judged exactly as the
/// IPv4 address it carries, for both the private and the refused ranges;
/// and the named ranges hold whole: all of `10/8` and `127/8` are
/// loopback/private, all of `169.254/16` (cloud metadata) is refused.
pub proof fn law_mapped_addresses_are_judged_as_ipv4(a: u8, b: u8, c: u8, d: u8)
    ensures
        ({
            let v6 = IpAddress::V6(0, 0, 0, 0, 0, 0xffff, ((a as int) * 256 + (b as int)) as u16, ((c as int) * 256 + (d as int)) as u16);
            let v4 = IpAddress::V4(a, b, c, d);
            &&& loopback_or_private_spec(v6) == loopback_or_private_spec(v4)
            &&& blocked_spec(v6) == blocked_spec(v4)
        }),
        loopback_or_private_spec(IpAddress::V4(10, b, c, d)),
        loopback_or_private_spec(IpAddress::V4(127, b, c, d)),
        blocked_spec(IpAddress::V4(169, 254, c, d)),
{
    let g: int = (a as int) * 256 + (b as int);
    let h: int = (c as int) * 256 + (d as int);
    assert(g / 256 == a && g % 256 == b) by (nonlinear_arith)
        requires
            g == (a as int) * 256 + (b as int),
            0 <= b < 256,
    ;
    assert(h / 256 == c && h % 256 == d) by (nonlinear_arith)
        requires
            h == (c as int) * 256 + (d as int),
            0 <= d < 256,
    ;
    assert(g < 65536) by (nonlinear_arith)
        requires
            g == (a as int) * 256 + (b as int),
            0 <= a < 256,
            0 <= b < 256,
    ;
    assert(h < 65536) by (nonlinear_arith)
        requires
            h == (c as int) * 256 + (d as int),
            0 <= c < 256,
            0 <= d < 256,
    ;
    assert((g as u16) == g);
    assert((h as u16) == h);
}

/// Why a callback URL is refused before any address is looked at.
#[derive(Debug)]
pub enum CallbackUrlError {
    /// The URL does not parse; the parser's reason.
    Unparseable(String),
    /// The (lowercased) scheme is neither `http` nor `https`.
    UnsupportedScheme(String),
    /// The URL names no host.
    MissingHost,
}

/// Where a callback goes: the lowercased scheme, the host text and the
/// port (the URL's, else the scheme's default, else 443).
#[derive(Debug)]
pub struct CallbackTarget {
    pub scheme: String,
    pub host: String,
    pub port: u16,
}

impl CallbackUrlError {
    /// The reason as the API reports it.
    pub fn message(&self) -> (r: String)
        ensures
            r@ == match self {
                CallbackUrlError::Unparseable(e) => "unparseable url: "@ + e@,
                CallbackUrlError::UnsupportedScheme(s) => "unsupported scheme '"@ + s@
                    + "': only http/https are allowed"@,
                CallbackUrlError::MissingHost => "missing host"@,
            },
    {
        match self {
            CallbackUrlError::Unparseable(e) => String::from_str("unparseable url: ").concat(e.as_str()),
            CallbackUrlError::UnsupportedScheme(s) => String::from_str("unsupported scheme '").concat(s.as_str()).concat(
                "': only http/https are allowed",
            ),
            CallbackUrlError::MissingHost => String::from_str("missing host"),
        }
    }
}

/// Parse a callback URL into its target: refused when it does not parse,
/// when its scheme is not `http`/`https`, or when it names no host.
pub fn callback_target(url: &str) -> (r: Result<CallbackTarget, CallbackUrlError>)
    ensures
        match url_parse(url@) {
            Err(m) => r matches Err(CallbackUrlError::Unparseable(x)) && x@ == m,
            Ok((scheme, host, port)) => {
                let s = ascii_lower_spec(scheme);
                if s != "http"@ && s != "https"@ {
                    r matches Err(CallbackUrlError::UnsupportedScheme(x)) && x@ == s
                } else {
                    match host {
                        None => r matches Err(CallbackUrlError::MissingHost),
                        Some(h) => r matches Ok(t) && t.scheme@ == s && t.host@ == h && t.port == match port {
                            Some(p) => p,
                            None => 443u16,
                        },
                    }
                }
            },
        },
{
    proof {
        reveal_strlit("http");
        reveal_strlit("https");
    }
    let (scheme_raw, host, port) = match parse_url(url) {
        Err(e) => return Err(CallbackUrlError::Unparseable(e)),
        Ok(parts) => parts,
    };
    let scheme = to_ascii_lower(scheme_raw.as_str());
    if !str_eq(scheme.as_str(), "http") && !str_eq(scheme.as_str(), "https") {
        return Err(CallbackUrlError::UnsupportedScheme(scheme));
    }
    let host = match host {
        None => return Err(CallbackUrlError::MissingHost),
        Some(h) => h,
    };
    let port: u16 = match port {
        Some(p) => p,
        None => 443,
    };
    Ok(CallbackTarget { scheme, host, port })
}

} // verus!
