use review_engine::callback::{callback_target, CallbackUrlError};
use review_engine::callback::{
    is_blocked_callback_addr, is_loopback_or_private, normalize_ip, validate_scheme_and_ips, CallbackPolicyError,
    IpAddress,
};

fn v4_octets(text: &str) -> Option<[u8; 4]> {
    let parts: Vec<&str> = text.split('.').collect();
    if parts.len() != 4 {
        return None;
    }
    let mut out = [0u8; 4];
    for (i, p) in parts.iter().enumerate() {
        out[i] = p.parse().ok()?;
    }
    Some(out)
}

/// The 16-bit groups of one side of an IPv6 address (a trailing dotted
/// quad counts as two groups).
fn v6_groups(text: &str) -> Vec<u16> {
    let mut out = Vec::new();
    if text.is_empty() {
        return out;
    }
    for part in text.split(':') {
        if let Some([a, b, c, d]) = v4_octets(part) {
            out.push(u16::from(a) << 8 | u16::from(b));
            out.push(u16::from(c) << 8 | u16::from(d));
        } else {
            out.push(u16::from_str_radix(part, 16).unwrap());
        }
    }
    out
}

/// A textual test address as the library's value.
fn ip(text: &str) -> IpAddress {
    if let Some([a, b, c, d]) = v4_octets(text) {
        return IpAddress::V4(a, b, c, d);
    }
    let (head, tail) = match text.split_once("::") {
        Some((h, t)) => (v6_groups(h), v6_groups(t)),
        None => (v6_groups(text), Vec::new()),
    };
    let mut s = head.clone();
    s.resize(8 - tail.len(), 0);
    s.extend(tail);
    assert_eq!(s.len(), 8, "bad test address {text}");
    IpAddress::V6(s[0], s[1], s[2], s[3], s[4], s[5], s[6], s[7])
}

#[test]
fn loopback_private_predicate_table() {
    let ok = [
        "127.0.0.1",
        "127.0.1.9",
        "10.0.0.1",
        "10.255.255.254",
        "172.16.0.1",
        "172.31.255.254",
        "192.168.0.1",
        "::1",
        "fc00::1",
        "fd00::1",
        // IPv4-mapped IPv6 must be unwrapped before the checks.
        "::ffff:127.0.0.1",
        "::ffff:10.1.2.3",
    ];
    for a in ok {
        assert!(is_loopback_or_private(ip(a)), "{a} must be loopback/private");
    }
    let not = ["93.184.216.34", "8.8.8.8", "172.15.0.1", "172.32.0.1", "11.0.0.1", "2606:4700::1"];
    for a in not {
        assert!(!is_loopback_or_private(ip(a)), "{a} must not be loopback/private");
    }
}

#[test]
fn blocked_addr_predicate_table() {
    let blocked = [
        "169.254.169.254",
        "169.254.0.1",
        "0.0.0.0",
        "0.1.2.3",
        "fe80::1",
        "fe80::dead:beef",
        "::",
        "255.255.255.255",
        "224.0.0.1",
        "ff02::1",
        // IPv4-mapped forms of the above.
        "::ffff:169.254.169.254",
        "::ffff:0.0.0.0",
    ];
    for a in blocked {
        assert!(is_blocked_callback_addr(ip(a)), "{a} must be blocked");
    }
    let allowed = ["93.184.216.34", "127.0.0.1", "10.0.0.1", "::1", "2606:4700::1"];
    for a in allowed {
        assert!(!is_blocked_callback_addr(ip(a)), "{a} must not be blocked");
    }
}

#[test]
fn policy_table() {
    let public = ip("93.184.216.34");
    let loopback = ip("127.0.0.1");
    let private = ip("192.168.1.10");
    let metadata = ip("169.254.169.254");

    // https public ok; http public rejected.
    assert!(validate_scheme_and_ips("https", &vec![public]).is_ok());
    assert!(validate_scheme_and_ips("http", &vec![public]).is_err());
    // http loopback / private ok.
    assert!(validate_scheme_and_ips("http", &vec![loopback]).is_ok());
    assert!(validate_scheme_and_ips("http", &vec![private]).is_ok());
    // https to loopback/private is fine too.
    assert!(validate_scheme_and_ips("https", &vec![loopback]).is_ok());
    assert!(validate_scheme_and_ips("https", &vec![private]).is_ok());
    // Metadata/link-local blocked under both schemes.
    assert!(validate_scheme_and_ips("https", &vec![metadata]).is_err());
    assert!(validate_scheme_and_ips("http", &vec![metadata]).is_err());
    // One blocked address among several good ones fails the whole set.
    assert!(validate_scheme_and_ips("https", &vec![public, metadata]).is_err());
    // http requires all resolved addresses loopback/private.
    assert!(validate_scheme_and_ips("http", &vec![loopback, private]).is_ok());
    assert!(validate_scheme_and_ips("http", &vec![loopback, public]).is_err());
    // Non-http(s) schemes rejected outright.
    assert!(validate_scheme_and_ips("ftp", &vec![loopback]).is_err());
    assert!(validate_scheme_and_ips("gopher", &vec![loopback]).is_err());
}

#[test]
fn policy_errors_name_their_cause() {
    let public = ip("93.184.216.34");
    let metadata = ip("169.254.169.254");
    assert_eq!(
        validate_scheme_and_ips("https", &vec![public, metadata]),
        Err(CallbackPolicyError::BlockedAddress(1))
    );
    // A blocked address is reported even under an unsupported scheme.
    assert_eq!(validate_scheme_and_ips("ftp", &vec![metadata]), Err(CallbackPolicyError::BlockedAddress(0)));
    assert_eq!(validate_scheme_and_ips("http", &vec![public]), Err(CallbackPolicyError::HttpToPublic));
    assert_eq!(validate_scheme_and_ips("ftp", &vec![public]), Err(CallbackPolicyError::UnsupportedScheme));
}

#[test]
fn mapped_addresses_normalize_to_ipv4() {
    assert_eq!(normalize_ip(ip("::ffff:10.1.2.3")), IpAddress::V4(10, 1, 2, 3));
    assert_eq!(normalize_ip(ip("2606:4700::1")), ip("2606:4700::1"));
    assert_eq!(normalize_ip(IpAddress::V4(1, 2, 3, 4)), IpAddress::V4(1, 2, 3, 4));
}

#[test]
fn callback_urls_must_parse_use_http_or_https_and_name_a_host() {
    match callback_target("not a url") {
        Err(e @ CallbackUrlError::Unparseable(_)) => assert!(e.message().starts_with("unparseable url: ")),
        other => panic!("expected an unparseable url, got {other:?}"),
    }
    match callback_target("ftp://files.example.com/drop") {
        Err(e @ CallbackUrlError::UnsupportedScheme(_)) => {
            assert_eq!(e.message(), "unsupported scheme 'ftp': only http/https are allowed")
        }
        other => panic!("expected an unsupported scheme, got {other:?}"),
    }
    let t = callback_target("HTTPS://Hooks.Example.com/review").unwrap();
    assert_eq!((t.scheme.as_str(), t.host.as_str(), t.port), ("https", "hooks.example.com", 443));
    let t = callback_target("http://10.0.0.1:8080/cb").unwrap();
    assert_eq!((t.scheme.as_str(), t.host.as_str(), t.port), ("http", "10.0.0.1", 8080));
    let t = callback_target("http://[::1]/cb").unwrap();
    assert_eq!((t.host.as_str(), t.port), ("[::1]", 80));
    assert_eq!(CallbackUrlError::MissingHost.message(), "missing host");
}
