use mailpeter::errors::ConfigError;
use mailpeter::ip::{
    ip_text, parse_ip_or_socket, parse_ipv4, trusted_proxy_key, AdmissionError, IpExtractor, IpKey,
};
use mailpeter::rate_limiter::RateLimiter;

const PROXY: IpKey = IpKey::V4(203, 0, 113, 9);
const CLIENT: IpKey = IpKey::V4(198, 51, 100, 7);

#[test]
fn parse_ipv4_accepts_dotted_quad() {
    assert_eq!(parse_ipv4("1.2.3.4"), Some(IpKey::V4(1, 2, 3, 4)));
    assert_eq!(parse_ipv4("0.0.0.0"), Some(IpKey::V4(0, 0, 0, 0)));
    assert_eq!(parse_ipv4("255.255.255.255"), Some(IpKey::V4(255, 255, 255, 255)));
}

#[test]
fn parse_ipv4_rejects_malformed_text() {
    assert_eq!(parse_ipv4("256.1.1.1"), None);
    assert_eq!(parse_ipv4("01.2.3.4"), None);
    assert_eq!(parse_ipv4("1.2.3"), None);
    assert_eq!(parse_ipv4("1.2.3.4.5"), None);
    assert_eq!(parse_ipv4("a.b.c.d"), None);
    assert_eq!(parse_ipv4(""), None);
}

#[test]
fn parse_socket_form_drops_the_port() {
    assert_eq!(parse_ip_or_socket("1.2.3.4:8080"), Some(IpKey::V4(1, 2, 3, 4)));
    assert_eq!(parse_ip_or_socket("1.2.3.4"), Some(IpKey::V4(1, 2, 3, 4)));
    assert_eq!(parse_ip_or_socket("1.2.3.4:99999"), None);
    assert_eq!(parse_ip_or_socket("1.2.3.4:"), None);
}

#[test]
fn extract_trusts_forwarded_header_only_behind_proxy() {
    let ex = IpExtractor;
    // behind the trusted proxy the forwarded address keys the client
    let via_proxy = ex.extract(
        &PROXY,
        &Some(PROXY),
        &Some("198.51.100.7".to_string()),
        &Some("203.0.113.9:33000".to_string()),
    );
    assert_eq!(via_proxy, Ok(CLIENT));
    // the same client arriving directly is keyed by its peer address,
    // and a spoofed forwarded header carries no weight
    let direct = ex.extract(
        &PROXY,
        &Some(CLIENT),
        &Some("10.0.0.1".to_string()),
        &Some("198.51.100.7:45128".to_string()),
    );
    assert_eq!(direct, Ok(CLIENT));
}

#[test]
fn extract_rejects_when_no_key_can_be_found() {
    let ex = IpExtractor;
    let missing_header = ex.extract(&PROXY, &Some(PROXY), &None, &Some("x".to_string()));
    assert_eq!(missing_header, Err(AdmissionError::RealIpUnavailable));
    let bad_peer = ex.extract(&PROXY, &Some(CLIENT), &None, &Some("not an ip".to_string()));
    assert_eq!(bad_peer, Err(AdmissionError::PeerIpUnavailable));
    let no_peer_text = ex.extract(&PROXY, &None, &None, &None);
    assert_eq!(no_peer_text, Err(AdmissionError::PeerIpUnavailable));
}

#[test]
fn unparsable_proxy_address_is_fatal_at_startup() {
    assert_eq!(trusted_proxy_key("203.0.113.9"), Ok(PROXY));
    assert_eq!(
        trusted_proxy_key("::1"),
        Ok(IpKey::V6(0, 0, 0, 0, 0, 0, 0, 1))
    );
    assert_eq!(trusted_proxy_key("not an ip"), Err(ConfigError::BadProxyIp));
}

#[test]
fn parse_hex_group_addresses() {
    assert_eq!(
        parse_ip_or_socket("::1"),
        Some(IpKey::V6(0, 0, 0, 0, 0, 0, 0, 1))
    );
    assert_eq!(
        parse_ip_or_socket("::"),
        Some(IpKey::V6(0, 0, 0, 0, 0, 0, 0, 0))
    );
    assert_eq!(
        parse_ip_or_socket("1::"),
        Some(IpKey::V6(1, 0, 0, 0, 0, 0, 0, 0))
    );
    assert_eq!(
        parse_ip_or_socket("2001:db8::8a2e:370:7334"),
        Some(IpKey::V6(0x2001, 0xdb8, 0, 0, 0, 0x8a2e, 0x370, 0x7334))
    );
    assert_eq!(
        parse_ip_or_socket("1:2:3:4:5:6:7:8"),
        Some(IpKey::V6(1, 2, 3, 4, 5, 6, 7, 8))
    );
    assert_eq!(
        parse_ip_or_socket("A:B:C:D:E:F:10:11"),
        Some(IpKey::V6(0xa, 0xb, 0xc, 0xd, 0xe, 0xf, 0x10, 0x11))
    );
}

#[test]
fn parse_embedded_dotted_quad_tail() {
    assert_eq!(
        parse_ip_or_socket("::ffff:192.0.2.1"),
        Some(IpKey::V6(0, 0, 0, 0, 0, 0xffff, 0xc000, 0x0201))
    );
    assert_eq!(
        parse_ip_or_socket("1:2:3:4:5:6:192.0.2.1"),
        Some(IpKey::V6(1, 2, 3, 4, 5, 6, 0xc000, 0x0201))
    );
}

#[test]
fn reject_malformed_hex_group_addresses() {
    assert_eq!(parse_ip_or_socket(":::"), None);
    assert_eq!(parse_ip_or_socket("1::2::3"), None);
    assert_eq!(parse_ip_or_socket("1:2:3:4:5:6:7"), None);
    assert_eq!(parse_ip_or_socket("1:2:3:4:5:6:7:8:9"), None);
    assert_eq!(parse_ip_or_socket("1:2:3:4:5:6:7:8::"), None);
    assert_eq!(parse_ip_or_socket("12345::"), None);
    assert_eq!(parse_ip_or_socket("g::1"), None);
    assert_eq!(parse_ip_or_socket("fe80::1%3"), None);
}

#[test]
fn bracketed_socket_form_carries_the_address() {
    assert_eq!(
        parse_ip_or_socket("[::1]:8080"),
        Some(IpKey::V6(0, 0, 0, 0, 0, 0, 0, 1))
    );
    assert_eq!(
        parse_ip_or_socket("[2001:db8::1]:443"),
        Some(IpKey::V6(0x2001, 0xdb8, 0, 0, 0, 0, 0, 1))
    );
    // a numeric zone is accepted and never reaches the key
    assert_eq!(
        parse_ip_or_socket("[fe80::1%3]:80"),
        Some(IpKey::V6(0xfe80, 0, 0, 0, 0, 0, 0, 1))
    );
    assert_eq!(parse_ip_or_socket("[::1]"), None);
    assert_eq!(parse_ip_or_socket("[::1]:"), None);
    assert_eq!(parse_ip_or_socket("[::1]:99999"), None);
    assert_eq!(parse_ip_or_socket("[fe80::1%x]:80"), None);
}

#[test]
fn extract_keys_hex_group_clients_on_both_paths() {
    let ex = IpExtractor;
    let v6_client = IpKey::V6(0x2001, 0xdb8, 0, 0, 0, 0, 0, 7);
    // behind the proxy, a forwarded hex-groups address keys the client
    let via_proxy = ex.extract(
        &PROXY,
        &Some(PROXY),
        &Some("2001:db8::7".to_string()),
        &Some("203.0.113.9:33000".to_string()),
    );
    assert_eq!(via_proxy, Ok(v6_client));
    // a direct peer is keyed from its socket text, bare or bracketed
    let direct_bare = ex.extract(&PROXY, &Some(v6_client), &None, &Some("2001:db8::7".to_string()));
    assert_eq!(direct_bare, Ok(v6_client));
    let direct_socket = ex.extract(
        &PROXY,
        &Some(v6_client),
        &None,
        &Some("[2001:db8::7]:45128".to_string()),
    );
    assert_eq!(direct_socket, Ok(v6_client));
}

#[test]
fn admission_error_messages() {
    assert_eq!(
        AdmissionError::RealIpUnavailable.message(),
        "Could not extract real IP address from request"
    );
    assert_eq!(
        AdmissionError::PeerIpUnavailable.message(),
        "Could not extract peer IP address from request"
    );
}

#[test]
fn rate_limit_body_is_fixed() {
    assert_eq!(IpExtractor.exceed_rate_limit_body(), "Too many requests");
    assert_eq!(IpExtractor.name(), "real IP");
}

#[test]
fn key_name_renders_addresses() {
    assert_eq!(ip_text(&IpKey::V4(198, 51, 100, 7)), "198.51.100.7");
    assert_eq!(
        ip_text(&IpKey::V6(0x2001, 0xdb8, 0, 0, 0, 0, 0, 1)),
        "2001:db8:0:0:0:0:0:1"
    );
    assert_eq!(
        IpExtractor.key_name(&IpKey::V4(1, 2, 3, 4)),
        Some("1.2.3.4".to_string())
    );
}

#[test]
fn one_request_per_two_seconds_window() {
    let mut limiter = RateLimiter::new(2);
    assert!(limiter.acquire(CLIENT, 0));
    // a second request within the window is rejected
    assert!(!limiter.acquire(CLIENT, 1));
    // after the refill interval the next request passes
    assert!(limiter.acquire(CLIENT, 2));
    assert!(!limiter.acquire(CLIENT, 3));
}

#[test]
fn distinct_keys_hold_distinct_buckets() {
    let mut limiter = RateLimiter::new(10);
    assert!(limiter.acquire(CLIENT, 0));
    assert!(limiter.acquire(PROXY, 0));
    assert!(!limiter.acquire(CLIENT, 5));
    assert!(!limiter.acquire(PROXY, 5));
}

#[test]
fn zero_interval_disables_limiting() {
    let mut limiter = RateLimiter::new(0);
    for now in 0..5u64 {
        assert!(limiter.acquire(CLIENT, now));
    }
    assert_eq!(limiter.entries.len(), 0);
}

#[test]
fn sweep_reclaims_only_refilled_buckets() {
    let mut limiter = RateLimiter::new(10);
    assert!(limiter.acquire(CLIENT, 0));
    assert!(limiter.acquire(PROXY, 8));
    // at 12 the first bucket has refilled, the second is still throttling
    limiter.sweep(12);
    assert_eq!(limiter.entries.len(), 1);
    assert!(!limiter.acquire(PROXY, 12));
    assert!(limiter.acquire(CLIENT, 12));
}
