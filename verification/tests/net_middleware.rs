use pjson_rs::middleware::{
    accepts_compression, compression_available_header, extract_client_ip, extract_forwarded_ip,
    forwarded_entries, health_header, is_websocket_upgrade, pjs_cors_headers,
    rate_limit_headers, security_headers, validate_content, CircuitBreakerMiddleware,
    ContentValidation, ContentValidationConfig, PjsMiddleware, RateLimitConfig,
    TrustedProxyConfig, TOO_MANY_REQUESTS,
};
use pjson_rs::net::{
    accept_rate_limit_key, accept_retry, is_connection_error_kind,
    AcceptErrorKind, AcceptRetry, ConnectionLimits, IpAddress, PerClientConnections,
};
use std::time::Duration;

fn v6(s: u128) -> IpAddress {
    IpAddress::V6(s)
}

// --- per-IP connection key ---

#[test]
fn ipv4_addresses_pass_through_unmasked() {
    let ip = IpAddress::v4(203, 0, 113, 7);
    assert_eq!(accept_rate_limit_key(ip), ip);
}

#[test]
fn ipv6_addresses_sharing_a_64_prefix_mask_to_the_same_key() {
    let a = v6(0x2001_0db8_1234_5678_aaaa_bbbb_cccc_dddd);
    let b = v6(0x2001_0db8_1234_5678_1111_2222_3333_4444);
    assert_eq!(accept_rate_limit_key(a), accept_rate_limit_key(b));
}

#[test]
fn ipv6_addresses_with_different_64_prefixes_mask_to_different_keys() {
    let a = v6(0x2001_0db8_1234_5678_0000_0000_0000_0001);
    let b = v6(0x2001_0db8_1234_5679_0000_0000_0000_0001);
    assert_ne!(accept_rate_limit_key(a), accept_rate_limit_key(b));
}

#[test]
fn masked_ipv6_key_zeroes_exactly_the_low_64_bits() {
    let ip = v6(0x2001_0db8_1234_5678_ffff_ffff_ffff_ffff);
    let expected = v6(0x2001_0db8_1234_5678_0000_0000_0000_0000);
    assert_eq!(accept_rate_limit_key(ip), expected);
}

#[test]
fn ipv4_mapped_ipv6_addresses_are_not_collapsed_into_one_key() {
    let a = v6(0xffff_cb00_7107);
    let b = v6(0xffff_c633_6463);
    assert_ne!(
        accept_rate_limit_key(a),
        accept_rate_limit_key(b),
        "distinct IPv4-mapped addresses must not share a per-IP rate-limit key"
    );
}

#[test]
fn ipv4_mapped_ipv6_address_keys_like_its_ipv4_form() {
    let mapped = v6(0xffff_cb00_7107);
    let plain = IpAddress::v4(203, 0, 113, 7);
    assert_ne!(accept_rate_limit_key(mapped), accept_rate_limit_key(v6(0)));
    assert_eq!(accept_rate_limit_key(mapped), accept_rate_limit_key(plain));
}

#[test]
fn loopback_v6_keeps_its_own_key_and_keys_are_idempotent() {
    assert_eq!(accept_rate_limit_key(v6(1)), v6(1));
    for ip in [
        v6(1),
        v6(0xffff_0a00_0001),
        v6(0x2001_0db8_0000_0000_dead_beef_0000_0001),
        IpAddress::v4(10, 0, 0, 1),
    ] {
        let k = accept_rate_limit_key(ip);
        assert_eq!(accept_rate_limit_key(k), k);
    }
}

#[test]
fn canonical_form_unmaps_ipv4_mapped_addresses() {
    assert_eq!(v6(0xffff_7f00_0001).to_canonical(), IpAddress::v4(127, 0, 0, 1));
    assert_eq!(v6(1).to_canonical(), v6(1));
    assert_eq!(IpAddress::v4(1, 2, 3, 4), IpAddress::V4(0x0102_0304));
}

#[test]
fn accept_errors_are_classified() {
    assert!(is_connection_error_kind(AcceptErrorKind::ConnectionReset));
    assert!(is_connection_error_kind(AcceptErrorKind::ConnectionAborted));
    assert!(is_connection_error_kind(AcceptErrorKind::ConnectionRefused));
    assert!(!is_connection_error_kind(AcceptErrorKind::Other));
    assert_eq!(accept_retry(AcceptErrorKind::ConnectionReset), AcceptRetry::Immediately);
    assert_eq!(accept_retry(AcceptErrorKind::Other), AcceptRetry::AfterBackoff(1));
}

#[test]
fn connection_limits_default() {
    let l = ConnectionLimits::default();
    assert_eq!(l.header_read_timeout, Some(Duration::from_secs(10)));
    assert_eq!(l.max_connection_duration, Some(Duration::from_secs(300)));
    assert_eq!(l.max_connections, 1024);
    assert_eq!(l.max_concurrent_streams, Some(128));
    assert_eq!(l.max_connections_per_ip, Some(64));
}

// --- middleware configuration ---

#[test]
fn test_pjs_middleware_builder() {
    let middleware = PjsMiddleware::new()
        .with_compression(true)
        .with_metrics(true)
        .with_max_request_size(5 * 1024 * 1024);
    assert!(middleware.enable_compression);
    assert!(middleware.enable_metrics);
    assert_eq!(middleware.max_request_size, 5 * 1024 * 1024);
}

#[test]
fn pjs_middleware_rejects_oversized_requests_only() {
    let m = PjsMiddleware::new().with_max_request_size(100);
    assert!(m.rejects_request_size(Some(b"101".as_slice())));
    assert!(!m.rejects_request_size(Some(b"100".as_slice())));
    assert!(!m.rejects_request_size(Some(b"abc".as_slice())));
    assert!(!m.rejects_request_size(None));
}

#[test]
fn pjs_middleware_response_headers() {
    let m = PjsMiddleware::new().with_metrics(true);
    let h = m.response_headers(42);
    assert!(h.contains(&("X-PJS-Version".to_string(), "0.4.0".to_string())));
    assert!(h.contains(&("X-PJS-Duration-Ms".to_string(), "42".to_string())));
    let quiet = PjsMiddleware::new().with_metrics(false).with_compression(false);
    let h = quiet.response_headers(42);
    assert!(!h.iter().any(|(k, _)| k == "X-PJS-Duration-Ms"));
}

#[test]
fn test_rate_limit_config_default() {
    let config = RateLimitConfig::default();
    assert_eq!(config.max_requests_per_window, 100);
    assert_eq!(config.window_duration, Duration::from_secs(60));
}

#[test]
fn test_rate_limit_config_new() {
    let config = RateLimitConfig::new(50);
    assert_eq!(config.max_requests_per_window, 50);
}

#[test]
fn test_rate_limit_config_with_window() {
    let config = RateLimitConfig::new(100).with_window(Duration::from_secs(30));
    assert_eq!(config.window_duration, Duration::from_secs(30));
}

#[test]
fn test_content_validation_config_default() {
    let config = ContentValidationConfig::default();
    assert_eq!(config.max_content_length, 10 * 1024 * 1024);
    assert_eq!(config.allowed_content_types.len(), 2);
    assert!(config.require_content_type);
}

#[test]
fn content_validation_outcomes() {
    let c = ContentValidationConfig::default();
    assert_eq!(
        validate_content(&c, "POST", Some(b"10".as_slice()), Some(b"application/json; charset=utf-8".as_slice())),
        ContentValidation::Accept
    );
    assert_eq!(
        validate_content(&c, "POST", Some(b"99999999999".as_slice()), None),
        ContentValidation::PayloadTooLarge {
            max_size: 10 * 1024 * 1024,
            received_size: 99999999999
        }
    );
    assert_eq!(
        validate_content(&c, "GET", Some(b"ten".as_slice()), None),
        ContentValidation::InvalidContentLength
    );
    assert_eq!(
        validate_content(&c, "PUT", None, None),
        ContentValidation::MissingContentType
    );
    assert_eq!(validate_content(&c, "GET", None, None), ContentValidation::Accept);
    assert_eq!(
        validate_content(&c, "PATCH", None, Some(b"text/html".as_slice())),
        ContentValidation::UnsupportedMediaType {
            received: "text/html".to_string()
        }
    );
    assert_eq!(
        validate_content(&c, "POST", None, Some(b" Application/JSON ".as_slice())),
        ContentValidation::Accept
    );
    assert_eq!(ContentValidation::MissingContentType.status(), 415);
    assert_eq!(ContentValidation::InvalidContentLength.status(), 400);
}

#[test]
fn websocket_and_compression_headers() {
    assert!(is_websocket_upgrade(Some(b"websocket".as_slice())));
    assert!(is_websocket_upgrade(Some(b"WebSocket".as_slice())));
    assert!(!is_websocket_upgrade(Some(b"h2c".as_slice())));
    assert!(!is_websocket_upgrade(None));
    assert!(accepts_compression(Some(b"gzip, deflate".as_slice())));
    assert!(!accepts_compression(Some(b"identity".as_slice())));
    assert!(!accepts_compression(None));
    assert_eq!(
        compression_available_header(),
        ("X-PJS-Compression-Available".to_string(), "gzip,deflate".to_string())
    );
    assert_eq!(health_header(), ("X-PJS-Health".to_string(), "healthy".to_string()));
}

#[test]
fn cors_and_security_header_sets() {
    let cors = pjs_cors_headers();
    assert_eq!(cors[0], ("access-control-allow-origin".to_string(), "*".to_string()));
    assert_eq!(cors.len(), 4);
    let sec = security_headers();
    assert!(sec.contains(&("X-Frame-Options".to_string(), "DENY".to_string())));
    assert!(sec.contains(&("X-Content-Type-Options".to_string(), "nosniff".to_string())));
}

#[test]
fn circuit_breaker_defaults_and_builders() {
    let c = CircuitBreakerMiddleware::new();
    assert_eq!(c.failure_threshold, 5);
    assert_eq!(c.recovery_timeout_seconds, 30);
    let c = c.with_failure_threshold(9).with_recovery_timeout(3);
    assert_eq!(c.failure_threshold, 9);
    assert_eq!(c.recovery_timeout_seconds, 3);
}

// --- client address for rate limiting ---

#[test]
fn untrusted_peer_is_keyed_on_itself() {
    let peer = IpAddress::v4(198, 51, 100, 1);
    let forwarded = [Some(IpAddress::v4(1, 2, 3, 4))];
    assert_eq!(extract_client_ip(Some(peer), None, &forwarded, None), peer);
    let proxies = TrustedProxyConfig::new(vec![IpAddress::v4(10, 0, 0, 1)]);
    assert_eq!(
        extract_client_ip(Some(peer), Some(&proxies), &forwarded, None),
        peer
    );
}

#[test]
fn trusted_proxy_forwards_the_rightmost_untrusted_address() {
    let proxy = IpAddress::v4(10, 0, 0, 1);
    let proxies = TrustedProxyConfig::new(vec![proxy, IpAddress::v4(10, 0, 0, 2)]);
    let chain = [
        Some(IpAddress::v4(1, 1, 1, 1)),
        Some(IpAddress::v4(2, 2, 2, 2)),
        Some(IpAddress::v4(10, 0, 0, 2)),
    ];
    assert_eq!(
        extract_client_ip(Some(proxy), Some(&proxies), &chain, None),
        IpAddress::v4(2, 2, 2, 2)
    );
    let only_proxies = [Some(IpAddress::v4(10, 0, 0, 2))];
    assert_eq!(
        extract_forwarded_ip(&only_proxies, Some(IpAddress::v4(5, 5, 5, 5)), &proxies),
        Some(IpAddress::v4(5, 5, 5, 5))
    );
    assert_eq!(extract_forwarded_ip(&only_proxies, None, &proxies), None);
    assert_eq!(
        extract_client_ip(Some(proxy), Some(&proxies), &[None], None),
        proxy
    );
}

#[test]
fn no_peer_shares_the_localhost_key() {
    assert_eq!(
        extract_client_ip(None, None, &[], None),
        IpAddress::v4(127, 0, 0, 1)
    );
}

#[test]
fn forwarded_header_entries_are_split_and_trimmed() {
    let lines: [&[u8]; 2] = [b"1.1.1.1, 2.2.2.2", b" 3.3.3.3 "];
    let entries = forwarded_entries(&lines);
    let texts: Vec<String> = entries.iter().map(|e| e.iter().collect()).collect();
    assert_eq!(texts, vec!["1.1.1.1", "2.2.2.2", "3.3.3.3"]);
}

#[test]
fn rate_limit_response_headers() {
    assert_eq!(TOO_MANY_REQUESTS, 429);
    let h = rate_limit_headers(100, 99, Some(1000));
    assert_eq!(
        h,
        vec![
            ("X-RateLimit-Limit".to_string(), "100".to_string()),
            ("X-RateLimit-Remaining".to_string(), "99".to_string()),
            ("X-RateLimit-Reset".to_string(), "1060".to_string()),
        ]
    );
    assert_eq!(
        rate_limit_headers(5, 0, None),
        vec![
            ("X-RateLimit-Limit".to_string(), "5".to_string()),
            ("X-RateLimit-Remaining".to_string(), "0".to_string()),
        ]
    );
}

#[test]
fn trusted_proxy_config_compares_canonical_forms() {
    let proxies = TrustedProxyConfig::new(vec![IpAddress::v4(10, 0, 0, 1)]);
    assert!(proxies.contains(IpAddress::v4(10, 0, 0, 1)));
    assert!(!proxies.contains(IpAddress::v4(10, 0, 0, 2)));
    let with = RateLimitConfig::new(10).with_trusted_proxies(proxies);
    assert!(with.trusted_proxies.is_some());
}

#[test]
fn per_client_cap_refuses_over_the_limit() {
    let mut table = PerClientConnections::new(2);
    let a = IpAddress::V4(0x0a00_0001);
    let b = IpAddress::V4(0x0a00_0002);
    assert!(table.try_acquire(a));
    assert!(table.try_acquire(a));
    assert!(!table.try_acquire(a));
    assert_eq!(table.open_connections(a), 2);
    assert!(table.try_acquire(b));
    assert_eq!(table.open_connections(b), 1);
    table.release(a);
    assert_eq!(table.open_connections(a), 1);
    assert!(table.try_acquire(a));
    assert!(!table.try_acquire(a));
}

#[test]
fn per_client_release_undoes_acquire() {
    let mut table = PerClientConnections::new(64);
    let a = IpAddress::V6(0x2001_0db8_0000_0000_0000_0000_0000_0000);
    assert!(table.try_acquire(a));
    assert_eq!(table.open_connections(a), 1);
    table.release(a);
    assert_eq!(table.open_connections(a), 0);
    table.release(a);
    assert_eq!(table.open_connections(a), 0);
    let mut closed = PerClientConnections::new(0);
    assert!(!closed.try_acquire(a));
    assert_eq!(closed.open_connections(a), 0);
}
