use std::time::Duration;
use auth::monitoring::{
    client_key, is_auth_path, is_error_status, is_rate_limit_exempt, security_headers, HeaderField,
    RateLimiter,
};

#[test]
fn rate_limiter_blocks_after_limit() {
    let mut limiter = RateLimiter::new(2, Duration::from_secs(60).as_nanos());
    assert!(limiter.allow("1.1.1.1"));
    assert!(limiter.allow("1.1.1.1"));
    assert!(!limiter.allow("1.1.1.1"));
}

#[test]
fn rate_limiter_keys_are_independent() {
    let mut limiter = RateLimiter::new(1, Duration::from_secs(60).as_nanos());
    assert!(limiter.allow("a"));
    assert!(!limiter.allow("a"));
    assert!(limiter.allow("b"));
}

#[test]
fn rate_limiter_window_expires() {
    let mut limiter = RateLimiter::new(2, Duration::from_secs(1).as_nanos());
    let sec: u128 = 1_000_000_000;
    assert!(limiter.allow_at("k", 0));
    assert!(limiter.allow_at("k", 10));
    assert!(!limiter.allow_at("k", sec));
    // exactly one window later the first request still counts
    assert!(!limiter.allow_at("k", sec));
    // more than a window after the first request it has expired
    assert!(limiter.allow_at("k", sec + 1));
    assert!(!limiter.allow_at("k", sec + 5));
    assert!(limiter.allow_at("k", sec + 11));
}

#[test]
fn rate_limiter_sub_second_window() {
    let mut limiter = RateLimiter::new(1, Duration::from_millis(500).as_nanos());
    assert!(limiter.allow_at("k", 0));
    assert!(!limiter.allow_at("k", 500_000_000));
    assert!(limiter.allow_at("k", 500_000_001));
}

#[test]
fn rate_limiter_zero_allowance_blocks_everything() {
    let mut limiter = RateLimiter::new(0, Duration::from_secs(60).as_nanos());
    assert!(!limiter.allow("x"));
    assert!(!limiter.allow_at("x", 1));
}

#[test]
fn rate_limiter_exempt_paths_pass() {
    let mut limiter = RateLimiter::new(1, Duration::from_secs(60).as_nanos());
    assert!(limiter.check_request("/health", "k"));
    assert!(limiter.check_request("/", "k"));
    assert!(limiter.check_request("/login", "k"));
    assert!(!limiter.check_request("/login", "k"));
    assert!(limiter.check_request("/health", "k"));
}

#[test]
fn client_key_includes_ip_and_user_agent() {
    let forwarded = HeaderField::Text("203.0.113.8".to_string());
    let agent = HeaderField::Text("curl/8.0".to_string());
    assert_eq!(client_key(&forwarded, &agent), "203.0.113.8|curl/8.0");
}

#[test]
fn client_key_uses_first_forwarded_address_and_defaults() {
    let forwarded = HeaderField::Text(" 10.0.0.1 , 10.0.0.2".to_string());
    assert_eq!(client_key(&forwarded, &HeaderField::Absent), "10.0.0.1|unknown");
    assert_eq!(client_key(&HeaderField::Opaque, &HeaderField::Text("  ua ".to_string())), "unknown|ua");
    assert_eq!(client_key(&HeaderField::Text(",x".to_string()), &HeaderField::Absent), "|unknown");
}

#[test]
fn request_classification() {
    assert!(is_auth_path("/login"));
    assert!(is_auth_path("/register/x"));
    assert!(is_auth_path("/me"));
    assert!(is_auth_path("/me/"));
    // an endpoint counts only as the whole path or before a '/'
    assert!(!is_auth_path("/metrics"));
    assert!(!is_auth_path("/loginx"));
    assert!(!is_auth_path("/melon"));
    assert!(is_auth_path("/health") == false);
    assert!(is_rate_limit_exempt("/health"));
    assert!(is_rate_limit_exempt("/"));
    assert!(!is_rate_limit_exempt("/health/"));
    assert!(is_error_status(400));
    assert!(is_error_status(599));
    assert!(!is_error_status(302));
    assert!(!is_error_status(600));
}

#[test]
fn security_headers_list() {
    let h = security_headers();
    assert_eq!(h.len(), 4);
    assert_eq!(h[0], ("x-content-type-options".to_string(), "nosniff".to_string()));
    assert_eq!(h[1], ("x-frame-options".to_string(), "DENY".to_string()));
    assert_eq!(h[2], ("referrer-policy".to_string(), "no-referrer".to_string()));
    assert_eq!(
        h[3],
        ("permissions-policy".to_string(), "geolocation=(), microphone=(), camera=()".to_string())
    );
}
