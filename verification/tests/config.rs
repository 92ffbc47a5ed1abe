use auth::config::{AppConfig, EnvValues};
use auth::text::{parse_unsigned_bounded, push_decimal, trim_str};

fn no_env() -> EnvValues {
    EnvValues {
        jwt_secret: None,
        host: None,
        port: None,
        rate_limit_max_requests: None,
        rate_limit_window_secs: None,
        metrics_error_threshold: None,
        log_dir: None,
        log_file: None,
        tls_cert_path: None,
        tls_key_path: None,
    }
}

#[test]
fn default_config() {
    let c = AppConfig::default();
    assert_eq!(c.jwt_secret, "dev-secret-change-me");
    assert_eq!(c.host, "127.0.0.1");
    assert_eq!(c.port, 3000);
    assert_eq!(c.rate_limit_max_requests, 60);
    assert_eq!(c.rate_limit_window_secs, 60);
    assert_eq!(c.metrics_error_threshold, 5);
    assert_eq!(c.log_dir, "logs");
    assert_eq!(c.log_file, "auth.log");
    assert!(c.tls_cert_path.is_none() && c.tls_key_path.is_none());
    assert_eq!(c.listen_addr(), "127.0.0.1:3000");
    assert_eq!(c.jwt_secret_bytes(), b"dev-secret-change-me".to_vec());
}

#[test]
fn config_from_env_values() {
    let c = AppConfig::from_env_values(no_env());
    assert_eq!(c.port, 3000);
    assert_eq!(c.log_file, "auth.log");
    let mut e = no_env();
    e.jwt_secret = Some("s3cr3t".to_string());
    e.host = Some("0.0.0.0".to_string());
    e.port = Some("+8080".to_string());
    e.rate_limit_max_requests = Some("abc".to_string());
    e.rate_limit_window_secs = Some("007".to_string());
    e.metrics_error_threshold = Some("18446744073709551616".to_string());
    e.tls_cert_path = Some("c.pem".to_string());
    let c = AppConfig::from_env_values(e);
    assert_eq!(c.jwt_secret, "s3cr3t");
    assert_eq!(c.port, 8080);
    assert_eq!(c.rate_limit_max_requests, 60);
    assert_eq!(c.rate_limit_window_secs, 7);
    assert_eq!(c.metrics_error_threshold, 5);
    assert_eq!(c.tls_cert_path.as_deref(), Some("c.pem"));
    assert_eq!(c.listen_addr(), "0.0.0.0:8080");
    let mut e = no_env();
    e.port = Some("65536".to_string());
    assert_eq!(AppConfig::from_env_values(e).port, 3000);
}

#[test]
fn jwt_secret_bytes_are_utf8() {
    let mut c = AppConfig::default();
    c.jwt_secret = "ключ".to_string();
    assert_eq!(c.jwt_secret_bytes(), "ключ".as_bytes().to_vec());
}

#[test]
fn parsing_matches_std() {
    for s in ["0", "+1", "65535", "65536", "", "+", "-1", "1a", " 1", "00012", "+0"] {
        assert_eq!(parse_unsigned_bounded(s, u16::MAX as u64), s.parse::<u16>().ok().map(|v| v as u64), "{s}");
    }
    for s in ["18446744073709551615", "18446744073709551616", "99999999999999999999999"] {
        assert_eq!(parse_unsigned_bounded(s, u64::MAX), s.parse::<u64>().ok(), "{s}");
    }
}

#[test]
fn decimal_and_trim() {
    let mut s = String::new();
    push_decimal(&mut s, 0);
    push_decimal(&mut s, 18446744073709551615);
    assert_eq!(s, "018446744073709551615");
    for t in ["  a b  ", "\u{3000}x\u{85}", "", "   ", "\tq\n"] {
        assert_eq!(trim_str(t), t.trim());
    }
}
