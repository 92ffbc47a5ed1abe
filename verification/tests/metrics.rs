use auth::metrics::MetricsStore;

#[test]
fn metrics_store_renders_prometheus_exposition() {
    let mut metrics = MetricsStore::new_with_threshold(2);
    metrics.increment_requests();
    metrics.increment_requests();
    metrics.increment_errors();

    let rendered = metrics.render();
    assert!(rendered.contains("# HELP auth_requests_total"));
    assert!(rendered.contains("auth_requests_total"));
    assert!(rendered.contains("auth_errors_total"));
}

#[test]
fn metrics_render_is_exact() {
    let mut metrics = MetricsStore::new_with_threshold(2);
    metrics.increment_requests();
    metrics.increment_requests();
    metrics.increment_auth_requests();
    metrics.increment_errors();
    let expected = "# HELP auth_requests_total Total number of handled requests\n# TYPE auth_requests_total counter\nauth_requests_total 2\n# HELP auth_auth_requests_total Total number of auth requests\n# TYPE auth_auth_requests_total counter\nauth_auth_requests_total 1\n# HELP auth_errors_total Total number of client/server errors\n# TYPE auth_errors_total counter\nauth_errors_total 1\n# HELP auth_alerts_total Total number of alert events\n# TYPE auth_alerts_total counter\nauth_alerts_total 0\n";
    assert_eq!(metrics.render(), expected);
}

#[test]
fn metrics_alert_once_threshold_reached() {
    let mut metrics = MetricsStore::new_with_threshold(3);
    metrics.increment_errors();
    metrics.increment_errors();
    assert!(!metrics.maybe_alert());
    assert_eq!(metrics.alerts_total(), 0);
    metrics.increment_errors();
    assert!(metrics.maybe_alert());
    assert_eq!(metrics.alerts_total(), 1);
    metrics.increment_errors();
    metrics.increment_errors();
    assert_eq!(metrics.alerts_total(), 3);
    assert_eq!(metrics.errors_total(), 5);
}

#[test]
fn metrics_default_alerts_on_every_error() {
    let mut metrics = MetricsStore::default();
    assert!(metrics.maybe_alert());
    metrics.increment_errors();
    metrics.increment_errors();
    assert_eq!(metrics.alerts_total(), 2);
}

#[test]
fn metrics_render_large_counter() {
    let mut metrics = MetricsStore::new_with_threshold(1);
    for _ in 0..1234 {
        metrics.increment_requests();
    }
    assert!(metrics.render().contains("\nauth_requests_total 1234\n"));
    assert_eq!(metrics.requests_total(), 1234);
}

#[test]
fn metrics_record_request_and_response() {
    let mut metrics = MetricsStore::new_with_threshold(1);
    metrics.record_request("/login");
    metrics.record_request("/health");
    metrics.record_request("/melon");
    metrics.record_request("/metrics");
    metrics.record_request("/me/");
    assert_eq!(metrics.requests_total(), 5);
    assert_eq!(metrics.auth_requests_total(), 2);
    metrics.record_response(200);
    metrics.record_response(399);
    assert_eq!(metrics.errors_total(), 0);
    metrics.record_response(404);
    metrics.record_response(503);
    metrics.record_response(600);
    assert_eq!(metrics.errors_total(), 2);
    assert_eq!(metrics.alerts_total(), 2);
}
