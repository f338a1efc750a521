use sol_rpc_router::config::{BackendConfig, HealthCheckConfig, RouterConfig, validate_config};

fn health_defaults() -> HealthCheckConfig {
    HealthCheckConfig {
        method: "getSlot".to_string(),
        timeout_secs: 5,
        interval_secs: 10,
        max_slot_lag: 100,
        consecutive_failures_threshold: 3,
        consecutive_successes_threshold: 2,
    }
}

fn backend(label: &str, url: &str, weight: u64) -> BackendConfig {
    BackendConfig { label: label.to_string(), url: url.to_string(), weight }
}

fn base_config(backends: Vec<BackendConfig>) -> RouterConfig {
    RouterConfig {
        port: 8080,
        redis_url: "redis://localhost".to_string(),
        backends,
        proxy_timeout_secs: None,
        method_routes: Vec::new(),
        health_check: health_defaults(),
    }
}

#[test]
fn test_load_config_valid() {
    let config = base_config(vec![backend("b1", "http://localhost:9000", 1)]);
    assert!(validate_config(&config).is_ok());
    assert_eq!(config.port, 8080);
    assert_eq!(config.backends.len(), 1);
    assert_eq!(config.backends[0].label, "b1");
}

#[test]
fn test_load_config_empty_redis_url() {
    let mut config = base_config(vec![backend("b1", "http://localhost:9000", 1)]);
    config.redis_url = String::new();
    let err = validate_config(&config).unwrap_err();
    assert!(err.contains("Redis URL"), "Expected 'Redis URL' in error: {}", err);
}

#[test]
fn test_load_config_no_backends() {
    let config = base_config(Vec::new());
    let err = validate_config(&config).unwrap_err();
    assert!(
        err.contains("At least one backend"),
        "Expected 'At least one backend' in error: {}",
        err
    );
}

#[test]
fn test_load_config_duplicate_labels() {
    let config = base_config(vec![
        backend("same", "http://localhost:9000", 1),
        backend("same", "http://localhost:9001", 1),
    ]);
    let err = validate_config(&config).unwrap_err();
    assert!(
        err.contains("Duplicate backend labels"),
        "Expected 'Duplicate backend labels' in error: {}",
        err
    );
}

#[test]
fn test_load_config_zero_weight() {
    let config = base_config(vec![backend("bad-backend", "http://localhost:9000", 0)]);
    let err = validate_config(&config).unwrap_err();
    assert!(err.contains("weight 0"), "Expected 'weight 0' in error: {}", err);
    assert!(err.contains("bad-backend"), "Expected backend name in error: {}", err);
}

#[test]
fn test_load_config_empty_label() {
    let config = base_config(vec![backend("", "http://localhost:9000", 1)]);
    let err = validate_config(&config).unwrap_err();
    assert!(err.contains("empty label"), "Expected 'empty label' in error: {}", err);
}

#[test]
fn test_load_config_zero_proxy_timeout() {
    let mut config = base_config(vec![backend("b1", "http://localhost:9000", 1)]);
    config.proxy_timeout_secs = Some(0);
    let err = validate_config(&config).unwrap_err();
    assert!(err.contains("timeout_secs"), "Expected 'timeout_secs' in error: {}", err);
}

#[test]
fn test_load_config_unknown_method_route() {
    let mut config = base_config(vec![backend("b1", "http://localhost:9000", 1)]);
    config.method_routes.push(("getSlot".to_string(), "nonexistent".to_string()));
    let err = validate_config(&config).unwrap_err();
    assert!(err.contains("nonexistent"), "Expected 'nonexistent' in error: {}", err);
    assert!(
        err.contains("unknown backend label"),
        "Expected 'unknown backend label' in error: {}",
        err
    );
}

#[test]
fn test_load_config_zero_health_interval() {
    let mut config = base_config(vec![backend("b1", "http://localhost:9000", 1)]);
    config.health_check.interval_secs = 0;
    let err = validate_config(&config).unwrap_err();
    assert!(err.contains("health_check"), "Expected 'health_check' in error: {}", err);
}
