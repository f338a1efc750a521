use sol_rpc_router::config::HealthCheckConfig;
use sol_rpc_router::health::{apply_probe_result, max_reported_slot, run_health_cycle, BackendHealthStatus, HealthState};

fn hc(max_slot_lag: u64, fail_thr: u32, succ_thr: u32) -> HealthCheckConfig {
    HealthCheckConfig {
        method: "getSlot".to_string(),
        timeout_secs: 5,
        interval_secs: 10,
        max_slot_lag,
        consecutive_failures_threshold: fail_thr,
        consecutive_successes_threshold: succ_thr,
    }
}

#[test]
fn fresh_backend_defaults_to_healthy() {
    let status = BackendHealthStatus::default();
    assert!(status.healthy);
    assert_eq!(status.consecutive_failures, 0);
    assert_eq!(status.consecutive_successes, 0);
    assert!(status.last_check_time.is_none());
    assert!(status.last_error.is_none());

    let hs = HealthState::new(vec!["a".to_string()]);
    assert!(hs.get_status(&"a".to_string()).unwrap().healthy);
}

#[test]
fn counters_never_both_nonzero() {
    let config = hc(20, 3, 2);
    let mut status = BackendHealthStatus::default();
    let outcomes: Vec<Result<Option<u64>, String>> = vec![
        Ok(Some(10)),
        Err("timeout".to_string()),
        Err("timeout".to_string()),
        Ok(Some(10)),
        Err("refused".to_string()),
    ];
    for outcome in &outcomes {
        status = apply_probe_result(&status, outcome, Some(10), &config, 7);
        assert!(status.consecutive_failures == 0 || status.consecutive_successes == 0);
    }
}

#[test]
fn unhealthy_only_at_failure_threshold() {
    let config = hc(20, 3, 2);
    let mut status = BackendHealthStatus::default();
    let err: Result<Option<u64>, String> = Err("connection refused".to_string());

    status = apply_probe_result(&status, &err, None, &config, 1);
    assert!(status.healthy, "one failure below threshold must not flip");
    assert_eq!(status.consecutive_failures, 1);

    status = apply_probe_result(&status, &err, None, &config, 2);
    assert!(status.healthy, "two failures below threshold must not flip");

    status = apply_probe_result(&status, &err, None, &config, 3);
    assert!(!status.healthy, "third failure reaches the threshold");
    assert_eq!(status.consecutive_failures, 3);
    assert_eq!(status.last_error.as_deref(), Some("connection refused"));
}

#[test]
fn healthy_only_at_success_threshold() {
    let config = hc(20, 1, 2);
    let mut status = BackendHealthStatus::default();
    status = apply_probe_result(&status, &Err("down".to_string()), None, &config, 1);
    assert!(!status.healthy);

    status = apply_probe_result(&status, &Ok(Some(50)), Some(50), &config, 2);
    assert!(!status.healthy, "one success below threshold must not flip back");
    assert_eq!(status.consecutive_successes, 1);
    assert_eq!(status.consecutive_failures, 0);

    status = apply_probe_result(&status, &Ok(Some(51)), Some(51), &config, 3);
    assert!(status.healthy, "second success reaches the threshold");
    assert!(status.last_error.is_none());
    assert_eq!(status.last_check_time, Some(3));
}

#[test]
fn lagging_backend_is_a_failure() {
    let config = hc(20, 1, 1);
    let mut hs = HealthState::new(vec!["A".to_string(), "B".to_string(), "C".to_string()]);
    let results: Vec<(String, Result<Option<u64>, String>)> = vec![
        ("A".to_string(), Ok(Some(100))),
        ("B".to_string(), Ok(Some(100))),
        ("C".to_string(), Ok(Some(70))),
    ];
    assert_eq!(max_reported_slot(&results), Some(100));

    let flags = run_health_cycle(&mut hs, &results, &config, 42);
    assert_eq!(flags, vec![true, true, false]);

    let a = hs.get_status(&"A".to_string()).unwrap();
    assert!(a.healthy);
    assert!(a.last_error.is_none());

    let c = hs.get_status(&"C".to_string()).unwrap();
    assert!(!c.healthy);
    assert_eq!(c.consecutive_failures, 1);
    assert_eq!(
        c.last_error.as_deref(),
        Some("Backend lagging: slot 70 is 30 behind max 100")
    );
}

#[test]
fn lag_within_limit_is_success() {
    let config = hc(30, 1, 1);
    let status = BackendHealthStatus::default();
    let updated = apply_probe_result(&status, &Ok(Some(70)), Some(100), &config, 1);
    assert!(updated.healthy);
    assert_eq!(updated.consecutive_successes, 1);
    assert!(updated.last_error.is_none());
}

#[test]
fn no_height_reported_skips_lag_check() {
    let config = hc(20, 1, 1);
    let status = BackendHealthStatus::default();
    let updated = apply_probe_result(&status, &Ok(None), Some(100), &config, 1);
    assert!(updated.healthy);
    assert_eq!(updated.consecutive_successes, 1);
}

#[test]
fn max_reported_slot_ignores_failures_and_no_values() {
    let results: Vec<(String, Result<Option<u64>, String>)> = vec![
        ("A".to_string(), Err("down".to_string())),
        ("B".to_string(), Ok(None)),
        ("C".to_string(), Ok(Some(7))),
        ("D".to_string(), Ok(Some(9))),
        ("E".to_string(), Ok(Some(3))),
    ];
    assert_eq!(max_reported_slot(&results), Some(9));

    let none: Vec<(String, Result<Option<u64>, String>)> =
        vec![("A".to_string(), Err("down".to_string()))];
    assert_eq!(max_reported_slot(&none), None);
}

#[test]
fn update_status_upserts_unknown_labels() {
    let mut hs = HealthState::new(vec!["a".to_string()]);
    assert!(hs.get_status(&"new".to_string()).is_none());

    let mut status = BackendHealthStatus::default();
    status.healthy = false;
    status.consecutive_failures = 4;
    hs.update_status(&"new".to_string(), status);

    let read = hs.get_status(&"new".to_string()).unwrap();
    assert!(!read.healthy);
    assert_eq!(read.consecutive_failures, 4);

    let all = hs.get_all_statuses();
    assert_eq!(all.len(), 2);
}

#[test]
fn cycle_leaves_unprobed_backends_alone() {
    let config = hc(20, 1, 1);
    let mut hs = HealthState::new(vec!["a".to_string(), "b".to_string()]);
    let results: Vec<(String, Result<Option<u64>, String>)> =
        vec![("a".to_string(), Err("down".to_string()))];
    let flags = run_health_cycle(&mut hs, &results, &config, 5);
    assert_eq!(flags, vec![false]);
    assert!(!hs.get_status(&"a".to_string()).unwrap().healthy);
    let b = hs.get_status(&"b".to_string()).unwrap();
    assert!(b.healthy);
    assert!(b.last_check_time.is_none());
}

#[test]
fn hysteresis_across_cycles() {
    let config = hc(20, 2, 2);
    let mut hs = HealthState::new(vec!["a".to_string()]);
    let fail: Vec<(String, Result<Option<u64>, String>)> =
        vec![("a".to_string(), Err("down".to_string()))];
    let ok: Vec<(String, Result<Option<u64>, String>)> =
        vec![("a".to_string(), Ok(Some(5)))];

    assert_eq!(run_health_cycle(&mut hs, &fail, &config, 1), vec![true]);
    assert_eq!(run_health_cycle(&mut hs, &fail, &config, 2), vec![false]);
    assert_eq!(run_health_cycle(&mut hs, &ok, &config, 3), vec![false]);
    assert_eq!(run_health_cycle(&mut hs, &ok, &config, 4), vec![true]);
    let a = hs.get_status(&"a".to_string()).unwrap();
    assert_eq!(a.consecutive_successes, 2);
    assert_eq!(a.consecutive_failures, 0);
    assert_eq!(a.last_check_time, Some(4));
}

#[test]
fn failure_counter_saturates() {
    let config = hc(20, 3, 2);
    let mut status = BackendHealthStatus::default();
    status.consecutive_failures = u32::MAX;
    status.healthy = false;
    let updated = apply_probe_result(&status, &Err("down".to_string()), None, &config, 1);
    assert_eq!(updated.consecutive_failures, u32::MAX);
    assert!(!updated.healthy);
}
