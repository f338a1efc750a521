use arc_swap::ArcSwap;
use sol_rpc_router::config::{BackendConfig, HealthCheckConfig, RouterConfig, validate_config};
use sol_rpc_router::state::{select_backend, Backend, RouterState, SelectionError};
use std::sync::Arc;

fn hc() -> HealthCheckConfig {
    HealthCheckConfig {
        method: "getSlot".to_string(),
        timeout_secs: 5,
        interval_secs: 10,
        max_slot_lag: 100,
        consecutive_failures_threshold: 3,
        consecutive_successes_threshold: 2,
    }
}

fn backend(label: &str, weight: u64, healthy: bool) -> Backend {
    Backend {
        label: label.to_string(),
        url: format!("http://{}:8899", label),
        weight,
        healthy,
    }
}

fn state(backends: Vec<Backend>, routes: Vec<(&str, &str)>) -> RouterState {
    RouterState {
        backends,
        method_routes: routes
            .into_iter()
            .map(|(m, l)| (m.to_string(), l.to_string()))
            .collect(),
        health_check_config: hc(),
    }
}

#[test]
fn selection_skips_unhealthy_backends() {
    let st = state(
        vec![backend("a", 5, false), backend("b", 1, true), backend("c", 9, false)],
        vec![],
    );
    for pick in 0..10u64 {
        let chosen = select_backend(&st, &"getSlot".to_string(), pick).unwrap();
        assert_eq!(chosen.label, "b");
        assert!(chosen.healthy);
    }
}

#[test]
fn selection_fails_when_all_unhealthy() {
    let st = state(vec![backend("a", 1, false), backend("b", 2, false)], vec![]);
    let r = select_backend(&st, &"getSlot".to_string(), 3);
    assert_eq!(r.err().unwrap(), SelectionError::NoHealthyBackend);
}

#[test]
fn method_route_pins_the_backend() {
    let st = state(
        vec![backend("big", 100, true), backend("pinned", 1, true)],
        vec![("getSlot", "pinned")],
    );
    for pick in 0..20u64 {
        let chosen = select_backend(&st, &"getSlot".to_string(), pick).unwrap();
        assert_eq!(chosen.label, "pinned");
    }
    // other methods still use the whole pool
    let other = select_backend(&st, &"getBalance".to_string(), 0).unwrap();
    assert_eq!(other.label, "big");
}

#[test]
fn route_to_unhealthy_backend_fails_rather_than_falling_back() {
    let st = state(
        vec![backend("good", 1, true), backend("bad", 1, false)],
        vec![("getSlot", "bad")],
    );
    let r = select_backend(&st, &"getSlot".to_string(), 0);
    assert_eq!(r.err().unwrap(), SelectionError::NoHealthyBackend);
}

#[test]
fn weighted_windows_follow_list_order() {
    let st = state(vec![backend("a", 1, true), backend("b", 2, true)], vec![]);
    let m = "getSlot".to_string();
    // total weight 3: pick 0 lands in a's window, 1 and 2 in b's
    assert_eq!(select_backend(&st, &m, 0).unwrap().label, "a");
    assert_eq!(select_backend(&st, &m, 1).unwrap().label, "b");
    assert_eq!(select_backend(&st, &m, 2).unwrap().label, "b");
    assert_eq!(select_backend(&st, &m, 3).unwrap().label, "a");
    assert_eq!(select_backend(&st, &m, 4).unwrap().label, "b");
}

#[test]
fn from_config_starts_every_backend_healthy() {
    let cfg = RouterConfig {
        port: 8080,
        redis_url: "redis://localhost".to_string(),
        backends: vec![
            BackendConfig { label: "a".to_string(), url: "http://a:1".to_string(), weight: 2 },
            BackendConfig { label: "b".to_string(), url: "http://b:2".to_string(), weight: 1 },
        ],
        proxy_timeout_secs: Some(30),
        method_routes: vec![("getSlot".to_string(), "b".to_string())],
        health_check: hc(),
    };
    assert!(validate_config(&cfg).is_ok());
    let st = RouterState::from_config(&cfg);
    assert_eq!(st.backends.len(), 2);
    assert!(st.backends.iter().all(|b| b.healthy));
    assert_eq!(st.backends[0].label, "a");
    assert_eq!(st.backends[0].url, "http://a:1");
    assert_eq!(st.method_routes[0], ("getSlot".to_string(), "b".to_string()));
    assert_eq!(st.health_check_config.interval_secs, 10);
}

#[test]
fn in_flight_snapshot_survives_hot_reload() {
    let old_state = state(vec![backend("old-a", 1, true)], vec![]);
    let shared = ArcSwap::from_pointee(old_state);

    // a request begins: it takes a reference to the current snapshot
    let held = shared.load_full();

    // a hot-reload publishes a brand-new snapshot mid-request
    let new_state = state(vec![backend("new-b", 1, true)], vec![]);
    shared.store(Arc::new(new_state));

    // the in-flight request still selects from the snapshot it started with
    let chosen = select_backend(&held, &"getSlot".to_string(), 0).unwrap();
    assert_eq!(chosen.label, "old-a");

    // a request that starts after the reload sees the new backend list
    let fresh = shared.load_full();
    let chosen2 = select_backend(&fresh, &"getSlot".to_string(), 0).unwrap();
    assert_eq!(chosen2.label, "new-b");
}
