use vstd::prelude::*;
use crate::config::{BackendConfig, HealthCheckConfig, RouterConfig, has_backend_label};

verus! {

/// One upstream node inside a routing snapshot. `healthy` mirrors the
/// lock-free flag the request path reads; only the health loop writes it.
pub struct Backend {
    pub label: String,
    pub url: String,
    pub weight: u64,
    pub healthy: bool,
}

/// An immutable routing snapshot: the backend list, per-method overrides,
/// and the health-check configuration. Hot-reload publishes a new value
/// wholesale; in-flight readers keep the one they started with.
pub struct RouterState {
    pub backends: Vec<Backend>,
    pub method_routes: Vec<(String, String)>,
    pub health_check_config: HealthCheckConfig,
}

impl RouterState {
    /// At least one backend; labels non-empty and unique; weights positive;
    /// every method route points at an existing label.
    pub open spec fn wf(&self) -> bool {
        &&& self.backends@.len() > 0
        &&& forall|i: int| 0 <= i < self.backends@.len()
            ==> (#[trigger] self.backends@[i]).label@.len() > 0 && self.backends@[i].weight > 0
        &&& forall|i: int, j: int| 0 <= i < j < self.backends@.len()
            ==> self.backends@[i].label@ != self.backends@[j].label@
        &&& forall|i: int| 0 <= i < self.method_routes@.len()
            ==> state_has_label(self.backends@, (#[trigger] self.method_routes@[i]).1@)
    }
}

/// Whether some backend in the list carries this label.
pub open spec fn state_has_label(backends: Seq<Backend>, k: Seq<char>) -> bool {
    exists|b: int| 0 <= b < backends.len() && (#[trigger] backends[b]).label@ == k
}

/// The label override for `method`: the target of the first matching route.
pub open spec fn route_from(routes: Seq<(String, String)>, method: Seq<char>, i: int) -> Option<Seq<char>>
    decreases routes.len() - i,
{
    if i < 0 || i >= routes.len() {
        None
    } else if routes[i].0@ == method {
        Some(routes[i].1@)
    } else {
        route_from(routes, method, i + 1)
    }
}

pub open spec fn route_for(routes: Seq<(String, String)>, method: Seq<char>) -> Option<Seq<char>> {
    route_from(routes, method, 0)
}

/// Whether the backend at index `i` may serve a request routed as `route`:
/// it must be healthy, and carry the routed label when there is one.
pub open spec fn candidate(backends: Seq<Backend>, route: Option<Seq<char>>, i: int) -> bool {
    &&& 0 <= i < backends.len()
    &&& backends[i].healthy
    &&& match route {
        Some(l) => backends[i].label@ == l,
        None => true,
    }
}

/// Sum of the weights of the candidates at or after index `i`.
pub open spec fn total_weight_from(backends: Seq<Backend>, route: Option<Seq<char>>, i: int) -> int
    decreases backends.len() - i,
{
    if i < 0 || i >= backends.len() {
        0
    } else if candidate(backends, route, i) {
        backends[i].weight + total_weight_from(backends, route, i + 1)
    } else {
        total_weight_from(backends, route, i + 1)
    }
}

/// The index the weighted choice lands on: walking the candidates in order,
/// each owns a window as wide as its weight, and `t` falls in one of them.
pub open spec fn pick_index_from(backends: Seq<Backend>, route: Option<Seq<char>>, i: int, t: int) -> int
    decreases backends.len() - i,
{
    if i < 0 || i >= backends.len() {
        -1
    } else if candidate(backends, route, i) {
        if t < backends[i].weight {
            i
        } else {
            pick_index_from(backends, route, i + 1, t - backends[i].weight)
        }
    } else {
        pick_index_from(backends, route, i + 1, t)
    }
}

proof fn lemma_total_weight_zero(backends: Seq<Backend>, route: Option<Seq<char>>, i: int)
    requires
        0 <= i <= backends.len(),
        forall|j: int| 0 <= j < backends.len() ==> (#[trigger] backends[j]).weight > 0,
    ensures
        total_weight_from(backends, route, i) >= 0,
        (total_weight_from(backends, route, i) == 0 <==> forall|j: int| i <= j < backends.len() ==> !candidate(backends, route, j)),
    decreases backends.len() - i,
{
    if i < backends.len() {
        lemma_total_weight_zero(backends, route, i + 1);
    }
}

proof fn lemma_pick_index_valid(backends: Seq<Backend>, route: Option<Seq<char>>, i: int, t: int)
    requires
        0 <= i <= backends.len(),
        0 <= t < total_weight_from(backends, route, i),
    ensures
        ({
            let x = pick_index_from(backends, route, i, t);
            i <= x < backends.len() && candidate(backends, route, x)
        }),
    decreases backends.len() - i,
{
    if i < backends.len() {
        if candidate(backends, route, i) {
            if t < backends[i].weight {
            } else {
                lemma_pick_index_valid(backends, route, i + 1, t - backends[i].weight);
            }
        } else {
            lemma_pick_index_valid(backends, route, i + 1, t);
        }
    }
}

proof fn lemma_total_weight_bound(backends: Seq<Backend>, route: Option<Seq<char>>, i: int)
    requires
        0 <= i <= backends.len(),
    ensures
        total_weight_from(backends, route, i) <= (backends.len() - i) * (u64::MAX as int),
    decreases backends.len() - i,
{
    if i < backends.len() {
        lemma_total_weight_bound(backends, route, i + 1);
        assert((backends.len() - i) * (u64::MAX as int) == (backends.len() - (i + 1)) * (u64::MAX as int) + u64::MAX as int)
            by (nonlinear_arith);
    }
}

/// Why selection failed.
#[derive(Debug, Clone, Copy, PartialEq, Eq, Structural)]
pub enum SelectionError {
    /// Every backend the request was allowed to use is marked unhealthy.
    NoHealthyBackend,
}

/// The first method-route override for `method`, if any.
#[verifier::loop_isolation(false)]
fn find_route<'a>(routes: &'a Vec<(String, String)>, method: &String) -> (r: Option<&'a String>)
    ensures
        match r {
            Some(l) => route_for(routes@, method@) == Some(l@),
            None => route_for(routes@, method@) is None,
        },
{
    let mut i: usize = 0;
    while i < routes.len()
        invariant
            i <= routes@.len(),
            route_for(routes@, method@) == route_from(routes@, method@, i as int),
        decreases routes@.len() - i,
    {
        if routes[i].0 == *method {
            return Some(&routes[i].1);
        }
        i = i + 1;
    }
    None
}

/// Picks a backend for `method` from the snapshot.
///
/// Candidates are the backends whose health flag is true, narrowed to the
/// routed label when `method_routes` has an override for `method`; a backend
/// whose flag is false is never returned. Among candidates the choice is
/// weighted: `pick` is reduced modulo the candidates' total weight, and each
/// candidate in list order owns a window of the total as wide as its weight,
/// so over uniformly drawn `pick` values a backend of weight 2 is chosen
/// twice as often as one of weight 1. When no candidate exists, selection
/// fails explicitly.
#[verifier::loop_isolation(false)]
pub fn select_backend<'a>(state: &'a RouterState, method: &String, pick: u64) -> (r: Result<&'a Backend, SelectionError>)
    requires
        state.wf(),
    ensures
        ({
            let route = route_for(state.method_routes@, method@);
            let total = total_weight_from(state.backends@, route, 0);
            match r {
                Ok(b) => {
                    let idx = pick_index_from(state.backends@, route, 0, (pick as int) % total);
                    &&& total > 0
                    &&& 0 <= idx < state.backends@.len()
                    &&& *b == state.backends@[idx]
                    &&& b.healthy
                    &&& candidate(state.backends@, route, idx)
                    &&& (route matches Some(l) ==> b.label@ == l)
                },
                Err(e) => {
                    &&& e == SelectionError::NoHealthyBackend
                    &&& forall|i: int| 0 <= i < state.backends@.len() ==> !candidate(state.backends@, route, i)
                },
            }
        }),
{
    let route = find_route(&state.method_routes, method);
    let ghost groute = route_for(state.method_routes@, method@);

    // first pass: total weight of the candidates
    let mut total: u128 = 0;
    let mut i: usize = 0;
    proof {
        lemma_total_weight_bound(state.backends@, groute, 0);
        lemma_total_weight_zero(state.backends@, groute, 0);
    }
    while i < state.backends.len()
        invariant
            i <= state.backends@.len(),
            total == total_weight_from(state.backends@, groute, 0) - total_weight_from(state.backends@, groute, i as int),
            total <= (i as int) * (u64::MAX as int),
        decreases state.backends@.len() - i,
    {
        let bk = &state.backends[i];
        let is_cand: bool = bk.healthy && (match route {
            Some(l) => bk.label == *l,
            None => true,
        });
        proof {
            assert(is_cand == candidate(state.backends@, groute, i as int));
            assert((i as int) * (u64::MAX as int) + u64::MAX as int == ((i + 1) as int) * (u64::MAX as int))
                by (nonlinear_arith);
            lemma_total_weight_bound(state.backends@, groute, i as int);
            lemma_total_weight_bound(state.backends@, groute, i + 1);
        }
        if is_cand {
            total = total + bk.weight as u128;
        }
        i = i + 1;
    }

    if total == 0 {
        return Err(SelectionError::NoHealthyBackend);
    }

    // second pass: walk the candidate windows until `t` falls inside one
    let ghost gtotal = total_weight_from(state.backends@, groute, 0);
    let mut t: u128 = (pick as u128) % total;
    proof {
        lemma_pick_index_valid(state.backends@, groute, 0, t as int);
    }
    let ghost target = pick_index_from(state.backends@, groute, 0, t as int);
    let mut j: usize = 0;
    while j < state.backends.len()
        invariant
            0 <= j <= state.backends@.len(),
            0 <= t < total_weight_from(state.backends@, groute, j as int),
            target == pick_index_from(state.backends@, groute, j as int, t as int),
        decreases state.backends@.len() - j,
    {
        let bk = &state.backends[j];
        let is_cand: bool = bk.healthy && (match route {
            Some(l) => bk.label == *l,
            None => true,
        });
        proof {
            assert(is_cand == candidate(state.backends@, groute, j as int));
        }
        if is_cand {
            if t < bk.weight as u128 {
                proof {
                    assert(target == j as int);
                }
                return Ok(bk);
            }
            t = t - bk.weight as u128;
        }
        j = j + 1;
    }
    proof {
        assert(total_weight_from(state.backends@, groute, state.backends@.len() as int) == 0);
        assert(false);
    }
    Err(SelectionError::NoHealthyBackend)
}

fn duplicate_health_config(hc: &HealthCheckConfig) -> (r: HealthCheckConfig)
    ensures
        r.method@ == hc.method@,
        r.timeout_secs == hc.timeout_secs,
        r.interval_secs == hc.interval_secs,
        r.max_slot_lag == hc.max_slot_lag,
        r.consecutive_failures_threshold == hc.consecutive_failures_threshold,
        r.consecutive_successes_threshold == hc.consecutive_successes_threshold,
{
    HealthCheckConfig {
        method: hc.method.clone(),
        timeout_secs: hc.timeout_secs,
        interval_secs: hc.interval_secs,
        max_slot_lag: hc.max_slot_lag,
        consecutive_failures_threshold: hc.consecutive_failures_threshold,
        consecutive_successes_threshold: hc.consecutive_successes_threshold,
    }
}

impl RouterState {
    /// Builds the initial snapshot from a validated configuration: the same
    /// backends in the same order, every health flag starting true.
    #[verifier::loop_isolation(false)]
    pub fn from_config(cfg: &RouterConfig) -> (r: RouterState)
        requires
            cfg.valid(),
        ensures
            r.wf(),
            r.backends@.len() == cfg.backends@.len(),
            forall|i: int| 0 <= i < cfg.backends@.len() ==> {
                &&& (#[trigger] r.backends@[i]).label@ == cfg.backends@[i].label@
                &&& r.backends@[i].url@ == cfg.backends@[i].url@
                &&& r.backends@[i].weight == cfg.backends@[i].weight
                &&& r.backends@[i].healthy == true
            },
            r.method_routes@.len() == cfg.method_routes@.len(),
            forall|i: int| 0 <= i < cfg.method_routes@.len() ==> {
                &&& (#[trigger] r.method_routes@[i]).0@ == cfg.method_routes@[i].0@
                &&& r.method_routes@[i].1@ == cfg.method_routes@[i].1@
            },
            r.health_check_config.method@ == cfg.health_check.method@,
            r.health_check_config.timeout_secs == cfg.health_check.timeout_secs,
            r.health_check_config.interval_secs == cfg.health_check.interval_secs,
            r.health_check_config.max_slot_lag == cfg.health_check.max_slot_lag,
            r.health_check_config.consecutive_failures_threshold == cfg.health_check.consecutive_failures_threshold,
            r.health_check_config.consecutive_successes_threshold == cfg.health_check.consecutive_successes_threshold,
    {
        let mut backends: Vec<Backend> = Vec::new();
        let mut i: usize = 0;
        while i < cfg.backends.len()
            invariant
                i <= cfg.backends@.len(),
                backends@.len() == i,
                forall|k: int| 0 <= k < i ==> {
                    &&& (#[trigger] backends@[k]).label@ == cfg.backends@[k].label@
                    &&& backends@[k].url@ == cfg.backends@[k].url@
                    &&& backends@[k].weight == cfg.backends@[k].weight
                    &&& backends@[k].healthy == true
                },
            decreases cfg.backends@.len() - i,
        {
            let bc = &cfg.backends[i];
            backends.push(Backend {
                label: bc.label.clone(),
                url: bc.url.clone(),
                weight: bc.weight,
                healthy: true,
            });
            i = i + 1;
        }
        let mut method_routes: Vec<(String, String)> = Vec::new();
        let mut k: usize = 0;
        while k < cfg.method_routes.len()
            invariant
                k <= cfg.method_routes@.len(),
                method_routes@.len() == k,
                forall|x: int| 0 <= x < k ==> {
                    &&& (#[trigger] method_routes@[x]).0@ == cfg.method_routes@[x].0@
                    &&& method_routes@[x].1@ == cfg.method_routes@[x].1@
                },
            decreases cfg.method_routes@.len() - k,
        {
            let mr = &cfg.method_routes[k];
            method_routes.push((mr.0.clone(), mr.1.clone()));
            k = k + 1;
        }
        let r = RouterState {
            backends,
            method_routes,
            health_check_config: duplicate_health_config(&cfg.health_check),
        };
        proof {
            assert forall|x: int| 0 <= x < r.backends@.len() implies
                (#[trigger] r.backends@[x]).label@.len() > 0 && r.backends@[x].weight > 0 by {
                assert(cfg.backends@[x].label@.len() > 0 && cfg.backends@[x].weight > 0);
            }
            assert forall|x: int, y: int| 0 <= x < y < r.backends@.len() implies
                r.backends@[x].label@ != r.backends@[y].label@ by {
                assert(cfg.backends@[x].label@ != cfg.backends@[y].label@);
            }
            assert forall|x: int| 0 <= x < r.method_routes@.len() implies
                state_has_label(r.backends@, (#[trigger] r.method_routes@[x]).1@) by {
                assert(has_backend_label(cfg.backends@, cfg.method_routes@[x].1@));
                let w = choose|b: int| 0 <= b < cfg.backends@.len() && cfg.backends@[b].label@ == cfg.method_routes@[x].1@;
                assert(r.backends@[w].label@ == r.method_routes@[x].1@);
            }
        }
        r
    }
}

} // verus!
