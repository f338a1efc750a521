use vstd::prelude::*;
use vstd::string::StringExecFns;

verus! {

/// One upstream node as configured: unique non-empty label, base URL,
/// positive selection weight.
pub struct BackendConfig {
    pub label: String,
    pub url: String,
    pub weight: u64,
}

/// How the health loop probes: the JSON-RPC method, per-probe timeout,
/// loop interval, permissible height lag, and the hysteresis thresholds.
pub struct HealthCheckConfig {
    pub method: String,
    pub timeout_secs: u64,
    pub interval_secs: u64,
    pub max_slot_lag: u64,
    pub consecutive_failures_threshold: u32,
    pub consecutive_successes_threshold: u32,
}

impl HealthCheckConfig {
    /// Every numeric field must be positive.
    pub open spec fn wf(&self) -> bool {
        self.timeout_secs > 0 && self.interval_secs > 0 && self.max_slot_lag > 0
            && self.consecutive_failures_threshold > 0 && self.consecutive_successes_threshold > 0
    }
}

/// The declarative configuration as parsed, before validation.
pub struct RouterConfig {
    pub port: u16,
    pub redis_url: String,
    pub backends: Vec<BackendConfig>,
    pub proxy_timeout_secs: Option<u64>,
    pub method_routes: Vec<(String, String)>,
    pub health_check: HealthCheckConfig,
}

pub open spec fn backend_labels_unique(bs: Seq<BackendConfig>) -> bool {
    forall|i: int, j: int| 0 <= i < j < bs.len() ==> bs[i].label@ != bs[j].label@
}

pub open spec fn has_backend_label(bs: Seq<BackendConfig>, k: Seq<char>) -> bool {
    exists|i: int| 0 <= i < bs.len() && bs[i].label@ == k
}

impl RouterConfig {
    /// Everything validation checks, as one predicate.
    pub open spec fn valid(&self) -> bool {
        &&& self.redis_url@.len() > 0
        &&& self.backends@.len() > 0
        &&& forall|i: int| 0 <= i < self.backends@.len()
            ==> (#[trigger] self.backends@[i]).label@.len() > 0 && self.backends@[i].weight > 0
        &&& backend_labels_unique(self.backends@)
        &&& match self.proxy_timeout_secs {
            Some(t) => t > 0,
            None => true,
        }
        &&& self.health_check.wf()
        &&& forall|i: int| 0 <= i < self.method_routes@.len()
            ==> has_backend_label(self.backends@, (#[trigger] self.method_routes@[i]).1@)
    }
}

pub open spec fn msg_redis_empty() -> Seq<char> {
    "Redis URL must not be empty"@
}

pub open spec fn msg_no_backends() -> Seq<char> {
    "At least one backend must be configured"@
}

pub open spec fn msg_empty_label() -> Seq<char> {
    "Backend with an empty label"@
}

pub open spec fn msg_zero_weight(label: Seq<char>) -> Seq<char> {
    "backend '"@ + label + "' has weight 0"@
}

pub open spec fn msg_duplicate_labels() -> Seq<char> {
    "Duplicate backend labels"@
}

pub open spec fn msg_zero_proxy_timeout() -> Seq<char> {
    "proxy timeout_secs must be greater than 0"@
}

pub open spec fn msg_bad_health_check() -> Seq<char> {
    "health_check fields must all be greater than 0"@
}

pub open spec fn msg_unknown_route(label: Seq<char>) -> Seq<char> {
    "method_routes refers to unknown backend label '"@ + label + "'"@
}

/// The first per-backend complaint at or after index `i`, scanning forward.
pub open spec fn backends_error_from(bs: Seq<BackendConfig>, i: int) -> Option<Seq<char>>
    decreases bs.len() - i,
{
    if i < 0 || i >= bs.len() {
        None
    } else if bs[i].label@.len() == 0 {
        Some(msg_empty_label())
    } else if bs[i].weight == 0 {
        Some(msg_zero_weight(bs[i].label@))
    } else {
        backends_error_from(bs, i + 1)
    }
}

/// The first method-route complaint at or after index `i`, scanning forward.
pub open spec fn routes_error_from(routes: Seq<(String, String)>, bs: Seq<BackendConfig>, i: int) -> Option<Seq<char>>
    decreases routes.len() - i,
{
    if i < 0 || i >= routes.len() {
        None
    } else if !has_backend_label(bs, routes[i].1@) {
        Some(msg_unknown_route(routes[i].1@))
    } else {
        routes_error_from(routes, bs, i + 1)
    }
}

/// What validation reports: the checks in order, the first failure's message.
pub open spec fn spec_validate(cfg: RouterConfig) -> Result<(), Seq<char>> {
    if cfg.redis_url@.len() == 0 {
        Err(msg_redis_empty())
    } else if cfg.backends@.len() == 0 {
        Err(msg_no_backends())
    } else if backends_error_from(cfg.backends@, 0) is Some {
        Err(backends_error_from(cfg.backends@, 0).unwrap())
    } else if !backend_labels_unique(cfg.backends@) {
        Err(msg_duplicate_labels())
    } else if cfg.proxy_timeout_secs == Some(0u64) {
        Err(msg_zero_proxy_timeout())
    } else if !cfg.health_check.wf() {
        Err(msg_bad_health_check())
    } else if routes_error_from(cfg.method_routes@, cfg.backends@, 0) is Some {
        Err(routes_error_from(cfg.method_routes@, cfg.backends@, 0).unwrap())
    } else {
        Ok(())
    }
}

proof fn lemma_backends_error_none(bs: Seq<BackendConfig>, i: int)
    requires
        0 <= i <= bs.len(),
    ensures
        backends_error_from(bs, i) is None <==> forall|j: int| i <= j < bs.len()
            ==> (#[trigger] bs[j]).label@.len() > 0 && bs[j].weight > 0,
    decreases bs.len() - i,
{
    if i < bs.len() {
        lemma_backends_error_none(bs, i + 1);
    }
}

proof fn lemma_routes_error_none(routes: Seq<(String, String)>, bs: Seq<BackendConfig>, i: int)
    requires
        0 <= i <= routes.len(),
    ensures
        routes_error_from(routes, bs, i) is None <==> forall|j: int| i <= j < routes.len()
            ==> has_backend_label(bs, (#[trigger] routes[j]).1@),
    decreases routes.len() - i,
{
    if i < routes.len() {
        lemma_routes_error_none(routes, bs, i + 1);
    }
}

/// Whether any configured backend carries this label.
fn label_exists(backends: &Vec<BackendConfig>, label: &String) -> (r: bool)
    ensures
        r == has_backend_label(backends@, label@),
{
    let mut i: usize = 0;
    while i < backends.len()
        invariant
            i <= backends@.len(),
            forall|j: int| 0 <= j < i ==> backends@[j].label@ != label@,
        decreases backends@.len() - i,
    {
        if backends[i].label == *label {
            return true;
        }
        i = i + 1;
    }
    false
}

/// Validates a parsed configuration; the checks run in a fixed order and the
/// first violated one is reported, naming the offending value.
#[verifier::loop_isolation(false)]
pub fn validate_config(cfg: &RouterConfig) -> (r: Result<(), String>)
    ensures
        r is Ok <==> cfg.valid(),
        match r {
            Ok(()) => spec_validate(*cfg) is Ok,
            Err(m) => spec_validate(*cfg) matches Err(s) && m@ == s,
        },
{
    proof {
        lemma_backends_error_none(cfg.backends@, 0);
        lemma_routes_error_none(cfg.method_routes@, cfg.backends@, 0);
    }
    if cfg.redis_url.as_str().is_empty() {
        return Err("Redis URL must not be empty".to_owned());
    }
    if cfg.backends.len() == 0 {
        return Err("At least one backend must be configured".to_owned());
    }
    let mut i: usize = 0;
    while i < cfg.backends.len()
        invariant
            i <= cfg.backends@.len(),
            forall|j: int| 0 <= j < i ==> (#[trigger] cfg.backends@[j]).label@.len() > 0 && cfg.backends@[j].weight > 0,
            backends_error_from(cfg.backends@, 0) == backends_error_from(cfg.backends@, i as int),
        decreases cfg.backends@.len() - i,
    {
        let bk = &cfg.backends[i];
        if bk.label.as_str().is_empty() {
            return Err("Backend with an empty label".to_owned());
        }
        if bk.weight == 0 {
            let mut m = String::from_str("backend '");
            m.append(bk.label.as_str());
            m.append("' has weight 0");
            return Err(m);
        }
        i = i + 1;
    }
    let mut a: usize = 0;
    while a < cfg.backends.len()
        invariant
            a <= cfg.backends@.len(),
            forall|x: int, y: int| 0 <= x < y < cfg.backends@.len() && x < a ==> cfg.backends@[x].label@ != cfg.backends@[y].label@,
        decreases cfg.backends@.len() - a,
    {
        let mut b: usize = a + 1;
        while b < cfg.backends.len()
            invariant
                a < b <= cfg.backends@.len() || (a >= cfg.backends@.len() && b >= a),
                a < cfg.backends@.len(),
                forall|y: int| a < y < b ==> cfg.backends@[a as int].label@ != cfg.backends@[y].label@,
            decreases cfg.backends@.len() - b,
        {
            if cfg.backends[a].label == cfg.backends[b].label {
                return Err("Duplicate backend labels".to_owned());
            }
            b = b + 1;
        }
        a = a + 1;
    }
    match cfg.proxy_timeout_secs {
        Some(t) => {
            if t == 0 {
                return Err("proxy timeout_secs must be greater than 0".to_owned());
            }
        }
        None => {}
    }
    if cfg.health_check.timeout_secs == 0 || cfg.health_check.interval_secs == 0
        || cfg.health_check.max_slot_lag == 0
        || cfg.health_check.consecutive_failures_threshold == 0
        || cfg.health_check.consecutive_successes_threshold == 0 {
        return Err("health_check fields must all be greater than 0".to_owned());
    }
    let mut k: usize = 0;
    while k < cfg.method_routes.len()
        invariant
            k <= cfg.method_routes@.len(),
            forall|j: int| 0 <= j < k ==> has_backend_label(cfg.backends@, (#[trigger] cfg.method_routes@[j]).1@),
            routes_error_from(cfg.method_routes@, cfg.backends@, 0) == routes_error_from(cfg.method_routes@, cfg.backends@, k as int),
        decreases cfg.method_routes@.len() - k,
    {
        let target = &cfg.method_routes[k].1;
        if !label_exists(&cfg.backends, target) {
            let mut m = String::from_str("method_routes refers to unknown backend label '");
            m.append(target.as_str());
            m.append("'");
            return Err(m);
        }
        k = k + 1;
    }
    Ok(())
}

} // verus!
