use vstd::prelude::*;

verus! {

/// Detailed health record kept for one backend. `last_check_time` holds
/// whatever clock reading the caller of an update supplies (the running
/// system passes seconds since the epoch).
pub struct BackendHealthStatus {
    pub healthy: bool,
    pub last_check_time: Option<u64>,
    pub consecutive_failures: u32,
    pub consecutive_successes: u32,
    pub last_error: Option<String>,
}

/// Mathematical model of a backend's health record.
pub struct StatusModel {
    pub healthy: bool,
    pub last_check_time: Option<u64>,
    pub consecutive_failures: u32,
    pub consecutive_successes: u32,
    pub last_error: Option<Seq<char>>,
}

impl View for BackendHealthStatus {
    type V = StatusModel;

    open spec fn view(&self) -> StatusModel {
        StatusModel {
            healthy: self.healthy,
            last_check_time: self.last_check_time,
            consecutive_failures: self.consecutive_failures,
            consecutive_successes: self.consecutive_successes,
            last_error: match self.last_error {
                Some(e) => Some(e@),
                None => None,
            },
        }
    }
}

/// The record a backend starts with before any check ran: optimistic,
/// so a fresh deployment does not reject all traffic.
pub open spec fn fresh_status() -> StatusModel {
    StatusModel {
        healthy: true,
        last_check_time: None,
        consecutive_failures: 0,
        consecutive_successes: 0,
        last_error: None,
    }
}

impl BackendHealthStatus {
    /// A fresh record: healthy, no checks recorded yet.
    pub fn default() -> (r: Self)
        ensures
            r@ == fresh_status(),
    {
        BackendHealthStatus {
            healthy: true,
            last_check_time: None,
            consecutive_failures: 0,
            consecutive_successes: 0,
            last_error: None,
        }
    }

    /// An owned copy of the record.
    pub fn duplicate(&self) -> (r: Self)
        ensures
            r@ == self@,
    {
        BackendHealthStatus {
            healthy: self.healthy,
            last_check_time: self.last_check_time,
            consecutive_failures: self.consecutive_failures,
            consecutive_successes: self.consecutive_successes,
            last_error: match &self.last_error {
                Some(e) => Some(e.clone()),
                None => None,
            },
        }
    }
}

/// The map a label/status association list denotes; a later entry for the
/// same label would win, but well-formed lists have unique labels.
pub open spec fn map_of(s: Seq<(String, BackendHealthStatus)>) -> Map<Seq<char>, StatusModel>
    decreases s.len(),
{
    if s.len() == 0 {
        Map::empty()
    } else {
        map_of(s.drop_last()).insert(s.last().0@, s.last().1@)
    }
}

/// Labels are pairwise distinct.
pub open spec fn labels_unique(s: Seq<(String, BackendHealthStatus)>) -> bool {
    forall|i: int, j: int| 0 <= i < j < s.len() ==> s[i].0@ != s[j].0@
}

proof fn lemma_map_of_absent(s: Seq<(String, BackendHealthStatus)>, k: Seq<char>)
    requires
        forall|i: int| 0 <= i < s.len() ==> s[i].0@ != k,
    ensures
        !map_of(s).contains_key(k),
    decreases s.len(),
{
    if s.len() > 0 {
        lemma_map_of_absent(s.drop_last(), k);
    }
}

proof fn lemma_map_of_present(s: Seq<(String, BackendHealthStatus)>, i: int)
    requires
        labels_unique(s),
        0 <= i < s.len(),
    ensures
        map_of(s).contains_key(s[i].0@),
        map_of(s)[s[i].0@] == s[i].1@,
    decreases s.len(),
{
    if i == s.len() - 1 {
    } else {
        lemma_map_of_present(s.drop_last(), i);
    }
}

proof fn lemma_map_of_update(s: Seq<(String, BackendHealthStatus)>, i: int, p: (String, BackendHealthStatus))
    requires
        labels_unique(s),
        0 <= i < s.len(),
        p.0@ == s[i].0@,
    ensures
        map_of(s.update(i, p)) =~= map_of(s).insert(p.0@, p.1@),
    decreases s.len(),
{
    let t = s.update(i, p);
    if i == s.len() - 1 {
        assert(t.drop_last() =~= s.drop_last());
    } else {
        assert(t.drop_last() =~= s.drop_last().update(i, p));
        assert(t.last() == s.last());
        lemma_map_of_update(s.drop_last(), i, p);
        // the final inserts commute since the keys differ
        assert(s.last().0@ != p.0@);
    }
}

/// Concurrently shared map from backend label to its detailed health
/// record; in the running system one lock guards it, and only the health
/// loop writes it.
pub struct HealthState {
    statuses: Vec<(String, BackendHealthStatus)>,
}

impl View for HealthState {
    type V = Map<Seq<char>, StatusModel>;

    closed spec fn view(&self) -> Map<Seq<char>, StatusModel> {
        map_of(self.statuses@)
    }
}

impl HealthState {
    /// Labels in the backing list are unique, so lookups are unambiguous.
    pub closed spec fn wf(&self) -> bool {
        labels_unique(self.statuses@)
    }

    fn find_index(&self, label: &String) -> (r: Option<usize>)
        ensures
            match r {
                Some(i) => i < self.statuses@.len() && self.statuses@[i as int].0@ == label@,
                None => forall|i: int| 0 <= i < self.statuses@.len() ==> self.statuses@[i].0@ != label@,
            },
    {
        let mut i: usize = 0;
        while i < self.statuses.len()
            invariant
                i <= self.statuses@.len(),
                forall|j: int| 0 <= j < i ==> self.statuses@[j].0@ != label@,
            decreases self.statuses@.len() - i,
        {
            if self.statuses[i].0 == *label {
                return Some(i);
            }
            i = i + 1;
        }
        None
    }

    /// One fresh record per distinct label; a repeated label is kept once.
    pub fn new(backend_labels: Vec<String>) -> (r: Self)
        ensures
            r.wf(),
            forall|i: int| 0 <= i < backend_labels@.len() ==> r@.contains_key(#[trigger] backend_labels@[i]@),
            forall|k: Seq<char>| r@.contains_key(k) ==> r@[k] == fresh_status(),
            forall|k: Seq<char>| r@.contains_key(k) ==> exists|i: int| 0 <= i < backend_labels@.len() && #[trigger] backend_labels@[i]@ == k,
    {
        let mut hs = HealthState { statuses: Vec::new() };
        let mut i: usize = 0;
        while i < backend_labels.len()
            invariant
                i <= backend_labels@.len(),
                hs.wf(),
                forall|j: int| 0 <= j < i ==> hs@.contains_key(#[trigger] backend_labels@[j]@),
                forall|k: Seq<char>| hs@.contains_key(k) ==> hs@[k] == fresh_status(),
                forall|k: Seq<char>| hs@.contains_key(k) ==> exists|j: int| 0 <= j < i && #[trigger] backend_labels@[j]@ == k,
            decreases backend_labels@.len() - i,
        {
            let label = &backend_labels[i];
            match hs.find_index(label) {
                Some(idx) => {
                    proof {
                        lemma_map_of_present(hs.statuses@, idx as int);
                        assert(hs@.contains_key(label@));
                    }
                }
                None => {
                    proof {
                        lemma_map_of_absent(hs.statuses@, label@);
                    }
                    let ghost before = hs.statuses@;
                    let ghost before_map = hs@;
                    hs.statuses.push((label.clone(), BackendHealthStatus::default()));
                    proof {
                        assert(hs.statuses@.drop_last() =~= before);
                        assert(hs.statuses@.last().0@ == label@);
                        assert(hs.statuses@.last().1@ == fresh_status());
                        assert(hs@ =~= before_map.insert(label@, fresh_status()));
                        assert forall|x: int, y: int| 0 <= x < y < hs.statuses@.len() implies hs.statuses@[x].0@ != hs.statuses@[y].0@ by {
                            if y == hs.statuses@.len() - 1 {
                                assert(hs.statuses@[x] == before[x]);
                            } else {
                                assert(hs.statuses@[x] == before[x]);
                                assert(hs.statuses@[y] == before[y]);
                            }
                        }
                        assert(hs@.contains_key(label@));
                    }
                }
            }
            i = i + 1;
        }
        hs
    }

    /// The current record for a label, if any.
    pub fn get_status(&self, label: &String) -> (r: Option<BackendHealthStatus>)
        requires
            self.wf(),
        ensures
            match r {
                Some(st) => self@.contains_key(label@) && st@ == self@[label@],
                None => !self@.contains_key(label@),
            },
    {
        match self.find_index(label) {
            Some(i) => {
                proof {
                    lemma_map_of_present(self.statuses@, i as int);
                }
                Some(self.statuses[i].1.duplicate())
            }
            None => {
                proof {
                    lemma_map_of_absent(self.statuses@, label@);
                }
                None
            }
        }
    }

    /// Upsert: a label absent at construction time (e.g. added by a
    /// hot-reload) is inserted rather than rejected.
    pub fn update_status(&mut self, label: &String, status: BackendHealthStatus)
        requires
            old(self).wf(),
        ensures
            final(self).wf(),
            final(self)@ =~= old(self)@.insert(label@, status@),
    {
        match self.find_index(label) {
            Some(i) => {
                let ghost before = self.statuses@;
                let ghost p = (self.statuses@[i as int].0, status);
                let pair = &mut self.statuses[i];
                pair.1 = status;
                proof {
                    assert(self.statuses@ =~= before.update(i as int, p));
                    lemma_map_of_update(before, i as int, p);
                }
            }
            None => {
                proof {
                    lemma_map_of_absent(self.statuses@, label@);
                }
                let ghost before = self.statuses@;
                self.statuses.push((label.clone(), status));
                proof {
                    assert(self.statuses@.drop_last() =~= before);
                }
            }
        }
    }

    /// A snapshot of every backend's record, for observability.
    pub fn get_all_statuses(&self) -> (r: Vec<(String, BackendHealthStatus)>)
        requires
            self.wf(),
        ensures
            labels_unique(r@),
            map_of(r@) == self@,
    {
        let mut out: Vec<(String, BackendHealthStatus)> = Vec::new();
        let mut i: usize = 0;
        while i < self.statuses.len()
            invariant
                i <= self.statuses@.len(),
                out@.len() == i,
                forall|j: int| 0 <= j < i ==> out@[j].0@ == self.statuses@[j].0@ && out@[j].1@ == self.statuses@[j].1@,
            decreases self.statuses@.len() - i,
        {
            let entry = &self.statuses[i];
            out.push((entry.0.clone(), entry.1.duplicate()));
            i = i + 1;
        }
        proof {
            lemma_map_of_congruent(out@, self.statuses@);
        }
        out
    }
}

proof fn lemma_map_of_congruent(a: Seq<(String, BackendHealthStatus)>, b: Seq<(String, BackendHealthStatus)>)
    requires
        a.len() == b.len(),
        forall|i: int| 0 <= i < a.len() ==> a[i].0@ == b[i].0@ && a[i].1@ == b[i].1@,
    ensures
        map_of(a) == map_of(b),
    decreases a.len(),
{
    if a.len() > 0 {
        lemma_map_of_congruent(a.drop_last(), b.drop_last());
        assert(map_of(a) =~= map_of(b));
    }
}

} // verus!

use crate::config::HealthCheckConfig;
use vstd::string::StringExecFns;

verus! {

/// The decimal rendering of a nonnegative integer.
pub open spec fn dec_str(v: int) -> Seq<char>
    decreases v,
{
    let d = digit_char(v % 10);
    if v < 10 {
        seq![d]
    } else {
        dec_str(v / 10).push(d)
    }
}

pub open spec fn digit_char(d: int) -> char {
    if d == 0 { '0' }
    else if d == 1 { '1' }
    else if d == 2 { '2' }
    else if d == 3 { '3' }
    else if d == 4 { '4' }
    else if d == 5 { '5' }
    else if d == 6 { '6' }
    else if d == 7 { '7' }
    else if d == 8 { '8' }
    else { '9' }
}

/// Relies on core::fmt's Display for u64: the decimal digits of the value,
/// no sign and no padding.
#[verifier::external_body]
fn u64_to_string(v: u64) -> (r: String)
    ensures
        r@ == dec_str(v as int),
{
    format!("{}", v)
}

/// A backend counts as lagging when it reported a height and some backend
/// reported one more than `max_lag` above it.
pub open spec fn spec_lagging(slot: Option<u64>, max_slot: Option<u64>, max_lag: u64) -> bool {
    match (slot, max_slot) {
        (Some(s), Some(m)) => m > s && m - s > max_lag,
        _ => false,
    }
}

/// The `last_error` recorded for a lagging backend.
pub open spec fn lag_message(slot: u64, max: u64) -> Seq<char> {
    "Backend lagging: slot "@ + dec_str(slot as int) + " is "@ + dec_str(max - slot)
        + " behind max "@ + dec_str(max as int)
}

/// One probe's outcome as the state machine sees it: `Ok(Some(h))` a reported
/// height, `Ok(None)` success without a height, `Err` a failed probe.
pub open spec fn result_view(r: Result<Option<u64>, String>) -> Result<Option<u64>, Seq<char>> {
    match r {
        Ok(v) => Ok(v),
        Err(e) => Err(e@),
    }
}

pub open spec fn saturating_inc(c: u32) -> u32 {
    if c < u32::MAX { (c + 1) as u32 } else { u32::MAX }
}

/// The hysteresis step: what one probe outcome does to a backend's record,
/// given the cycle's consensus tip `max_slot` and the configured thresholds.
pub open spec fn spec_apply_probe(
    st: StatusModel,
    result: Result<Option<u64>, Seq<char>>,
    max_slot: Option<u64>,
    cfg: HealthCheckConfig,
    now: u64,
) -> StatusModel {
    match result {
        Ok(slot_opt) => {
            if spec_lagging(slot_opt, max_slot, cfg.max_slot_lag) {
                let cf = saturating_inc(st.consecutive_failures);
                StatusModel {
                    healthy: st.healthy && cf < cfg.consecutive_failures_threshold,
                    last_check_time: Some(now),
                    consecutive_failures: cf,
                    consecutive_successes: 0,
                    last_error: Some(lag_message(slot_opt.unwrap(), max_slot.unwrap())),
                }
            } else {
                let cs = saturating_inc(st.consecutive_successes);
                StatusModel {
                    healthy: st.healthy || cs >= cfg.consecutive_successes_threshold,
                    last_check_time: Some(now),
                    consecutive_failures: 0,
                    consecutive_successes: cs,
                    last_error: None,
                }
            }
        }
        Err(e) => {
            let cf = saturating_inc(st.consecutive_failures);
            StatusModel {
                healthy: st.healthy && cf < cfg.consecutive_failures_threshold,
                last_check_time: Some(now),
                consecutive_failures: cf,
                consecutive_successes: 0,
                last_error: Some(e),
            }
        }
    }
}

/// Applies one probe outcome to a backend's record.
///
/// The record never holds both counters non-zero, and the health flag only
/// flips once the matching counter reaches its threshold.
pub fn apply_probe_result(
    status: &BackendHealthStatus,
    result: &Result<Option<u64>, String>,
    max_slot: Option<u64>,
    config: &HealthCheckConfig,
    now: u64,
) -> (r: BackendHealthStatus)
    ensures
        r@ == spec_apply_probe(status@, result_view(*result), max_slot, *config, now),
        r@.consecutive_failures == 0 || r@.consecutive_successes == 0,
        status@.healthy && !r@.healthy ==> r@.consecutive_failures >= config.consecutive_failures_threshold,
        !status@.healthy && r@.healthy ==> r@.consecutive_successes >= config.consecutive_successes_threshold,
        r@.last_check_time == Some(now),
{
    match result {
        Ok(slot_opt) => {
            let lagging: bool = match (slot_opt, max_slot) {
                (Some(s), Some(m)) => m > *s && m - *s > config.max_slot_lag,
                _ => false,
            };
            if lagging {
                let slot = match slot_opt {
                    Some(s) => *s,
                    None => 0,
                };
                let max = match max_slot {
                    Some(m) => m,
                    None => 0,
                };
                let cf = if status.consecutive_failures < u32::MAX {
                    status.consecutive_failures + 1
                } else {
                    u32::MAX
                };
                let mut msg = String::from_str("Backend lagging: slot ");
                msg.append(u64_to_string(slot).as_str());
                msg.append(" is ");
                msg.append(u64_to_string(max - slot).as_str());
                msg.append(" behind max ");
                msg.append(u64_to_string(max).as_str());
                BackendHealthStatus {
                    healthy: status.healthy && cf < config.consecutive_failures_threshold,
                    last_check_time: Some(now),
                    consecutive_failures: cf,
                    consecutive_successes: 0,
                    last_error: Some(msg),
                }
            } else {
                let cs = if status.consecutive_successes < u32::MAX {
                    status.consecutive_successes + 1
                } else {
                    u32::MAX
                };
                BackendHealthStatus {
                    healthy: status.healthy || cs >= config.consecutive_successes_threshold,
                    last_check_time: Some(now),
                    consecutive_failures: 0,
                    consecutive_successes: cs,
                    last_error: None,
                }
            }
        }
        Err(e) => {
            let cf = if status.consecutive_failures < u32::MAX {
                status.consecutive_failures + 1
            } else {
                u32::MAX
            };
            BackendHealthStatus {
                healthy: status.healthy && cf < config.consecutive_failures_threshold,
                last_check_time: Some(now),
                consecutive_failures: cf,
                consecutive_successes: 0,
                last_error: Some(e.clone()),
            }
        }
    }
}

/// Every hysteresis step resets one of the two counters: after any update
/// `consecutive_failures` and `consecutive_successes` are never both
/// non-zero.
pub proof fn lemma_counters_exclusive(
    st: StatusModel,
    result: Result<Option<u64>, Seq<char>>,
    max_slot: Option<u64>,
    cfg: HealthCheckConfig,
    now: u64,
)
    ensures
        ({
            let r = spec_apply_probe(st, result, max_slot, cfg, now);
            r.consecutive_failures == 0 || r.consecutive_successes == 0
        }),
{
}

/// The health flag only flips at a threshold: a step that turns a healthy
/// record unhealthy has accumulated at least the failure threshold, and a
/// step that turns an unhealthy record healthy at least the success
/// threshold; a single probe below threshold never flips it.
pub proof fn lemma_flip_needs_threshold(
    st: StatusModel,
    result: Result<Option<u64>, Seq<char>>,
    max_slot: Option<u64>,
    cfg: HealthCheckConfig,
    now: u64,
)
    ensures
        ({
            let r = spec_apply_probe(st, result, max_slot, cfg, now);
            &&& (st.healthy && !r.healthy ==> r.consecutive_failures >= cfg.consecutive_failures_threshold)
            &&& (!st.healthy && r.healthy ==> r.consecutive_successes >= cfg.consecutive_successes_threshold)
        }),
{
}

/// The views of the probe outcomes in a cycle's result list.
pub open spec fn probe_results_view(s: Seq<(String, Result<Option<u64>, String>)>) -> Seq<Result<Option<u64>, Seq<char>>> {
    s.map_values(|p: (String, Result<Option<u64>, String>)| result_view(p.1))
}

/// The consensus tip: the largest height any probe reported, if any did.
pub open spec fn spec_max_slot(rs: Seq<Result<Option<u64>, Seq<char>>>) -> Option<u64>
    decreases rs.len(),
{
    if rs.len() == 0 {
        None
    } else {
        let rest = spec_max_slot(rs.drop_last());
        match rs.last() {
            Ok(slot_opt) => match (slot_opt, rest) {
                (Some(v), Some(m)) => if v > m { Some(v) } else { Some(m) },
                (Some(v), None) => Some(v),
                (None, r) => r,
            },
            Err(_) => rest,
        }
    }
}

/// The largest height reported by any probe this cycle; `None` when no
/// probe reported one.
#[verifier::loop_isolation(false)]
pub fn max_reported_slot(results: &Vec<(String, Result<Option<u64>, String>)>) -> (r: Option<u64>)
    ensures
        r == spec_max_slot(probe_results_view(results@)),
{
    let ghost view = probe_results_view(results@);
    let mut acc: Option<u64> = None;
    let mut i: usize = 0;
    while i < results.len()
        invariant
            i <= results@.len(),
            acc == spec_max_slot(view.take(i as int)),
        decreases results@.len() - i,
    {
        match &results[i].1 {
            Ok(Some(v)) => {
                acc = match acc {
                    Some(m) => if *v > m { Some(*v) } else { Some(m) },
                    None => Some(*v),
                };
            }
            _ => {}
        }
        proof {
            assert(view.take(i + 1).drop_last() =~= view.take(i as int));
            assert(view.take(i + 1).last() == view[i as int]);
        }
        i = i + 1;
    }
    proof {
        assert(view.take(results@.len() as int) =~= view);
    }
    acc
}

/// The height the probe at index `i` reported, if it reported one.
pub open spec fn reported(rs: Seq<Result<Option<u64>, Seq<char>>>, i: int) -> Option<u64> {
    match rs[i] {
        Ok(Some(v)) => Some(v),
        _ => None,
    }
}

/// The consensus tip is the greatest height any probe reported this cycle:
/// when some probe reported one, `spec_max_slot` equals a reported height
/// and no reported height exceeds it; when none did, it is `None`.
pub proof fn lemma_max_slot_is_max(rs: Seq<Result<Option<u64>, Seq<char>>>)
    ensures
        match spec_max_slot(rs) {
            Some(m) => (exists|i: int| 0 <= i < rs.len() && #[trigger] reported(rs, i) == Some(m))
                && (forall|i: int| 0 <= i < rs.len() ==> match #[trigger] reported(rs, i) {
                    Some(v) => v <= m,
                    None => true,
                }),
            None => forall|i: int| 0 <= i < rs.len() ==> #[trigger] reported(rs, i) is None,
        },
    decreases rs.len(),
{
    if rs.len() > 0 {
        let prefix = rs.drop_last();
        lemma_max_slot_is_max(prefix);
        assert(forall|i: int| 0 <= i < prefix.len() ==> #[trigger] reported(prefix, i) == reported(rs, i));
        let rest = spec_max_slot(prefix);
        match spec_max_slot(rs) {
            Some(m) => {
                if reported(rs, rs.len() - 1) == Some(m) {
                } else {
                    assert(rest == Some(m));
                    let w = choose|i: int| 0 <= i < prefix.len() && #[trigger] reported(prefix, i) == Some(m);
                    assert(reported(rs, w) == Some(m));
                }
                assert forall|i: int| 0 <= i < rs.len() implies match #[trigger] reported(rs, i) {
                    Some(v) => v <= m,
                    None => true,
                } by {
                    if i < rs.len() - 1 {
                        assert(reported(rs, i) == reported(prefix, i));
                        match reported(prefix, i) {
                            Some(v) => {
                                match rest {
                                    Some(mr) => {
                                        assert(v <= mr);
                                        assert(mr <= m);
                                    }
                                    None => {
                                        assert(reported(prefix, i) is None);
                                    }
                                }
                            }
                            None => {}
                        }
                    }
                }
            }
            None => {
                assert forall|i: int| 0 <= i < rs.len() implies #[trigger] reported(rs, i) is None by {
                    if i < rs.len() - 1 {
                        assert(reported(rs, i) == reported(prefix, i));
                    }
                }
            }
        }
    }
}

/// What the record stored for `label` is before a cycle touches it.
pub open spec fn pre_status(m: Map<Seq<char>, StatusModel>, label: Seq<char>) -> StatusModel {
    if m.contains_key(label) {
        m[label]
    } else {
        fresh_status()
    }
}

/// The record one cycle leaves for the backend at index `i` of its results.
pub open spec fn cycle_outcome(
    pre: Map<Seq<char>, StatusModel>,
    results: Seq<(String, Result<Option<u64>, String>)>,
    cfg: HealthCheckConfig,
    now: u64,
    i: int,
) -> StatusModel {
    spec_apply_probe(
        pre_status(pre, results[i].0@),
        result_view(results[i].1),
        spec_max_slot(probe_results_view(results)),
        cfg,
        now,
    )
}

pub open spec fn label_in(results: Seq<(String, Result<Option<u64>, String>)>, k: Seq<char>) -> bool {
    exists|i: int| 0 <= i < results.len() && results[i].0@ == k
}

/// One health-check cycle's bookkeeping: every probed backend's record is
/// stepped through the hysteresis machine against the same consensus tip,
/// and the returned flags mirror the new health of each, in result order.
/// Backends not probed this cycle keep their records.
#[verifier::loop_isolation(false)]
pub fn run_health_cycle(
    health: &mut HealthState,
    results: &Vec<(String, Result<Option<u64>, String>)>,
    config: &HealthCheckConfig,
    now: u64,
) -> (flags: Vec<bool>)
    requires
        old(health).wf(),
        forall|i: int, j: int| 0 <= i < j < results@.len() ==> results@[i].0@ != results@[j].0@,
    ensures
        final(health).wf(),
        flags@.len() == results@.len(),
        forall|i: int| 0 <= i < results@.len() ==> {
            &&& final(health)@.contains_key((#[trigger] results@[i]).0@)
            &&& final(health)@[results@[i].0@] == cycle_outcome(old(health)@, results@, *config, now, i)
            &&& flags@[i] == cycle_outcome(old(health)@, results@, *config, now, i).healthy
        },
        forall|k: Seq<char>| #[trigger] old(health)@.contains_key(k) && !label_in(results@, k)
            ==> final(health)@.contains_key(k) && final(health)@[k] == old(health)@[k],
        forall|k: Seq<char>| #[trigger] final(health)@.contains_key(k)
            ==> old(health)@.contains_key(k) || label_in(results@, k),
{
    let max_slot = max_reported_slot(results);
    let mut flags: Vec<bool> = Vec::new();
    let mut i: usize = 0;
    while i < results.len()
        invariant
            i <= results@.len(),
            health.wf(),
            flags@.len() == i,
            forall|j: int| 0 <= j < i ==> {
                &&& health@.contains_key((#[trigger] results@[j]).0@)
                &&& health@[results@[j].0@] == cycle_outcome(old(health)@, results@, *config, now, j)
                &&& flags@[j] == cycle_outcome(old(health)@, results@, *config, now, j).healthy
            },
            forall|j: int| i <= j < results@.len() ==> {
                &&& (health@.contains_key((#[trigger] results@[j]).0@) <==> old(health)@.contains_key(results@[j].0@))
                &&& (health@.contains_key(results@[j].0@) ==> health@[results@[j].0@] == old(health)@[results@[j].0@])
            },
            forall|k: Seq<char>| #[trigger] old(health)@.contains_key(k) && !label_in(results@, k)
                ==> health@.contains_key(k) && health@[k] == old(health)@[k],
            forall|k: Seq<char>| #[trigger] health@.contains_key(k)
                ==> old(health)@.contains_key(k) || label_in(results@, k),
        decreases results@.len() - i,
    {
        let label = &results[i].0;
        let prev = match health.get_status(label) {
            Some(st) => st,
            None => BackendHealthStatus::default(),
        };
        let next = apply_probe_result(&prev, &results[i].1, max_slot, config, now);
        proof {
            assert(prev@ == pre_status(old(health)@, label@));
            assert(next@ == cycle_outcome(old(health)@, results@, *config, now, i as int));
            assert(label_in(results@, label@));
        }
        flags.push(next.healthy);
        health.update_status(label, next);
        i = i + 1;
    }
    flags
}

} // verus!
