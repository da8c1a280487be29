use vstd::prelude::*;
use crate::config::{Backend, HealthCheckConfig};
use crate::manager::{health_updated, RouterManager};
use crate::name_map::{lemma_pairs_lookup, NameMap};
use crate::net::Endpoint;
use crate::text::join3;

verus! {

/// What the checker knows of one backend.  Times are milliseconds on the
/// checker's clock; a response time is in milliseconds too.
pub struct BackendHealthState {
    pub backend_id: String,
    pub rule_name: String,
    pub address: Endpoint,
    pub healthy: bool,
    pub consecutive_failures: u32,
    pub consecutive_successes: u32,
    pub last_check: Option<u64>,
    pub last_success: Option<u64>,
    pub last_failure: Option<u64>,
    pub response_time: Option<u64>,
}

/// The mathematical value of a backend's health state.
pub struct BackendHealthView {
    pub backend_id: Seq<char>,
    pub rule_name: Seq<char>,
    pub address: Endpoint,
    pub healthy: bool,
    pub consecutive_failures: u32,
    pub consecutive_successes: u32,
    pub last_check: Option<u64>,
    pub last_success: Option<u64>,
    pub last_failure: Option<u64>,
    pub response_time: Option<u64>,
}

impl View for BackendHealthState {
    type V = BackendHealthView;

    open spec fn view(&self) -> BackendHealthView {
        BackendHealthView {
            backend_id: self.backend_id@,
            rule_name: self.rule_name@,
            address: self.address,
            healthy: self.healthy,
            consecutive_failures: self.consecutive_failures,
            consecutive_successes: self.consecutive_successes,
            last_check: self.last_check,
            last_success: self.last_success,
            last_failure: self.last_failure,
            response_time: self.response_time,
        }
    }
}

impl Clone for BackendHealthState {
    fn clone(&self) -> (r: Self)
        ensures
            r@ == self@,
    {
        BackendHealthState {
            backend_id: self.backend_id.clone(),
            rule_name: self.rule_name.clone(),
            address: self.address,
            healthy: self.healthy,
            consecutive_failures: self.consecutive_failures,
            consecutive_successes: self.consecutive_successes,
            last_check: self.last_check,
            last_success: self.last_success,
            last_failure: self.last_failure,
            response_time: self.response_time,
        }
    }
}

impl BackendHealthState {
    pub fn is_healthy(&self) -> (r: bool)
        ensures
            r == self.healthy,
    {
        self.healthy
    }

    pub fn get_response_time(&self) -> (r: Option<u64>)
        ensures
            r == self.response_time,
    {
        self.response_time
    }

    pub fn get_consecutive_failures(&self) -> (r: u32)
        ensures
            r == self.consecutive_failures,
    {
        self.consecutive_failures
    }

    pub fn get_consecutive_successes(&self) -> (r: u32)
        ensures
            r == self.consecutive_successes,
    {
        self.consecutive_successes
    }
}

/// One more, staying at the largest `u32`.
pub open spec fn count_up(x: u32) -> u32 {
    if x == u32::MAX {
        x
    } else {
        (x + 1) as u32
    }
}

fn count_up_exec(x: u32) -> (r: u32)
    ensures
        r == count_up(x),
{
    if x == u32::MAX {
        x
    } else {
        x + 1
    }
}

/// The state after a check at time `now` that succeeded with the response
/// time `outcome` holds, or failed when it holds nothing.  A success counts
/// one more success in a row, clears the failures, and makes the backend
/// healthy once the successes in a row reach the success threshold; a failure
/// does the same the other way round with the failure threshold.  The counts
/// stop at the largest `u32`.
pub open spec fn checked(s: BackendHealthView, cfg: HealthCheckConfig, outcome: Option<u64>, now: u64) -> BackendHealthView {
    match outcome {
        Some(rt) => {
            let successes = count_up(s.consecutive_successes);
            BackendHealthView {
                healthy: s.healthy || successes >= cfg.success_threshold,
                consecutive_successes: successes,
                consecutive_failures: 0,
                last_check: Some(now),
                last_success: Some(now),
                response_time: Some(rt),
                ..s
            }
        },
        None => {
            let failures = count_up(s.consecutive_failures);
            BackendHealthView {
                healthy: s.healthy && failures < cfg.failure_threshold,
                consecutive_failures: failures,
                consecutive_successes: 0,
                last_check: Some(now),
                last_failure: Some(now),
                ..s
            }
        },
    }
}

/// The state after `k` failed checks at time `now`.
pub open spec fn after_failures(s: BackendHealthView, cfg: HealthCheckConfig, k: nat, now: u64) -> BackendHealthView
    decreases k,
{
    if k == 0 {
        s
    } else {
        checked(after_failures(s, cfg, (k - 1) as nat, now), cfg, None, now)
    }
}

/// The state after `k` successful checks at time `now`, each answered in `rt`.
pub open spec fn after_successes(s: BackendHealthView, cfg: HealthCheckConfig, k: nat, rt: u64, now: u64) -> BackendHealthView
    decreases k,
{
    if k == 0 {
        s
    } else {
        checked(after_successes(s, cfg, (k - 1) as nat, rt, now), cfg, Some(rt), now)
    }
}

/// A healthy backend with no failures in a row stays healthy through failed
/// checks until their number reaches the failure threshold, and is unhealthy
/// from then on.
pub proof fn lemma_failures_reach_threshold(s: BackendHealthView, cfg: HealthCheckConfig, k: nat, now: u64)
    requires
        s.healthy,
        s.consecutive_failures == 0,
        1 <= k < u32::MAX,
    ensures
        after_failures(s, cfg, k, now).consecutive_failures == k,
        after_failures(s, cfg, k, now).healthy == (k < cfg.failure_threshold),
    decreases k,
{
    let prev = after_failures(s, cfg, (k - 1) as nat, now);
    if k > 1 {
        lemma_failures_reach_threshold(s, cfg, (k - 1) as nat, now);
    } else {
        assert(prev == s);
    }
    assert(after_failures(s, cfg, k, now) == checked(prev, cfg, None, now));
}

/// An unhealthy backend with no successes in a row stays unhealthy through
/// successful checks until their number reaches the success threshold, and is
/// healthy from then on.
pub proof fn lemma_successes_reach_threshold(s: BackendHealthView, cfg: HealthCheckConfig, k: nat, rt: u64, now: u64)
    requires
        !s.healthy,
        s.consecutive_successes == 0,
        1 <= k < u32::MAX,
    ensures
        after_successes(s, cfg, k, rt, now).consecutive_successes == k,
        after_successes(s, cfg, k, rt, now).healthy == (k >= cfg.success_threshold),
    decreases k,
{
    let prev = after_successes(s, cfg, (k - 1) as nat, rt, now);
    if k > 1 {
        lemma_successes_reach_threshold(s, cfg, (k - 1) as nat, rt, now);
    } else {
        assert(prev == s);
    }
    assert(after_successes(s, cfg, k, rt, now) == checked(prev, cfg, Some(rt), now));
}

/// The number of failed checks at the end of a run of outcomes, after its
/// last success.
pub open spec fn failed_at_end(outcomes: Seq<Option<u64>>) -> nat
    decreases outcomes.len(),
{
    if outcomes.len() == 0 {
        0
    } else if outcomes.last() is None {
        failed_at_end(outcomes.drop_last()) + 1
    } else {
        0
    }
}

/// A run of checks: each state is the one before after a check with the
/// given outcome at the given time.
pub open spec fn check_run(
    states: Seq<BackendHealthView>,
    cfg: HealthCheckConfig,
    outcomes: Seq<Option<u64>>,
    times: Seq<u64>,
) -> bool {
    &&& states.len() == outcomes.len() + 1
    &&& times.len() == outcomes.len()
    &&& forall|i: int| 0 <= i < outcomes.len() ==> #[trigger] states[i + 1] == checked(states[i], cfg, outcomes[i], times[i])
}

proof fn lemma_failure_count_at_end(
    states: Seq<BackendHealthView>,
    cfg: HealthCheckConfig,
    outcomes: Seq<Option<u64>>,
    times: Seq<u64>,
)
    requires
        check_run(states, cfg, outcomes, times),
        outcomes.len() < u32::MAX,
        states[0].consecutive_failures == 0,
    ensures
        states.last().consecutive_failures == failed_at_end(outcomes),
    decreases outcomes.len(),
{
    if outcomes.len() > 0 {
        let n = outcomes.len() - 1;
        let st = states.drop_last();
        let oc = outcomes.drop_last();
        let tm = times.drop_last();
        assert forall|i: int| 0 <= i < oc.len() implies #[trigger] st[i + 1] == checked(st[i], cfg, oc[i], tm[i]) by {
            assert(states[i + 1] == checked(states[i], cfg, outcomes[i], times[i]));
        }
        lemma_failure_count_at_end(st, cfg, oc, tm);
        assert(st.last() == states[n]);
        assert(states[n + 1] == checked(states[n], cfg, outcomes[n], times[n]));
        assert(failed_at_end(oc) <= oc.len()) by {
            lemma_failed_at_end_bound(oc);
        }
    }
}

proof fn lemma_failed_at_end_bound(outcomes: Seq<Option<u64>>)
    ensures
        failed_at_end(outcomes) <= outcomes.len(),
    decreases outcomes.len(),
{
    if outcomes.len() > 0 {
        lemma_failed_at_end_bound(outcomes.drop_last());
    }
}

/// Over a run of checks from a state with no failures in a row (as a backend
/// starts): after each check the failures in a row are exactly the failed
/// checks since the last successful one, so a success clears them; and a
/// healthy backend turns unhealthy only at a failed check that ends a run of
/// at least the failure threshold of failed checks with no success between
/// them.
pub proof fn lemma_failures_in_a_row(
    states: Seq<BackendHealthView>,
    cfg: HealthCheckConfig,
    outcomes: Seq<Option<u64>>,
    times: Seq<u64>,
)
    requires
        check_run(states, cfg, outcomes, times),
        outcomes.len() < u32::MAX,
        states[0].consecutive_failures == 0,
    ensures
        forall|k: int| 0 <= k <= outcomes.len() ==> (#[trigger] states[k]).consecutive_failures == failed_at_end(outcomes.take(k)),
        forall|k: int| 0 <= k < outcomes.len() && (#[trigger] outcomes[k]) is Some ==> states[k + 1].consecutive_failures == 0,
        forall|k: int|
            0 <= k < outcomes.len() && states[k].healthy && !(#[trigger] states[k + 1]).healthy ==> outcomes[k] is None
                && failed_at_end(outcomes.take(k + 1)) >= cfg.failure_threshold,
{
    assert forall|k: int| 0 <= k <= outcomes.len() implies (#[trigger] states[k]).consecutive_failures == failed_at_end(
        outcomes.take(k),
    ) by {
        let st = states.take(k + 1);
        let oc = outcomes.take(k);
        let tm = times.take(k);
        assert forall|i: int| 0 <= i < oc.len() implies #[trigger] st[i + 1] == checked(st[i], cfg, oc[i], tm[i]) by {
            assert(states[i + 1] == checked(states[i], cfg, outcomes[i], times[i]));
        }
        lemma_failure_count_at_end(st, cfg, oc, tm);
        assert(st.last() == states[k]);
    }
    assert forall|k: int| 0 <= k < outcomes.len() && (#[trigger] outcomes[k]) is Some implies states[k
        + 1].consecutive_failures == 0 by {
        assert(states[k + 1] == checked(states[k], cfg, outcomes[k], times[k]));
    }
    assert forall|k: int|
        0 <= k < outcomes.len() && states[k].healthy && !(#[trigger] states[k + 1]).healthy implies outcomes[k] is None
            && failed_at_end(outcomes.take(k + 1)) >= cfg.failure_threshold by {
        assert(states[k + 1] == checked(states[k], cfg, outcomes[k], times[k]));
        assert(states[k + 1].consecutive_failures == failed_at_end(outcomes.take(k + 1)));
    }
}

/// Whether a check changes the backend's health.
pub open spec fn health_flips(s: BackendHealthView, cfg: HealthCheckConfig, outcome: Option<u64>) -> bool {
    checked(s, cfg, outcome, 0).healthy != s.healthy
}

/// The key under which a backend of a rule is kept: the rule's name, a colon,
/// and the backend's id.
pub open spec fn state_key(rule: Seq<char>, id: Seq<char>) -> Seq<char> {
    rule + ":"@ + id
}

/// The number of healthy states.
pub open spec fn healthy_total(s: Seq<BackendHealthView>) -> nat
    decreases s.len(),
{
    if s.len() == 0 {
        0
    } else {
        healthy_total(s.drop_last()) + if s.last().healthy {
            1nat
        } else {
            0nat
        }
    }
}

/// The number of states with a response time.
pub open spec fn response_count(s: Seq<BackendHealthView>) -> nat
    decreases s.len(),
{
    if s.len() == 0 {
        0
    } else {
        response_count(s.drop_last()) + if s.last().response_time is Some {
            1nat
        } else {
            0nat
        }
    }
}

/// The sum of the response times there are.
pub open spec fn response_sum(s: Seq<BackendHealthView>) -> nat
    decreases s.len(),
{
    if s.len() == 0 {
        0
    } else {
        response_sum(s.drop_last()) + match s.last().response_time {
            Some(t) => t as nat,
            None => 0nat,
        }
    }
}

/// The latest time of a check, if any was made.
pub open spec fn latest_check(s: Seq<BackendHealthView>) -> Option<u64>
    decreases s.len(),
{
    if s.len() == 0 {
        None
    } else {
        let before = latest_check(s.drop_last());
        match s.last().last_check {
            None => before,
            Some(t) => match before {
                Some(b) => if b >= t {
                    Some(b)
                } else {
                    Some(t)
                },
                None => Some(t),
            },
        }
    }
}

/// Counts over the checked backends.  Times are milliseconds on the checker's
/// clock, as in `BackendHealthState`.
#[derive(Debug, Clone, Copy, PartialEq, Eq, Structural)]
pub struct HealthCheckStats {
    pub total_backends: usize,
    pub healthy_backends: usize,
    pub unhealthy_backends: usize,
    /// The mean response time over the backends that have one, rounded down
    /// (zero when none has).
    pub avg_response_time: u64,
    pub last_check: Option<u64>,
}

/// What a check does after its latest connection attempt.
#[derive(Clone, Copy, Debug, PartialEq, Eq, Structural)]
pub enum ProbeStep {
    /// Make one more connection attempt.
    ProbeAgain,
    /// The check is over: record this outcome (`Some` of the response time on
    /// success, `None` on failure).
    Record(Option<u64>),
}

/// The next step of a check after `attempts` connection attempts, of which
/// the latest gave `last` (`None` also before the first attempt): a success
/// ends the check; a failure leads to another attempt while fewer than
/// `retries` were made, and otherwise ends the check as failed.
pub open spec fn probe_step(attempts: u32, retries: u32, last: Option<u64>) -> ProbeStep {
    match last {
        Some(t) => ProbeStep::Record(Some(t)),
        None => if attempts < retries {
            ProbeStep::ProbeAgain
        } else {
            ProbeStep::Record(None)
        },
    }
}

/// The next step of a check (see `probe_step`).
pub fn next_probe(attempts: u32, retries: u32, last: Option<u64>) -> (r: ProbeStep)
    ensures
        r == probe_step(attempts, retries, last),
{
    match last {
        Some(t) => ProbeStep::Record(Some(t)),
        None => if attempts < retries {
            ProbeStep::ProbeAgain
        } else {
            ProbeStep::Record(None)
        },
    }
}

/// Keeps the health of each backend, updated check by check, and tells the
/// router manager when a backend's health changes.
pub struct HealthChecker {
    config: HealthCheckConfig,
    states: NameMap<BackendHealthState>,
    running: bool,
}

impl HealthChecker {
    pub closed spec fn wf(self) -> bool {
        self.states.wf()
    }

    pub closed spec fn spec_config(self) -> HealthCheckConfig {
        self.config
    }

    pub closed spec fn spec_running(self) -> bool {
        self.running
    }

    /// The states by key (see `state_key`).
    pub closed spec fn spec_states(self) -> Map<Seq<char>, BackendHealthView> {
        self.states@.map_values(|s: BackendHealthState| s@)
    }

    /// The keys in the order they were first added.
    pub closed spec fn spec_keys(self) -> Seq<Seq<char>> {
        self.states.names()
    }

    /// The states in the order their keys were first added.
    pub closed spec fn spec_state_list(self) -> Seq<BackendHealthView> {
        self.states.pairs().map_values(|p: (Seq<char>, BackendHealthState)| p.1@)
    }

    /// A checker with no backends, not running.
    pub fn new(config: HealthCheckConfig) -> (r: Self)
        ensures
            r.wf(),
            r.spec_config() == config,
            !r.spec_running(),
            r.spec_states() == Map::<Seq<char>, BackendHealthView>::empty(),
            r.spec_state_list() == Seq::<BackendHealthView>::empty(),
    {
        let r = HealthChecker { config, states: NameMap::new(), running: false };
        assert(r.spec_states() =~= Map::<Seq<char>, BackendHealthView>::empty());
        assert(r.spec_state_list() =~= Seq::<BackendHealthView>::empty());
        r
    }

    /// The configuration the checker works with.
    pub fn config(&self) -> (r: HealthCheckConfig)
        ensures
            r == self.spec_config(),
    {
        self.config
    }

    /// Whether rounds of checks are to go on.
    pub fn is_running(&self) -> (r: bool)
        ensures
            r == self.spec_running(),
    {
        self.running
    }

    /// Starts checking: when checks are enabled and not yet running, the
    /// checker runs from now on and the answer says that rounds of checks are
    /// to begin; otherwise nothing changes.
    pub fn start(&mut self) -> (r: bool)
        ensures
            r == (old(self).spec_config().enabled && !old(self).spec_running()),
            final(self).spec_running() == (old(self).spec_running() || r),
            final(self).spec_config() == old(self).spec_config(),
            final(self).spec_states() == old(self).spec_states(),
            final(self).spec_state_list() == old(self).spec_state_list(),
            final(self).wf() == old(self).wf(),
    {
        if !self.config.enabled {
            return false;
        }
        if self.running {
            return false;
        }
        self.running = true;
        true
    }

    /// Stops checking after the current round.
    pub fn stop(&mut self)
        ensures
            !final(self).spec_running(),
            final(self).spec_config() == old(self).spec_config(),
            final(self).spec_states() == old(self).spec_states(),
            final(self).spec_state_list() == old(self).spec_state_list(),
            final(self).wf() == old(self).wf(),
    {
        self.running = false;
    }

    /// Starts watching a backend of a rule, assumed healthy and never checked.
    pub fn add_backend(&mut self, rule_name: String, backend: &Backend)
        requires
            old(self).wf(),
        ensures
            final(self).wf(),
            final(self).spec_states() == old(self).spec_states().insert(
                state_key(rule_name@, backend.id@),
                BackendHealthView {
                    backend_id: backend.id@,
                    rule_name: rule_name@,
                    address: backend.address,
                    healthy: true,
                    consecutive_failures: 0,
                    consecutive_successes: 0,
                    last_check: None,
                    last_success: None,
                    last_failure: None,
                    response_time: None,
                },
            ),
            final(self).spec_config() == old(self).spec_config(),
            final(self).spec_running() == old(self).spec_running(),
    {
        let key = join3(rule_name.as_str(), ":", backend.id.as_str());
        let state = BackendHealthState {
            backend_id: backend.id.clone(),
            rule_name,
            address: backend.address,
            healthy: true,
            consecutive_failures: 0,
            consecutive_successes: 0,
            last_check: None,
            last_success: None,
            last_failure: None,
            response_time: None,
        };
        let ghost v = state@;
        self.states.insert(key, state);
        assert(self.spec_states() =~= old(self).spec_states().insert(state_key(v.rule_name, v.backend_id), v));
    }

    /// Stops watching a backend of a rule.
    pub fn remove_backend(&mut self, rule_name: &str, backend_id: &str)
        requires
            old(self).wf(),
        ensures
            final(self).wf(),
            final(self).spec_states() == old(self).spec_states().remove(state_key(rule_name@, backend_id@)),
            final(self).spec_config() == old(self).spec_config(),
            final(self).spec_running() == old(self).spec_running(),
    {
        let key = join3(rule_name, ":", backend_id);
        let _ = self.states.remove(key.as_str());
        assert(self.spec_states() =~= old(self).spec_states().remove(state_key(rule_name@, backend_id@)));
    }

    /// Whether a watched backend of a rule is healthy.
    pub fn get_backend_health(&self, rule_name: &str, backend_id: &str) -> (r: Option<bool>)
        requires
            self.wf(),
        ensures
            r == (if self.spec_states().contains_key(state_key(rule_name@, backend_id@)) {
                Some(self.spec_states()[state_key(rule_name@, backend_id@)].healthy)
            } else {
                None
            }),
    {
        let key = join3(rule_name, ":", backend_id);
        match self.states.get(key.as_str()) {
            Some(state) => Some(state.healthy),
            None => None,
        }
    }

    /// The health of every watched backend, by key.
    pub fn get_all_health_states(&self) -> (r: NameMap<bool>)
        requires
            self.wf(),
        ensures
            r.wf(),
            r@ == self.spec_states().map_values(|s: BackendHealthView| s.healthy),
    {
        let ghost pairs = self.states.pairs();
        let mut r: NameMap<bool> = NameMap::new();
        let mut i: usize = 0;
        while i < self.states.len()
            invariant
                self.wf(),
                pairs == self.states.pairs(),
                i <= pairs.len(),
                r.wf(),
                r.pairs() == pairs.take(i as int).map_values(
                    |p: (Seq<char>, BackendHealthState)| (p.0, p.1.healthy),
                ),
            decreases pairs.len() - i,
        {
            let key = self.states.name_at(i);
            let state = self.states.value_at(i);
            proof {
                if r@.contains_key(key@) {
                    let j = choose|j: int| 0 <= j < r.pairs().len() && r.pairs()[j].0 == key@;
                    assert(pairs[j].0 == pairs[i as int].0);
                }
            }
            r.insert(key.clone(), state.healthy);
            proof {
                assert(r.pairs() =~= pairs.take(i + 1).map_values(
                    |p: (Seq<char>, BackendHealthState)| (p.0, p.1.healthy),
                ));
            }
            i = i + 1;
        }
        proof {
            let mapped = r.pairs();
            assert(pairs.take(pairs.len() as int) =~= pairs);
            assert forall|k: Seq<char>| #[trigger] r@.contains_key(k) == self.spec_states().contains_key(k) by {
                if r@.contains_key(k) {
                    let j = choose|j: int| 0 <= j < mapped.len() && mapped[j].0 == k;
                    assert(pairs[j].0 == k);
                }
                if self.states@.contains_key(k) {
                    let j = choose|j: int| 0 <= j < pairs.len() && pairs[j].0 == k;
                    assert(mapped[j].0 == k);
                }
            }
            assert forall|k: Seq<char>| #[trigger] r@.contains_key(k) implies r@[k] == self.spec_states()[k].healthy by {
                let j = choose|j: int| 0 <= j < mapped.len() && mapped[j].0 == k;
                lemma_pairs_lookup(mapped, j);
                lemma_pairs_lookup(pairs, j);
            }
            assert(r@ =~= self.spec_states().map_values(|s: BackendHealthView| s.healthy));
        }
        r
    }

    /// A copy of every watched backend's state, with its key, in order: what
    /// a round of checks works from.
    pub fn states_to_check(&self) -> (r: Vec<(String, BackendHealthState)>)
        ensures
            r@.len() == self.spec_state_list().len(),
            forall|i: int|
                0 <= i < r@.len() ==> (#[trigger] r@[i]).0@ == self.spec_keys()[i] && r@[i].1@
                    == self.spec_state_list()[i],
    {
        let mut r: Vec<(String, BackendHealthState)> = Vec::new();
        let mut i: usize = 0;
        while i < self.states.len()
            invariant
                i <= self.states.pairs().len(),
                r@.len() == i,
                forall|j: int|
                    0 <= j < i ==> (#[trigger] r@[j]).0@ == self.states.pairs()[j].0 && r@[j].1@
                        == self.states.pairs()[j].1@,
            decreases self.states.pairs().len() - i,
        {
            r.push((self.states.name_at(i).clone(), self.states.value_at(i).clone()));
            i = i + 1;
        }
        r
    }

    /// Records the outcome of checking the backend whose state was `state`
    /// when the round began: `Some` of the response time on success, `None`
    /// on failure, at time `now`.  The new state (see `checked`) is stored
    /// under `key`; when the backend's health changed, the router manager is
    /// told (see `health_updated`), and otherwise left alone.
    pub fn record_check(
        &mut self,
        manager: &mut RouterManager,
        key: String,
        state: BackendHealthState,
        outcome: Option<u64>,
        now: u64,
    )
        requires
            old(self).wf(),
            old(manager).wf(),
        ensures
            final(self).wf(),
            final(self).spec_states() == old(self).spec_states().insert(
                key@,
                checked(state@, old(self).spec_config(), outcome, now),
            ),
            final(self).spec_config() == old(self).spec_config(),
            final(self).spec_running() == old(self).spec_running(),
            health_flips(state@, old(self).spec_config(), outcome) ==> health_updated(
                *old(manager),
                *final(manager),
                state.rule_name@,
                state.backend_id@,
                checked(state@, old(self).spec_config(), outcome, now).healthy,
            ),
            !health_flips(state@, old(self).spec_config(), outcome) ==> *final(manager) == *old(manager),
    {
        let mut state = state;
        let ghost before = state@;
        state.last_check = Some(now);
        match outcome {
            Some(rt) => {
                state.consecutive_successes = count_up_exec(state.consecutive_successes);
                state.consecutive_failures = 0;
                state.last_success = Some(now);
                state.response_time = Some(rt);
                if !state.healthy && state.consecutive_successes >= self.config.success_threshold {
                    state.healthy = true;
                    manager.update_backend_health(state.rule_name.as_str(), state.backend_id.as_str(), true);
                }
            },
            None => {
                state.consecutive_failures = count_up_exec(state.consecutive_failures);
                state.consecutive_successes = 0;
                state.last_failure = Some(now);
                if state.healthy && state.consecutive_failures >= self.config.failure_threshold {
                    state.healthy = false;
                    manager.update_backend_health(state.rule_name.as_str(), state.backend_id.as_str(), false);
                }
            },
        }
        assert(state@ == checked(before, self.config, outcome, now));
        let ghost v = state@;
        self.states.insert(key, state);
        assert(self.spec_states() =~= old(self).spec_states().insert(key@, v));
    }

    /// Counts over the watched backends.
    pub fn get_stats(&self) -> (r: HealthCheckStats)
        requires
            self.wf(),
        ensures
            r.total_backends == self.spec_state_list().len(),
            r.healthy_backends == healthy_total(self.spec_state_list()),
            r.unhealthy_backends == self.spec_state_list().len() - healthy_total(self.spec_state_list()),
            r.avg_response_time == (if response_count(self.spec_state_list()) == 0 {
                0
            } else {
                response_sum(self.spec_state_list()) / response_count(self.spec_state_list())
            }),
            r.last_check == latest_check(self.spec_state_list()),
    {
        let ghost list = self.spec_state_list();
        let n = self.states.len();
        let mut healthy: usize = 0;
        let mut count: u64 = 0;
        let mut sum: u128 = 0;
        let mut latest: Option<u64> = None;
        let mut i: usize = 0;
        while i < n
            invariant
                n == self.states.pairs().len(),
                list == self.spec_state_list(),
                list.len() == n,
                i <= n,
                healthy == healthy_total(list.take(i as int)),
                healthy <= i,
                count == response_count(list.take(i as int)),
                count <= i,
                sum == response_sum(list.take(i as int)),
                sum <= count * 0xFFFF_FFFF_FFFF_FFFFu128,
                latest == latest_check(list.take(i as int)),
            decreases n - i,
        {
            let state = self.states.value_at(i);
            proof {
                assert(list.take(i + 1).drop_last() =~= list.take(i as int));
                assert(list[i as int] == state@);
            }
            if state.healthy {
                healthy = healthy + 1;
            }
            match state.response_time {
                Some(t) => {
                    sum = sum + t as u128;
                    count = count + 1;
                },
                None => {},
            }
            match state.last_check {
                Some(t) => {
                    latest = match latest {
                        Some(b) => if b >= t {
                            Some(b)
                        } else {
                            Some(t)
                        },
                        None => Some(t),
                    };
                },
                None => {},
            }
            i = i + 1;
        }
        proof {
            assert(list.take(n as int) =~= list);
        }
        let avg: u64 = if count == 0 {
            0
        } else {
            assert(sum / (count as u128) <= 0xFFFF_FFFF_FFFF_FFFFu128) by (nonlinear_arith)
                requires
                    sum <= count * 0xFFFF_FFFF_FFFF_FFFFu128,
                    count > 0,
            ;
            (sum / (count as u128)) as u64
        };
        HealthCheckStats {
            total_backends: n,
            healthy_backends: healthy,
            unhealthy_backends: n - healthy,
            avg_response_time: avg,
            last_check: latest,
        }
    }
}

} // verus!
