use vstd::prelude::*;
use crate::name_map::NameMap;
use crate::net::{hash_ip, hash_port, hash_text, ip_digest, port_digest, text_digest};
use crate::router::{
    accepting_pred, accepting_views, available_pred, available_views, backend_views, healthy_count,
    healthy_pred, lemma_filter_take_step, BackendInfo, BackendView, OptionValue, RouterError, RouterStats,
    RoutingContext,
};
use crate::text::{text_eq, text_owned};

verus! {

/// Adds one to a request counter, wrapping around at the top.
pub open spec fn bump(x: u64) -> u64 {
    if x == u64::MAX { 0 } else { (x + 1) as u64 }
}

fn bump_exec(x: u64) -> (r: u64)
    ensures
        r == bump(x),
{
    if x == u64::MAX { 0 } else { x + 1 }
}

/// The position counter of round-robin selection after one step, wrapping around.
pub open spec fn bump_index(x: usize) -> usize {
    if x == usize::MAX { 0 } else { (x + 1) as usize }
}

/// The sum of the backends' current connection counts.
pub open spec fn connections_total(s: Seq<BackendView>) -> int
    decreases s.len(),
{
    if s.len() == 0 { 0 } else { connections_total(s.drop_last()) + s.last().current_connections }
}

/// The sum of the backends' weights.
pub open spec fn weight_total(s: Seq<BackendView>) -> int
    decreases s.len(),
{
    if s.len() == 0 { 0 } else { weight_total(s.drop_last()) + s.last().weight }
}

/// The backends after the first one with id `id` has its health set to `healthy`.
pub open spec fn set_health(s: Seq<BackendView>, id: Seq<char>, healthy: bool) -> Seq<BackendView> {
    if exists|i: int| 0 <= i < s.len() && s[i].id == id {
        let i = choose|i: int| 0 <= i < s.len() && s[i].id == id && forall|j: int| 0 <= j < i ==> s[j].id != id;
        s.update(i, BackendView { healthy, ..s[i] })
    } else {
        s
    }
}

/// The stats after a router took note of a new backend list.
pub open spec fn stats_for_backends(stats: RouterStats, s: Seq<BackendView>) -> RouterStats {
    RouterStats {
        backend_count: s.len() as u32,
        healthy_backend_count: healthy_count(s) as u32,
        ..stats
    }
}

/// The stats after a selection that found a backend.
pub open spec fn stats_after_success(stats: RouterStats) -> RouterStats {
    RouterStats {
        total_requests: bump(stats.total_requests),
        successful_requests: bump(stats.successful_requests),
        ..stats
    }
}

/// The stats after a selection that found no backend among available ones.
pub open spec fn stats_after_failure(stats: RouterStats) -> RouterStats {
    RouterStats {
        total_requests: bump(stats.total_requests),
        failed_requests: bump(stats.failed_requests),
        ..stats
    }
}

/// The available backends among `backends`, in order.
pub fn collect_available(backends: &[BackendInfo]) -> (r: Vec<BackendInfo>)
    ensures
        backend_views(r@) == available_views(backend_views(backends@)),
{
    let ghost all = backend_views(backends@);
    let mut out: Vec<BackendInfo> = Vec::new();
    let mut i: usize = 0;
    while i < backends.len()
        invariant
            i <= backends@.len(),
            all == backend_views(backends@),
            backend_views(out@) == all.take(i as int).filter(available_pred()),
        decreases backends.len() - i,
    {
        proof {
            lemma_filter_take_step(all, available_pred(), i as int);
        }
        if backends[i].is_available() {
            let b = backends[i].clone();
            let ghost before = out@;
            out.push(b);
            assert(backend_views(out@) =~= backend_views(before).push(all[i as int]));
        }
        i = i + 1;
    }
    assert(all.take(backends@.len() as int) =~= all);
    out
}

/// The backends among `backends` that accept a new connection, in order.
pub fn collect_accepting(backends: &[BackendInfo]) -> (r: Vec<BackendInfo>)
    ensures
        backend_views(r@) == accepting_views(backend_views(backends@)),
{
    let ghost all = backend_views(backends@);
    let mut out: Vec<BackendInfo> = Vec::new();
    let mut i: usize = 0;
    while i < backends.len()
        invariant
            i <= backends@.len(),
            all == backend_views(backends@),
            backend_views(out@) == all.take(i as int).filter(accepting_pred()),
        decreases backends.len() - i,
    {
        proof {
            lemma_filter_take_step(all, accepting_pred(), i as int);
        }
        if backends[i].can_accept_connection() {
            let b = backends[i].clone();
            let ghost before = out@;
            out.push(b);
            assert(backend_views(out@) =~= backend_views(before).push(all[i as int]));
        }
        i = i + 1;
    }
    assert(all.take(backends@.len() as int) =~= all);
    out
}

/// The number of healthy backends among `backends`.
fn count_healthy(backends: &[BackendInfo]) -> (r: usize)
    ensures
        r == healthy_count(backend_views(backends@)),
{
    let ghost all = backend_views(backends@);
    let mut n: usize = 0;
    let mut i: usize = 0;
    while i < backends.len()
        invariant
            i <= backends@.len(),
            all == backend_views(backends@),
            n == all.take(i as int).filter(healthy_pred()).len(),
            n <= i,
        decreases backends.len() - i,
    {
        proof {
            lemma_filter_take_step(all, healthy_pred(), i as int);
        }
        if backends[i].healthy {
            n = n + 1;
        }
        i = i + 1;
    }
    assert(all.take(backends@.len() as int) =~= all);
    n
}

/// The stats after taking note of a new backend list.
fn stats_with_backends(stats: &RouterStats, backends: &[BackendInfo]) -> (r: RouterStats)
    ensures
        r == stats_for_backends(*stats, backend_views(backends@)),
{
    let mut s = stats.clone();
    s.backend_count = backends.len() as u32;
    s.healthy_backend_count = count_healthy(backends) as u32;
    s
}

/// Sets the health of the first backend with id `id`.
pub(crate) fn mark_health(backends: &mut Vec<BackendInfo>, id: &str, healthy: bool)
    ensures
        backend_views(final(backends)@) == set_health(backend_views(old(backends)@), id@, healthy),
{
    let ghost all = backend_views(backends@);
    let mut i: usize = 0;
    while i < backends.len()
        invariant
            i <= backends@.len(),
            all == backend_views(backends@),
            backends@ == old(backends)@,
            forall|j: int| 0 <= j < i ==> all[j].id != id@,
        decreases backends.len() - i,
    {
        if text_eq(backends[i].id.as_str(), id) {
            let mut b = backends[i].clone();
            b.healthy = healthy;
            let ghost bv = b@;
            backends.set(i, b);
            proof {
                assert(all[i as int].id == id@);
                let k = choose|k: int| 0 <= k < all.len() && all[k].id == id@ && forall|j: int| 0 <= j < k ==> all[j].id != id@;
                if k < i {
                    assert(all[k].id != id@);
                } else if k > i {
                    assert(all[i as int].id != id@);
                }
                assert(backend_views(backends@) =~= all.update(i as int, BackendView { healthy, ..all[i as int] }));
            }
            return;
        }
        i = i + 1;
    }
}


/// The optional backend's view.
pub open spec fn opt_backend_view(o: Option<BackendInfo>) -> Option<BackendView> {
    match o {
        Some(b) => Some(b@),
        None => None,
    }
}

/// What every router keeps: its name and version, the backends it was told
/// about, and its stats.
struct RouterCore {
    name: String,
    version: String,
    backends: Vec<BackendInfo>,
    stats: RouterStats,
}

impl RouterCore {
    spec fn fresh(self, name: Seq<char>) -> bool {
        &&& self.name@ == name
        &&& self.version@ == "1.0.0"@
        &&& backend_views(self.backends@) == Seq::<BackendView>::empty()
        &&& self.stats.name@ == name
        &&& self.stats.total_requests == 0
        &&& self.stats.successful_requests == 0
        &&& self.stats.failed_requests == 0
        &&& self.stats.active_connections == 0
        &&& self.stats.backend_count == 0
        &&& self.stats.healthy_backend_count == 0
    }

    fn new(name: &str) -> (r: Self)
        ensures
            r.fresh(name@),
    {
        let mut stats = RouterStats::default();
        stats.name = text_owned(name);
        let r = RouterCore { name: text_owned(name), version: text_owned("1.0.0"), backends: Vec::new(), stats };
        assert(backend_views(r.backends@) =~= Seq::<BackendView>::empty());
        r
    }

    fn set_backends(&mut self, backends: Vec<BackendInfo>)
        ensures
            backend_views(final(self).backends@) == backend_views(backends@),
            final(self).stats == stats_for_backends(old(self).stats, backend_views(backends@)),
            final(self).name == old(self).name,
            final(self).version == old(self).version,
    {
        self.stats = stats_with_backends(&self.stats, backends.as_slice());
        self.backends = backends;
    }

    fn health_changed(&mut self, backend_id: &str, healthy: bool)
        ensures
            backend_views(final(self).backends@) == set_health(backend_views(old(self).backends@), backend_id@, healthy),
            final(self).stats == (RouterStats {
                healthy_backend_count: healthy_count(backend_views(final(self).backends@)) as u32,
                ..old(self).stats
            }),
            final(self).name == old(self).name,
            final(self).version == old(self).version,
    {
        mark_health(&mut self.backends, backend_id, healthy);
        self.stats.healthy_backend_count = count_healthy(self.backends.as_slice()) as u32;
    }

    fn clear_backends(&mut self)
        ensures
            backend_views(final(self).backends@) == Seq::<BackendView>::empty(),
            final(self).stats == old(self).stats,
            final(self).name == old(self).name,
            final(self).version == old(self).version,
    {
        self.backends.clear();
        assert(backend_views(self.backends@) =~= Seq::<BackendView>::empty());
    }

    fn note_success(&mut self)
        ensures
            final(self).stats == stats_after_success(old(self).stats),
            final(self).backends == old(self).backends,
            final(self).name == old(self).name,
            final(self).version == old(self).version,
    {
        self.stats.total_requests = bump_exec(self.stats.total_requests);
        self.stats.successful_requests = bump_exec(self.stats.successful_requests);
    }

    fn note_failure(&mut self)
        ensures
            final(self).stats == stats_after_failure(old(self).stats),
            final(self).backends == old(self).backends,
            final(self).name == old(self).name,
            final(self).version == old(self).version,
    {
        self.stats.total_requests = bump_exec(self.stats.total_requests);
        self.stats.failed_requests = bump_exec(self.stats.failed_requests);
    }
}

/// A random number below `bound` (the `rand` crate's `random_range` over `0..bound`,
/// drawn from the thread-local generator).  Nothing is promised of which number
/// comes back beyond the range.
#[verifier::external_body]
fn random_below(bound: u64) -> (r: u64)
    requires
        bound > 0,
    ensures
        r < bound,
{
    rand::random_range(0..bound)
}

/// Chooses backends in turn.
pub struct RoundRobinRouter {
    core: RouterCore,
    counter: usize,
}

/// Chooses the available backend with the fewest current connections.
pub struct LeastConnectionsRouter {
    core: RouterCore,
}

/// Chooses an available backend at random.
pub struct RandomRouter {
    core: RouterCore,
}

/// Chooses an available backend at random, each with a chance proportional to
/// its weight.
pub struct WeightedRouter {
    core: RouterCore,
    smooth_weighted: bool,
}

/// What a hash router hashes to choose a backend.
pub enum HashKey {
    ClientIp,
    ClientPort,
    TargetPort,
    SessionId,
    Sni,
    /// A metadata entry of the routing context.
    Custom(String),
}

/// Chooses the available backend at the position given by a hash of part of the
/// routing context, so that equal keys go to the same backend.
pub struct HashRouter {
    core: RouterCore,
    hash_key: HashKey,
}

/// The digest a hash router computes for a context: of the configured part, or
/// of the client's IP address when the context lacks that part.
pub open spec fn context_digest(key: HashKey, ctx: RoutingContext) -> u64 {
    match key {
        HashKey::ClientIp => ip_digest(ctx.client_addr.ip),
        HashKey::ClientPort => port_digest(ctx.client_addr.port),
        HashKey::TargetPort => port_digest(ctx.target_addr.port),
        HashKey::SessionId => match ctx.session_id {
            Some(s) => text_digest(s@),
            None => ip_digest(ctx.client_addr.ip),
        },
        HashKey::Sni => match ctx.sni {
            Some(s) => text_digest(s@),
            None => ip_digest(ctx.client_addr.ip),
        },
        HashKey::Custom(k) => if ctx.metadata@.contains_key(k@) {
            text_digest(ctx.metadata@[k@]@)
        } else {
            ip_digest(ctx.client_addr.ip)
        },
    }
}

/// The hash key a configured name stands for.
pub open spec fn hash_key_named(k: String) -> HashKey {
    if k@ == "client_ip"@ {
        HashKey::ClientIp
    } else if k@ == "client_port"@ {
        HashKey::ClientPort
    } else if k@ == "target_port"@ {
        HashKey::TargetPort
    } else if k@ == "session_id"@ {
        HashKey::SessionId
    } else if k@ == "sni"@ {
        HashKey::Sni
    } else {
        HashKey::Custom(k)
    }
}

/// `s[i]` has the fewest connections, and every earlier backend has more.
pub open spec fn least_loaded(s: Seq<BackendView>, i: int) -> bool {
    &&& 0 <= i < s.len()
    &&& forall|j: int| 0 <= j < s.len() ==> s[i].current_connections <= #[trigger] s[j].current_connections
    &&& forall|j: int| 0 <= j < i ==> s[i].current_connections < #[trigger] s[j].current_connections
}

/// Walking the backends with a weight draw `r`: the first backend whose weight
/// exceeds what is left of the draw.
pub open spec fn weighted_pick(s: Seq<BackendView>, r: int) -> Option<BackendView>
    decreases s.len(),
{
    if s.len() == 0 {
        None
    } else if r < s[0].weight {
        Some(s[0])
    } else {
        weighted_pick(s.drop_first(), r - s[0].weight)
    }
}

/// The weighted pick for draw `r`, or the last backend when the walk finds none.
pub open spec fn weighted_choice(s: Seq<BackendView>, r: int) -> Option<BackendView> {
    match weighted_pick(s, r) {
        Some(b) => Some(b),
        None => if s.len() > 0 {
            Some(s.last())
        } else {
            None
        },
    }
}

/// The total weight as a 32-bit sum, which wraps around.
pub open spec fn wrapped_weight_total(s: Seq<BackendView>) -> int {
    weight_total(s) % 0x1_0000_0000
}

/// The sum of the weights, taken from the front.
pub proof fn lemma_weight_total_front(s: Seq<BackendView>)
    requires
        s.len() > 0,
    ensures
        weight_total(s) == s[0].weight + weight_total(s.drop_first()),
    decreases s.len(),
{
    if s.len() > 1 {
        lemma_weight_total_front(s.drop_last());
        assert(s.drop_last().drop_first() =~= s.drop_first().drop_last());
        assert(s.drop_first().last() == s.last());
        assert(s.drop_last()[0] == s[0]);
        assert(weight_total(s.drop_first()) == weight_total(s.drop_first().drop_last()) + s.drop_first().last().weight);
        assert(weight_total(s) == weight_total(s.drop_last()) + s.last().weight);
        assert(weight_total(s.drop_last()) == s.drop_last()[0].weight + weight_total(s.drop_last().drop_first()));
    } else {
        assert(s.drop_first().len() == 0);
        assert(s.drop_last().len() == 0);
        assert(s.last() == s[0]);
        assert(weight_total(s.drop_first()) == 0);
        assert(weight_total(s.drop_last()) == 0);
    }
}

/// A draw below the total weight always finds a backend, and the backend it
/// finds has a positive weight.
pub proof fn lemma_weighted_pick_finds(s: Seq<BackendView>, r: int)
    requires
        0 <= r,
    ensures
        r < weight_total(s) ==> weighted_pick(s, r) is Some,
        weighted_pick(s, r) matches Some(b) ==> b.weight > 0 && s.contains(b),
    decreases s.len(),
{
    if s.len() > 0 {
        lemma_weight_total_front(s);
        if r >= s[0].weight {
            lemma_weighted_pick_finds(s.drop_first(), r - s[0].weight);
            if weighted_pick(s, r) is Some {
                let b = weighted_pick(s, r)->0;
                let j = choose|j: int| 0 <= j < s.drop_first().len() && s.drop_first()[j] == b;
                assert(s[j + 1] == b);
            }
        } else {
            assert(s[0] == s[0]);
        }
    }
}

/// The sum of the weights never falls below the wrapped sum.
pub proof fn lemma_weight_total_nonneg(s: Seq<BackendView>)
    ensures
        weight_total(s) >= 0,
        wrapped_weight_total(s) <= weight_total(s),
    decreases s.len(),
{
    if s.len() > 0 {
        lemma_weight_total_nonneg(s.drop_last());
    }
}

/// The kinds of router plugins this library provides.
#[derive(Clone, Copy, Debug, PartialEq, Eq, Structural)]
pub enum PluginKind {
    RoundRobin,
    Weighted,
    Hash,
    LeastConnections,
    Random,
}

impl RoundRobinRouter {
    pub closed spec fn spec_name(self) -> Seq<char> {
        self.core.name@
    }

    pub closed spec fn spec_version(self) -> Seq<char> {
        self.core.version@
    }

    /// The position counter.
    pub closed spec fn spec_counter(self) -> usize {
        self.counter
    }

    /// The backends the router was told about.
    pub closed spec fn spec_backends(self) -> Seq<BackendView> {
        backend_views(self.core.backends@)
    }

    pub closed spec fn spec_stats(self) -> RouterStats {
        self.core.stats
    }

    /// A round-robin router named "round_robin", at the start of its cycle.
    pub fn new() -> (r: Self)
        ensures
            r.spec_name() == "round_robin"@,
            r.spec_version() == "1.0.0"@,
            r.spec_counter() == 0,
            r.spec_backends() == Seq::<BackendView>::empty(),
            r.spec_stats().name@ == "round_robin"@,
            r.spec_stats().total_requests == 0,
            r.spec_stats().successful_requests == 0,
            r.spec_stats().failed_requests == 0,
            r.spec_stats().backend_count == 0,
            r.spec_stats().healthy_backend_count == 0,
            r.spec_stats().active_connections == 0,
    {
        RoundRobinRouter { core: RouterCore::new("round_robin"), counter: 0 }
    }

    pub fn name(&self) -> (r: &str)
        ensures
            r@ == self.spec_name(),
    {
        self.core.name.as_str()
    }

    pub fn version(&self) -> (r: &str)
        ensures
            r@ == self.spec_version(),
    {
        self.core.version.as_str()
    }

    /// Round-robin selection takes no options.
    pub fn initialize(&mut self, config: &NameMap<OptionValue>)
        ensures
            *final(self) == *old(self),
    {
    }

    /// The available backend at the counter's position modulo their number; the
    /// counter then moves on.  With no available backend nothing changes.
    pub fn select_backend(&mut self, context: &RoutingContext, backends: &[BackendInfo]) -> (r: Option<BackendInfo>)
        ensures
            ({
                let avail = available_views(backend_views(backends@));
                if avail.len() == 0 {
                    r is None && *final(self) == *old(self)
                } else {
                    &&& opt_backend_view(r) == Some(avail[(old(self).spec_counter() % (avail.len() as usize)) as int])
                    &&& final(self).spec_counter() == bump_index(old(self).spec_counter())
                    &&& final(self).spec_stats() == stats_after_success(old(self).spec_stats())
                    &&& final(self).spec_backends() == old(self).spec_backends()
                    &&& final(self).spec_name() == old(self).spec_name()
                }
            }),
    {
        if backends.len() == 0 {
            assert(backend_views(backends@) =~= Seq::<BackendView>::empty());
            proof {
                reveal(Seq::filter);
            }
            return None;
        }
        let available = collect_available(backends);
        if available.len() == 0 {
            return None;
        }
        let index = self.counter % available.len();
        self.counter = if self.counter == usize::MAX { 0 } else { self.counter + 1 };
        let selected = available[index].clone();
        self.core.note_success();
        Some(selected)
    }

    /// Remembers a new backend list and counts its backends.
    pub fn update_backends(&mut self, backends: Vec<BackendInfo>)
        ensures
            final(self).spec_backends() == backend_views(backends@),
            final(self).spec_stats() == stats_for_backends(old(self).spec_stats(), backend_views(backends@)),
            final(self).spec_counter() == old(self).spec_counter(),
            final(self).spec_name() == old(self).spec_name(),
    {
        self.core.set_backends(backends);
    }

    /// A copy of the router's stats.
    pub fn get_stats(&self) -> (r: RouterStats)
        ensures
            r == self.spec_stats(),
    {
        self.core.stats.clone()
    }

    /// Sets the health of the first known backend with id `backend_id`, and
    /// recounts the healthy ones.
    pub fn on_backend_health_changed(&mut self, backend_id: &str, healthy: bool)
        ensures
            final(self).spec_backends() == set_health(old(self).spec_backends(), backend_id@, healthy),
            final(self).spec_stats() == (RouterStats {
                healthy_backend_count: healthy_count(final(self).spec_backends()) as u32,
                ..old(self).spec_stats()
            }),
            final(self).spec_counter() == old(self).spec_counter(),
            final(self).spec_name() == old(self).spec_name(),
    {
        self.core.health_changed(backend_id, healthy);
    }

    /// Forgets the backends and restarts the cycle.
    pub fn shutdown(&mut self)
        ensures
            final(self).spec_backends() == Seq::<BackendView>::empty(),
            final(self).spec_counter() == 0,
            final(self).spec_stats() == old(self).spec_stats(),
            final(self).spec_name() == old(self).spec_name(),
    {
        self.core.clear_backends();
        self.counter = 0;
    }
}


/// The current connections of all backends, summed as 32-bit numbers that wrap around.
fn connection_sum(backends: &[BackendInfo]) -> (r: u32)
    ensures
        r == connections_total(backend_views(backends@)) % 0x1_0000_0000,
{
    let ghost all = backend_views(backends@);
    let mut total: u32 = 0;
    let mut i: usize = 0;
    while i < backends.len()
        invariant
            i <= backends@.len(),
            all == backend_views(backends@),
            total == connections_total(all.take(i as int)) % 0x1_0000_0000,
        decreases backends.len() - i,
    {
        let c = backends[i].current_connections;
        proof {
            assert(all.take(i as int + 1).drop_last() =~= all.take(i as int));
            assert(connections_total(all.take(i as int + 1)) == connections_total(all.take(i as int)) + c);
            assert(connections_total(all.take(i as int)) >= 0) by {
                lemma_connections_nonneg(all.take(i as int));
            }
        }
        let t: u64 = total as u64 + c as u64;
        total = if t >= 0x1_0000_0000 { (t - 0x1_0000_0000) as u32 } else { t as u32 };
        i = i + 1;
    }
    assert(all.take(backends@.len() as int) =~= all);
    total
}

proof fn lemma_connections_nonneg(s: Seq<BackendView>)
    ensures
        connections_total(s) >= 0,
    decreases s.len(),
{
    if s.len() > 0 {
        lemma_connections_nonneg(s.drop_last());
    }
}

/// The weights of all backends, summed as 32-bit numbers that wrap around.
fn weight_sum(backends: &[BackendInfo]) -> (r: u32)
    ensures
        r == wrapped_weight_total(backend_views(backends@)),
{
    let ghost all = backend_views(backends@);
    let mut total: u32 = 0;
    let mut i: usize = 0;
    while i < backends.len()
        invariant
            i <= backends@.len(),
            all == backend_views(backends@),
            total == weight_total(all.take(i as int)) % 0x1_0000_0000,
        decreases backends.len() - i,
    {
        let w = backends[i].weight;
        proof {
            assert(all.take(i as int + 1).drop_last() =~= all.take(i as int));
            assert(weight_total(all.take(i as int + 1)) == weight_total(all.take(i as int)) + w);
            lemma_weight_total_nonneg(all.take(i as int));
        }
        let t: u64 = total as u64 + w as u64;
        total = if t >= 0x1_0000_0000 { (t - 0x1_0000_0000) as u32 } else { t as u32 };
        i = i + 1;
    }
    assert(all.take(backends@.len() as int) =~= all);
    total
}

/// Walks `backends` with the weight draw `draw` (see `weighted_choice`): the first
/// backend whose weight exceeds what is left of the draw, or the last backend
/// when the walk finds none.
pub fn pick_weighted(backends: &[BackendInfo], draw: u32) -> (r: Option<BackendInfo>)
    ensures
        opt_backend_view(r) == weighted_choice(backend_views(backends@), draw as int),
{
    let ghost all = backend_views(backends@);
    let mut remaining: u32 = draw;
    let mut i: usize = 0;
    assert(all.skip(0) =~= all);
    while i < backends.len()
        invariant
            i <= backends@.len(),
            all == backend_views(backends@),
            weighted_pick(all, draw as int) == weighted_pick(all.skip(i as int), remaining as int),
        decreases backends.len() - i,
    {
        assert(all.skip(i as int)[0] == all[i as int]);
        assert(all.skip(i as int).drop_first() =~= all.skip(i as int + 1));
        if remaining < backends[i].weight {
            return Some(backends[i].clone());
        }
        remaining = remaining - backends[i].weight;
        i = i + 1;
    }
    assert(all.skip(backends@.len() as int).len() == 0);
    if backends.len() > 0 {
        Some(backends[backends.len() - 1].clone())
    } else {
        None
    }
}

impl LeastConnectionsRouter {
    pub closed spec fn spec_name(self) -> Seq<char> {
        self.core.name@
    }

    pub closed spec fn spec_version(self) -> Seq<char> {
        self.core.version@
    }

    /// The backends the router was told about.
    pub closed spec fn spec_backends(self) -> Seq<BackendView> {
        backend_views(self.core.backends@)
    }

    pub closed spec fn spec_stats(self) -> RouterStats {
        self.core.stats
    }

    /// A least-connections router named "least_connections".
    pub fn new() -> (r: Self)
        ensures
            r.spec_name() == "least_connections"@,
            r.spec_version() == "1.0.0"@,
            r.spec_backends() == Seq::<BackendView>::empty(),
            r.spec_stats().name@ == "least_connections"@,
            r.spec_stats().total_requests == 0,
            r.spec_stats().successful_requests == 0,
            r.spec_stats().failed_requests == 0,
            r.spec_stats().backend_count == 0,
            r.spec_stats().healthy_backend_count == 0,
            r.spec_stats().active_connections == 0,
    {
        LeastConnectionsRouter { core: RouterCore::new("least_connections") }
    }

    pub fn name(&self) -> (r: &str)
        ensures
            r@ == self.spec_name(),
    {
        self.core.name.as_str()
    }

    pub fn version(&self) -> (r: &str)
        ensures
            r@ == self.spec_version(),
    {
        self.core.version.as_str()
    }

    /// Least-connections selection takes no options.
    pub fn initialize(&mut self, config: &NameMap<OptionValue>)
        ensures
            *final(self) == *old(self),
    {
    }

    /// The first available backend with the fewest current connections.
    pub fn select_backend(&mut self, context: &RoutingContext, backends: &[BackendInfo]) -> (r: Option<BackendInfo>)
        ensures
            ({
                let avail = available_views(backend_views(backends@));
                if avail.len() == 0 {
                    r is None && *final(self) == *old(self)
                } else {
                    &&& exists|i: int| least_loaded(avail, i) && opt_backend_view(r) == Some(avail[i])
                    &&& final(self).spec_stats() == stats_after_success(old(self).spec_stats())
                    &&& final(self).spec_backends() == old(self).spec_backends()
                    &&& final(self).spec_name() == old(self).spec_name()
                }
            }),
    {
        if backends.len() == 0 {
            assert(backend_views(backends@) =~= Seq::<BackendView>::empty());
            proof {
                reveal(Seq::filter);
            }
            return None;
        }
        let available = collect_available(backends);
        if available.len() == 0 {
            return None;
        }
        let ghost avail = backend_views(available@);
        let mut best: usize = 0;
        let mut i: usize = 1;
        while i < available.len()
            invariant
                avail == backend_views(available@),
                avail.len() > 0,
                1 <= i <= avail.len(),
                best < i,
                forall|j: int| 0 <= j < i ==> avail[best as int].current_connections <= #[trigger] avail[j].current_connections,
                forall|j: int| 0 <= j < best ==> avail[best as int].current_connections < #[trigger] avail[j].current_connections,
            decreases available.len() - i,
        {
            if available[i].current_connections < available[best].current_connections {
                best = i;
            }
            i = i + 1;
        }
        assert(least_loaded(avail, best as int));
        let selected = available[best].clone();
        self.core.note_success();
        Some(selected)
    }

    /// Remembers a new backend list, counts its backends and sums their
    /// connections (as 32-bit numbers that wrap around).
    pub fn update_backends(&mut self, backends: Vec<BackendInfo>)
        ensures
            final(self).spec_backends() == backend_views(backends@),
            final(self).spec_stats() == (RouterStats {
                active_connections: (connections_total(backend_views(backends@)) % 0x1_0000_0000) as u32,
                ..stats_for_backends(old(self).spec_stats(), backend_views(backends@))
            }),
            final(self).spec_name() == old(self).spec_name(),
    {
        let total = connection_sum(backends.as_slice());
        self.core.set_backends(backends);
        self.core.stats.active_connections = total;
    }

    /// A copy of the router's stats.
    pub fn get_stats(&self) -> (r: RouterStats)
        ensures
            r == self.spec_stats(),
    {
        self.core.stats.clone()
    }

    /// Sets the health of the first known backend with id `backend_id`, and
    /// recounts the healthy ones.
    pub fn on_backend_health_changed(&mut self, backend_id: &str, healthy: bool)
        ensures
            final(self).spec_backends() == set_health(old(self).spec_backends(), backend_id@, healthy),
            final(self).spec_stats() == (RouterStats {
                healthy_backend_count: healthy_count(final(self).spec_backends()) as u32,
                ..old(self).spec_stats()
            }),
            final(self).spec_name() == old(self).spec_name(),
    {
        self.core.health_changed(backend_id, healthy);
    }

    /// Forgets the backends.
    pub fn shutdown(&mut self)
        ensures
            final(self).spec_backends() == Seq::<BackendView>::empty(),
            final(self).spec_stats() == old(self).spec_stats(),
            final(self).spec_name() == old(self).spec_name(),
    {
        self.core.clear_backends();
    }
}

/// The available backend at position `draw` among the available ones, in
/// order; none when there are not that many.
pub fn pick_available(backends: &[BackendInfo], draw: u64) -> (r: Option<BackendInfo>)
    ensures
        ({
            let avail = available_views(backend_views(backends@));
            opt_backend_view(r) == if draw < avail.len() {
                Some(avail[draw as int])
            } else {
                None::<BackendView>
            }
        }),
{
    let available = collect_available(backends);
    if draw < available.len() as u64 {
        let selected = available[draw as usize].clone();
        assert(backend_views(available@)[draw as int] == available@[draw as int]@);
        Some(selected)
    } else {
        None
    }
}

impl RandomRouter {
    pub closed spec fn spec_name(self) -> Seq<char> {
        self.core.name@
    }

    pub closed spec fn spec_version(self) -> Seq<char> {
        self.core.version@
    }

    /// The backends the router was told about.
    pub closed spec fn spec_backends(self) -> Seq<BackendView> {
        backend_views(self.core.backends@)
    }

    pub closed spec fn spec_stats(self) -> RouterStats {
        self.core.stats
    }

    /// A random router named "random".
    pub fn new() -> (r: Self)
        ensures
            r.spec_name() == "random"@,
            r.spec_version() == "1.0.0"@,
            r.spec_backends() == Seq::<BackendView>::empty(),
            r.spec_stats().name@ == "random"@,
            r.spec_stats().total_requests == 0,
            r.spec_stats().successful_requests == 0,
            r.spec_stats().failed_requests == 0,
            r.spec_stats().backend_count == 0,
            r.spec_stats().healthy_backend_count == 0,
            r.spec_stats().active_connections == 0,
    {
        RandomRouter { core: RouterCore::new("random") }
    }

    pub fn name(&self) -> (r: &str)
        ensures
            r@ == self.spec_name(),
    {
        self.core.name.as_str()
    }

    pub fn version(&self) -> (r: &str)
        ensures
            r@ == self.spec_version(),
    {
        self.core.version.as_str()
    }

    /// Random selection takes no options.
    pub fn initialize(&mut self, config: &NameMap<OptionValue>)
        ensures
            *final(self) == *old(self),
    {
    }

    /// An available backend drawn at random.
    pub fn select_backend(&mut self, context: &RoutingContext, backends: &[BackendInfo]) -> (r: Option<BackendInfo>)
        ensures
            ({
                let avail = available_views(backend_views(backends@));
                if avail.len() == 0 {
                    r is None && *final(self) == *old(self)
                } else {
                    &&& exists|i: int| 0 <= i < avail.len() && opt_backend_view(r) == Some(avail[i])
                    &&& final(self).spec_stats() == stats_after_success(old(self).spec_stats())
                    &&& final(self).spec_backends() == old(self).spec_backends()
                    &&& final(self).spec_name() == old(self).spec_name()
                }
            }),
    {
        if backends.len() == 0 {
            assert(backend_views(backends@) =~= Seq::<BackendView>::empty());
            proof {
                reveal(Seq::filter);
            }
            return None;
        }
        let available = collect_available(backends);
        if available.len() == 0 {
            return None;
        }
        let draw = random_below(available.len() as u64);
        let selected = pick_available(backends, draw);
        self.core.note_success();
        selected
    }

    /// Remembers a new backend list and counts its backends.
    pub fn update_backends(&mut self, backends: Vec<BackendInfo>)
        ensures
            final(self).spec_backends() == backend_views(backends@),
            final(self).spec_stats() == stats_for_backends(old(self).spec_stats(), backend_views(backends@)),
            final(self).spec_name() == old(self).spec_name(),
    {
        self.core.set_backends(backends);
    }

    /// A copy of the router's stats.
    pub fn get_stats(&self) -> (r: RouterStats)
        ensures
            r == self.spec_stats(),
    {
        self.core.stats.clone()
    }

    /// Sets the health of the first known backend with id `backend_id`, and
    /// recounts the healthy ones.
    pub fn on_backend_health_changed(&mut self, backend_id: &str, healthy: bool)
        ensures
            final(self).spec_backends() == set_health(old(self).spec_backends(), backend_id@, healthy),
            final(self).spec_stats() == (RouterStats {
                healthy_backend_count: healthy_count(final(self).spec_backends()) as u32,
                ..old(self).spec_stats()
            }),
            final(self).spec_name() == old(self).spec_name(),
    {
        self.core.health_changed(backend_id, healthy);
    }

    /// Forgets the backends.
    pub fn shutdown(&mut self)
        ensures
            final(self).spec_backends() == Seq::<BackendView>::empty(),
            final(self).spec_stats() == old(self).spec_stats(),
            final(self).spec_name() == old(self).spec_name(),
    {
        self.core.clear_backends();
    }
}


/// The weighted selection among `avail` for a draw: nothing when the wrapped
/// total weight is zero, else a draw below that total and its weighted choice.
pub open spec fn weighted_outcome(avail: Seq<BackendView>, r: Option<BackendView>) -> bool {
    if wrapped_weight_total(avail) == 0 {
        r is None
    } else {
        exists|d: int| 0 <= d < wrapped_weight_total(avail) && r == weighted_choice(avail, d)
    }
}

impl WeightedRouter {
    pub closed spec fn spec_name(self) -> Seq<char> {
        self.core.name@
    }

    pub closed spec fn spec_version(self) -> Seq<char> {
        self.core.version@
    }

    /// Whether smooth weighted selection is configured.
    pub closed spec fn spec_smooth(self) -> bool {
        self.smooth_weighted
    }

    /// The backends the router was told about.
    pub closed spec fn spec_backends(self) -> Seq<BackendView> {
        backend_views(self.core.backends@)
    }

    pub closed spec fn spec_stats(self) -> RouterStats {
        self.core.stats
    }

    /// A weighted router named "weighted", configured for smooth selection.
    pub fn new() -> (r: Self)
        ensures
            r.spec_name() == "weighted"@,
            r.spec_version() == "1.0.0"@,
            r.spec_smooth(),
            r.spec_backends() == Seq::<BackendView>::empty(),
            r.spec_stats().name@ == "weighted"@,
            r.spec_stats().total_requests == 0,
            r.spec_stats().successful_requests == 0,
            r.spec_stats().failed_requests == 0,
            r.spec_stats().backend_count == 0,
            r.spec_stats().healthy_backend_count == 0,
            r.spec_stats().active_connections == 0,
    {
        WeightedRouter { core: RouterCore::new("weighted"), smooth_weighted: true }
    }

    pub fn name(&self) -> (r: &str)
        ensures
            r@ == self.spec_name(),
    {
        self.core.name.as_str()
    }

    pub fn version(&self) -> (r: &str)
        ensures
            r@ == self.spec_version(),
    {
        self.core.version.as_str()
    }

    /// Reads the option "smooth_weighted": a boolean sets the choice, any other
    /// value sets it to true, and without the option nothing changes.
    pub fn initialize(&mut self, config: &NameMap<OptionValue>)
        requires
            config.wf(),
        ensures
            final(self).spec_smooth() == (if config@.contains_key("smooth_weighted"@) {
                match config@["smooth_weighted"@] {
                    OptionValue::Bool(b) => b,
                    _ => true,
                }
            } else {
                old(self).spec_smooth()
            }),
            final(self).spec_backends() == old(self).spec_backends(),
            final(self).spec_stats() == old(self).spec_stats(),
            final(self).spec_name() == old(self).spec_name(),
    {
        match config.get("smooth_weighted") {
            Some(OptionValue::Bool(b)) => {
                self.smooth_weighted = *b;
            },
            Some(_) => {
                self.smooth_weighted = true;
            },
            None => {},
        }
    }

    /// A backend among the available ones, drawn with chances proportional to
    /// the weights (see `weighted_outcome`).  A backend of weight zero is never
    /// chosen.
    pub fn select_backend(&mut self, context: &RoutingContext, backends: &[BackendInfo]) -> (r: Option<BackendInfo>)
        ensures
            ({
                let avail = available_views(backend_views(backends@));
                if avail.len() == 0 {
                    r is None && *final(self) == *old(self)
                } else {
                    &&& weighted_outcome(avail, opt_backend_view(r))
                    &&& r matches Some(b) ==> b@.weight > 0 && avail.contains(b@)
                    &&& final(self).spec_stats() == (if r is Some {
                        stats_after_success(old(self).spec_stats())
                    } else {
                        stats_after_failure(old(self).spec_stats())
                    })
                    &&& final(self).spec_backends() == old(self).spec_backends()
                    &&& final(self).spec_smooth() == old(self).spec_smooth()
                    &&& final(self).spec_name() == old(self).spec_name()
                }
            }),
    {
        if backends.len() == 0 {
            assert(backend_views(backends@) =~= Seq::<BackendView>::empty());
            proof {
                reveal(Seq::filter);
            }
            return None;
        }
        let available = collect_available(backends);
        if available.len() == 0 {
            return None;
        }
        let selected = if self.smooth_weighted {
            Self::select_smooth_weighted(available.as_slice())
        } else {
            Self::select_simple_weighted(available.as_slice())
        };
        if selected.is_some() {
            self.core.note_success();
        } else {
            self.core.note_failure();
        }
        selected
    }

    /// A weighted random choice: the total weight is summed (as a 32-bit sum that
    /// wraps around); with a total of zero there is no choice, else a draw below
    /// the total picks the backend.
    fn select_simple_weighted(backends: &[BackendInfo]) -> (r: Option<BackendInfo>)
        ensures
            weighted_outcome(backend_views(backends@), opt_backend_view(r)),
            r matches Some(b) ==> b@.weight > 0 && backend_views(backends@).contains(b@),
    {
        let ghost all = backend_views(backends@);
        let total = weight_sum(backends);
        if total == 0 {
            return None;
        }
        let draw = random_below(total as u64) as u32;
        let selected = pick_weighted(backends, draw);
        proof {
            lemma_weight_total_nonneg(all);
            lemma_weighted_pick_finds(all, draw as int);
        }
        selected
    }

    /// Smooth weighted selection, which uses the same weighted random choice.
    fn select_smooth_weighted(backends: &[BackendInfo]) -> (r: Option<BackendInfo>)
        ensures
            backends@.len() == 0 ==> r is None,
            backends@.len() > 0 ==> weighted_outcome(backend_views(backends@), opt_backend_view(r)),
            r matches Some(b) ==> b@.weight > 0 && backend_views(backends@).contains(b@),
    {
        if backends.len() == 0 {
            return None;
        }
        Self::select_simple_weighted(backends)
    }

    /// Remembers a new backend list and counts its backends.
    pub fn update_backends(&mut self, backends: Vec<BackendInfo>)
        ensures
            final(self).spec_backends() == backend_views(backends@),
            final(self).spec_stats() == stats_for_backends(old(self).spec_stats(), backend_views(backends@)),
            final(self).spec_smooth() == old(self).spec_smooth(),
            final(self).spec_name() == old(self).spec_name(),
    {
        self.core.set_backends(backends);
    }

    /// A copy of the router's stats.
    pub fn get_stats(&self) -> (r: RouterStats)
        ensures
            r == self.spec_stats(),
    {
        self.core.stats.clone()
    }

    /// Sets the health of the first known backend with id `backend_id`, and
    /// recounts the healthy ones.
    pub fn on_backend_health_changed(&mut self, backend_id: &str, healthy: bool)
        ensures
            final(self).spec_backends() == set_health(old(self).spec_backends(), backend_id@, healthy),
            final(self).spec_stats() == (RouterStats {
                healthy_backend_count: healthy_count(final(self).spec_backends()) as u32,
                ..old(self).spec_stats()
            }),
            final(self).spec_smooth() == old(self).spec_smooth(),
            final(self).spec_name() == old(self).spec_name(),
    {
        self.core.health_changed(backend_id, healthy);
    }

    /// Forgets the backends.
    pub fn shutdown(&mut self)
        ensures
            final(self).spec_backends() == Seq::<BackendView>::empty(),
            final(self).spec_stats() == old(self).spec_stats(),
            final(self).spec_smooth() == old(self).spec_smooth(),
            final(self).spec_name() == old(self).spec_name(),
    {
        self.core.clear_backends();
    }
}

/// The hash key a configured name stands for.
fn hash_key_from(k: &String) -> (r: HashKey)
    ensures
        r == hash_key_named(*k),
{
    let s = k.as_str();
    if text_eq(s, "client_ip") {
        HashKey::ClientIp
    } else if text_eq(s, "client_port") {
        HashKey::ClientPort
    } else if text_eq(s, "target_port") {
        HashKey::TargetPort
    } else if text_eq(s, "session_id") {
        HashKey::SessionId
    } else if text_eq(s, "sni") {
        HashKey::Sni
    } else {
        HashKey::Custom(k.clone())
    }
}

impl HashRouter {
    pub closed spec fn spec_name(self) -> Seq<char> {
        self.core.name@
    }

    pub closed spec fn spec_version(self) -> Seq<char> {
        self.core.version@
    }

    /// What the router hashes.
    pub closed spec fn spec_hash_key(self) -> HashKey {
        self.hash_key
    }

    /// The backends the router was told about.
    pub closed spec fn spec_backends(self) -> Seq<BackendView> {
        backend_views(self.core.backends@)
    }

    pub closed spec fn spec_stats(self) -> RouterStats {
        self.core.stats
    }

    /// A hash router named "hash" that hashes the client's IP address.
    pub fn new() -> (r: Self)
        ensures
            r.spec_name() == "hash"@,
            r.spec_version() == "1.0.0"@,
            r.spec_hash_key() == HashKey::ClientIp,
            r.spec_backends() == Seq::<BackendView>::empty(),
            r.spec_stats().name@ == "hash"@,
            r.spec_stats().total_requests == 0,
            r.spec_stats().successful_requests == 0,
            r.spec_stats().failed_requests == 0,
            r.spec_stats().backend_count == 0,
            r.spec_stats().healthy_backend_count == 0,
            r.spec_stats().active_connections == 0,
    {
        HashRouter { core: RouterCore::new("hash"), hash_key: HashKey::ClientIp }
    }

    pub fn name(&self) -> (r: &str)
        ensures
            r@ == self.spec_name(),
    {
        self.core.name.as_str()
    }

    pub fn version(&self) -> (r: &str)
        ensures
            r@ == self.spec_version(),
    {
        self.core.version.as_str()
    }

    /// Reads the option "hash_key": a text names the key ("client_ip",
    /// "client_port", "target_port", "session_id", "sni", or else a metadata
    /// entry); without a text nothing changes.
    pub fn initialize(&mut self, config: &NameMap<OptionValue>)
        requires
            config.wf(),
        ensures
            final(self).spec_hash_key() == (if config@.contains_key("hash_key"@) && config@["hash_key"@] is Text {
                hash_key_named(config@["hash_key"@]->Text_0)
            } else {
                old(self).spec_hash_key()
            }),
            final(self).spec_backends() == old(self).spec_backends(),
            final(self).spec_stats() == old(self).spec_stats(),
            final(self).spec_name() == old(self).spec_name(),
    {
        match config.get("hash_key") {
            Some(OptionValue::Text(k)) => {
                self.hash_key = hash_key_from(k);
            },
            _ => {},
        }
    }

    /// The digest of the configured part of the context.
    fn calculate_hash(&self, context: &RoutingContext) -> (r: u64)
        requires
            context.metadata.wf(),
        ensures
            r == context_digest(self.spec_hash_key(), *context),
    {
        match &self.hash_key {
            HashKey::ClientIp => hash_ip(&context.client_addr.ip),
            HashKey::ClientPort => hash_port(context.client_addr.port),
            HashKey::TargetPort => hash_port(context.target_addr.port),
            HashKey::SessionId => match &context.session_id {
                Some(session_id) => hash_text(session_id.as_str()),
                None => hash_ip(&context.client_addr.ip),
            },
            HashKey::Sni => match &context.sni {
                Some(sni) => hash_text(sni.as_str()),
                None => hash_ip(&context.client_addr.ip),
            },
            HashKey::Custom(key) => match context.metadata.get(key.as_str()) {
                Some(value) => hash_text(value.as_str()),
                None => hash_ip(&context.client_addr.ip),
            },
        }
    }

    /// The available backend at the position the context's digest gives,
    /// modulo the number of available backends.
    pub fn select_backend(&mut self, context: &RoutingContext, backends: &[BackendInfo]) -> (r: Option<BackendInfo>)
        requires
            context.metadata.wf(),
        ensures
            ({
                let avail = available_views(backend_views(backends@));
                if avail.len() == 0 {
                    r is None && *final(self) == *old(self)
                } else {
                    &&& opt_backend_view(r) == Some(avail[((context_digest(old(self).spec_hash_key(), *context) as usize)
                        % (avail.len() as usize)) as int])
                    &&& final(self).spec_stats() == stats_after_success(old(self).spec_stats())
                    &&& final(self).spec_hash_key() == old(self).spec_hash_key()
                    &&& final(self).spec_backends() == old(self).spec_backends()
                    &&& final(self).spec_name() == old(self).spec_name()
                }
            }),
    {
        if backends.len() == 0 {
            assert(backend_views(backends@) =~= Seq::<BackendView>::empty());
            proof {
                reveal(Seq::filter);
            }
            return None;
        }
        let available = collect_available(backends);
        if available.len() == 0 {
            return None;
        }
        let hash_value = self.calculate_hash(context);
        let index = (hash_value as usize) % available.len();
        let selected = available[index].clone();
        self.core.note_success();
        Some(selected)
    }

    /// Remembers a new backend list and counts its backends.
    pub fn update_backends(&mut self, backends: Vec<BackendInfo>)
        ensures
            final(self).spec_backends() == backend_views(backends@),
            final(self).spec_stats() == stats_for_backends(old(self).spec_stats(), backend_views(backends@)),
            final(self).spec_hash_key() == old(self).spec_hash_key(),
            final(self).spec_name() == old(self).spec_name(),
    {
        self.core.set_backends(backends);
    }

    /// A copy of the router's stats.
    pub fn get_stats(&self) -> (r: RouterStats)
        ensures
            r == self.spec_stats(),
    {
        self.core.stats.clone()
    }

    /// Sets the health of the first known backend with id `backend_id`, and
    /// recounts the healthy ones.
    pub fn on_backend_health_changed(&mut self, backend_id: &str, healthy: bool)
        ensures
            final(self).spec_backends() == set_health(old(self).spec_backends(), backend_id@, healthy),
            final(self).spec_stats() == (RouterStats {
                healthy_backend_count: healthy_count(final(self).spec_backends()) as u32,
                ..old(self).spec_stats()
            }),
            final(self).spec_hash_key() == old(self).spec_hash_key(),
            final(self).spec_name() == old(self).spec_name(),
    {
        self.core.health_changed(backend_id, healthy);
    }

    /// Forgets the backends.
    pub fn shutdown(&mut self)
        ensures
            final(self).spec_backends() == Seq::<BackendView>::empty(),
            final(self).spec_stats() == old(self).spec_stats(),
            final(self).spec_hash_key() == old(self).spec_hash_key(),
            final(self).spec_name() == old(self).spec_name(),
    {
        self.core.clear_backends();
    }
}


/// A router of one of the provided kinds.
pub enum RouterInstance {
    RoundRobin(RoundRobinRouter),
    Weighted(WeightedRouter),
    Hash(HashRouter),
    LeastConnections(LeastConnectionsRouter),
    Random(RandomRouter),
}

/// What a selection may give for a router in state `pre`, a context and the
/// available backends `avail`: nothing when none is available; otherwise
/// round robin takes the position of its counter, hashing the position of the
/// context's digest, least connections a least-loaded backend, random any
/// available backend, and weighted a weighted choice (see `weighted_outcome`).
pub open spec fn selection_outcome(
    pre: RouterInstance,
    ctx: RoutingContext,
    avail: Seq<BackendView>,
    r: Option<BackendView>,
) -> bool {
    if avail.len() == 0 {
        r is None
    } else {
        match pre {
            RouterInstance::RoundRobin(x) => r == Some(avail[(x.spec_counter() % (avail.len() as usize)) as int]),
            RouterInstance::Weighted(_) => weighted_outcome(avail, r),
            RouterInstance::Hash(x) => r == Some(
                avail[((context_digest(x.spec_hash_key(), ctx) as usize) % (avail.len() as usize)) as int],
            ),
            RouterInstance::LeastConnections(_) => exists|i: int| least_loaded(avail, i) && r == Some(avail[i]),
            RouterInstance::Random(_) => exists|i: int| 0 <= i < avail.len() && r == Some(avail[i]),
        }
    }
}

/// How a router's own state moves on with a selection among `avail`: the kind
/// stays, the round-robin counter advances when a backend was available, and
/// the hash key and weighted mode stay.
pub open spec fn selection_step(pre: RouterInstance, post: RouterInstance, avail: Seq<BackendView>) -> bool {
    match (pre, post) {
        (RouterInstance::RoundRobin(a), RouterInstance::RoundRobin(b)) => b.spec_counter() == (if avail.len() == 0 {
            a.spec_counter()
        } else {
            bump_index(a.spec_counter())
        }),
        (RouterInstance::Weighted(a), RouterInstance::Weighted(b)) => a.spec_smooth() == b.spec_smooth(),
        (RouterInstance::Hash(a), RouterInstance::Hash(b)) => a.spec_hash_key() == b.spec_hash_key(),
        (RouterInstance::LeastConnections(_), RouterInstance::LeastConnections(_)) => true,
        (RouterInstance::Random(_), RouterInstance::Random(_)) => true,
        _ => false,
    }
}

/// A router of kind `kind` in its initial state: no backends, all counts zero,
/// the round-robin cycle at its start, hashing the client's IP address, and
/// smooth weighted selection.
pub open spec fn fresh_router(r: RouterInstance, kind: PluginKind) -> bool {
    &&& r.kind() == kind
    &&& r.spec_backends() == Seq::<BackendView>::empty()
    &&& r.spec_stats().total_requests == 0
    &&& r.spec_stats().successful_requests == 0
    &&& r.spec_stats().failed_requests == 0
    &&& r.spec_stats().active_connections == 0
    &&& r.spec_stats().backend_count == 0
    &&& r.spec_stats().healthy_backend_count == 0
    &&& r.counter_of() == 0
    &&& r.hash_key_of() == HashKey::ClientIp
    &&& r.smooth_of()
}

/// The hash key that the options set: a text under "hash_key" names it,
/// otherwise `current` stays.
pub open spec fn hash_key_option(options: Map<Seq<char>, OptionValue>, current: HashKey) -> HashKey {
    if options.contains_key("hash_key"@) && options["hash_key"@] is Text {
        hash_key_named(options["hash_key"@]->Text_0)
    } else {
        current
    }
}

/// The weighted mode that the options set: a boolean under "smooth_weighted"
/// sets it, another value there makes it smooth, and without the option
/// `current` stays.
pub open spec fn smooth_option(options: Map<Seq<char>, OptionValue>, current: bool) -> bool {
    if options.contains_key("smooth_weighted"@) {
        match options["smooth_weighted"@] {
            OptionValue::Bool(b) => b,
            _ => true,
        }
    } else {
        current
    }
}

/// A router after its options were applied: a hash router takes its key and a
/// weighted router its mode from them; nothing else changes.
pub open spec fn options_applied(pre: RouterInstance, post: RouterInstance, options: Map<Seq<char>, OptionValue>) -> bool {
    &&& post.kind() == pre.kind()
    &&& post.spec_name() == pre.spec_name()
    &&& post.spec_backends() == pre.spec_backends()
    &&& post.spec_stats() == pre.spec_stats()
    &&& post.counter_of() == pre.counter_of()
    &&& post.hash_key_of() == (if pre.kind() == PluginKind::Hash {
        hash_key_option(options, pre.hash_key_of())
    } else {
        pre.hash_key_of()
    })
    &&& post.smooth_of() == (if pre.kind() == PluginKind::Weighted {
        smooth_option(options, pre.smooth_of())
    } else {
        pre.smooth_of()
    })
}

/// A router after the health of backend `id` changed: the first known backend
/// with that id takes the new health and the healthy ones are counted again;
/// nothing else changes.
pub open spec fn health_noted(pre: RouterInstance, post: RouterInstance, id: Seq<char>, healthy: bool) -> bool {
    &&& post.kind() == pre.kind()
    &&& post.spec_name() == pre.spec_name()
    &&& post.spec_backends() == set_health(pre.spec_backends(), id, healthy)
    &&& post.spec_stats() == (RouterStats {
        healthy_backend_count: healthy_count(post.spec_backends()) as u32,
        ..pre.spec_stats()
    })
    &&& post.counter_of() == pre.counter_of()
    &&& post.hash_key_of() == pre.hash_key_of()
    &&& post.smooth_of() == pre.smooth_of()
}

impl RouterInstance {
    /// The kind of the router.
    pub open spec fn kind(self) -> PluginKind {
        match self {
            RouterInstance::RoundRobin(_) => PluginKind::RoundRobin,
            RouterInstance::Weighted(_) => PluginKind::Weighted,
            RouterInstance::Hash(_) => PluginKind::Hash,
            RouterInstance::LeastConnections(_) => PluginKind::LeastConnections,
            RouterInstance::Random(_) => PluginKind::Random,
        }
    }

    /// The round-robin counter (zero for other kinds).
    pub open spec fn counter_of(self) -> usize {
        match self {
            RouterInstance::RoundRobin(x) => x.spec_counter(),
            _ => 0,
        }
    }

    /// The hash key (the client's IP address for other kinds).
    pub open spec fn hash_key_of(self) -> HashKey {
        match self {
            RouterInstance::Hash(x) => x.spec_hash_key(),
            _ => HashKey::ClientIp,
        }
    }

    /// Whether weighted selection is smooth (true for other kinds).
    pub open spec fn smooth_of(self) -> bool {
        match self {
            RouterInstance::Weighted(x) => x.spec_smooth(),
            _ => true,
        }
    }

    pub open spec fn spec_name(self) -> Seq<char> {
        match self {
            RouterInstance::RoundRobin(x) => x.spec_name(),
            RouterInstance::Weighted(x) => x.spec_name(),
            RouterInstance::Hash(x) => x.spec_name(),
            RouterInstance::LeastConnections(x) => x.spec_name(),
            RouterInstance::Random(x) => x.spec_name(),
        }
    }

    pub open spec fn spec_stats(self) -> RouterStats {
        match self {
            RouterInstance::RoundRobin(x) => x.spec_stats(),
            RouterInstance::Weighted(x) => x.spec_stats(),
            RouterInstance::Hash(x) => x.spec_stats(),
            RouterInstance::LeastConnections(x) => x.spec_stats(),
            RouterInstance::Random(x) => x.spec_stats(),
        }
    }

    /// The backends the router was told about.
    pub open spec fn spec_backends(self) -> Seq<BackendView> {
        match self {
            RouterInstance::RoundRobin(x) => x.spec_backends(),
            RouterInstance::Weighted(x) => x.spec_backends(),
            RouterInstance::Hash(x) => x.spec_backends(),
            RouterInstance::LeastConnections(x) => x.spec_backends(),
            RouterInstance::Random(x) => x.spec_backends(),
        }
    }

    /// A new router of the given kind, in its initial state.
    pub fn fresh(kind: PluginKind) -> (r: Self)
        ensures
            fresh_router(r, kind),
    {
        match kind {
            PluginKind::RoundRobin => RouterInstance::RoundRobin(RoundRobinRouter::new()),
            PluginKind::Weighted => RouterInstance::Weighted(WeightedRouter::new()),
            PluginKind::Hash => RouterInstance::Hash(HashRouter::new()),
            PluginKind::LeastConnections => RouterInstance::LeastConnections(LeastConnectionsRouter::new()),
            PluginKind::Random => RouterInstance::Random(RandomRouter::new()),
        }
    }

    pub fn name(&self) -> (r: &str)
        ensures
            r@ == self.spec_name(),
    {
        match self {
            RouterInstance::RoundRobin(x) => x.name(),
            RouterInstance::Weighted(x) => x.name(),
            RouterInstance::Hash(x) => x.name(),
            RouterInstance::LeastConnections(x) => x.name(),
            RouterInstance::Random(x) => x.name(),
        }
    }

    /// Applies a router's options (see `options_applied`).
    pub fn initialize(&mut self, config: &NameMap<OptionValue>)
        requires
            config.wf(),
        ensures
            options_applied(*old(self), *final(self), config@),
            old(self).kind() == PluginKind::RoundRobin ==> *final(self) == *old(self),
            old(self).kind() == PluginKind::LeastConnections ==> *final(self) == *old(self),
            old(self).kind() == PluginKind::Random ==> *final(self) == *old(self),
    {
        match self {
            RouterInstance::RoundRobin(x) => x.initialize(config),
            RouterInstance::Weighted(x) => x.initialize(config),
            RouterInstance::Hash(x) => x.initialize(config),
            RouterInstance::LeastConnections(x) => x.initialize(config),
            RouterInstance::Random(x) => x.initialize(config),
        }
    }

    /// Chooses a backend (see `selection_outcome` and `selection_step`).
    pub fn select_backend(&mut self, context: &RoutingContext, backends: &[BackendInfo]) -> (r: Option<BackendInfo>)
        requires
            context.metadata.wf(),
        ensures
            selection_outcome(*old(self), *context, available_views(backend_views(backends@)), opt_backend_view(r)),
            selection_step(*old(self), *final(self), available_views(backend_views(backends@))),
            final(self).spec_backends() == old(self).spec_backends(),
            final(self).spec_name() == old(self).spec_name(),
            r matches Some(b) ==> available_views(backend_views(backends@)).contains(b@),
    {
        let ghost avail = available_views(backend_views(backends@));
        let _n = backends.len();
        proof {
            backend_views(backends@).lemma_filter_len(available_pred());
        }
        let r = match self {
            RouterInstance::RoundRobin(x) => x.select_backend(context, backends),
            RouterInstance::Weighted(x) => x.select_backend(context, backends),
            RouterInstance::Hash(x) => x.select_backend(context, backends),
            RouterInstance::LeastConnections(x) => x.select_backend(context, backends),
            RouterInstance::Random(x) => x.select_backend(context, backends),
        };
        proof {
            if avail.len() > 0 {
                match *old(self) {
                    RouterInstance::RoundRobin(x) => {
                        let i = (x.spec_counter() % (avail.len() as usize)) as int;
                        assert(avail.contains(avail[i]));
                    },
                    RouterInstance::Hash(x) => {
                        let i = ((context_digest(x.spec_hash_key(), *context) as usize) % (avail.len() as usize)) as int;
                        assert(avail.contains(avail[i]));
                    },
                    RouterInstance::LeastConnections(_) => {
                        let i = choose|i: int| least_loaded(avail, i) && opt_backend_view(r) == Some(avail[i]);
                        assert(avail.contains(avail[i]));
                    },
                    RouterInstance::Random(_) => {
                        let i = choose|i: int| 0 <= i < avail.len() && opt_backend_view(r) == Some(avail[i]);
                        assert(avail.contains(avail[i]));
                    },
                    RouterInstance::Weighted(_) => {},
                }
            }
        }
        r
    }

    /// Remembers a new backend list.
    pub fn update_backends(&mut self, backends: Vec<BackendInfo>)
        ensures
            final(self).kind() == old(self).kind(),
            final(self).spec_backends() == backend_views(backends@),
            final(self).spec_name() == old(self).spec_name(),
    {
        match self {
            RouterInstance::RoundRobin(x) => x.update_backends(backends),
            RouterInstance::Weighted(x) => x.update_backends(backends),
            RouterInstance::Hash(x) => x.update_backends(backends),
            RouterInstance::LeastConnections(x) => x.update_backends(backends),
            RouterInstance::Random(x) => x.update_backends(backends),
        }
    }

    /// A copy of the router's stats.
    pub fn get_stats(&self) -> (r: RouterStats)
        ensures
            r == self.spec_stats(),
    {
        match self {
            RouterInstance::RoundRobin(x) => x.get_stats(),
            RouterInstance::Weighted(x) => x.get_stats(),
            RouterInstance::Hash(x) => x.get_stats(),
            RouterInstance::LeastConnections(x) => x.get_stats(),
            RouterInstance::Random(x) => x.get_stats(),
        }
    }

    /// Records a backend's new health (see `health_noted`).
    pub fn on_backend_health_changed(&mut self, backend_id: &str, healthy: bool)
        ensures
            health_noted(*old(self), *final(self), backend_id@, healthy),
    {
        match self {
            RouterInstance::RoundRobin(x) => x.on_backend_health_changed(backend_id, healthy),
            RouterInstance::Weighted(x) => x.on_backend_health_changed(backend_id, healthy),
            RouterInstance::Hash(x) => x.on_backend_health_changed(backend_id, healthy),
            RouterInstance::LeastConnections(x) => x.on_backend_health_changed(backend_id, healthy),
            RouterInstance::Random(x) => x.on_backend_health_changed(backend_id, healthy),
        }
    }

    /// Releases the router's backends.
    pub fn shutdown(&mut self)
        ensures
            final(self).kind() == old(self).kind(),
            final(self).spec_backends() == Seq::<BackendView>::empty(),
            final(self).spec_name() == old(self).spec_name(),
    {
        match self {
            RouterInstance::RoundRobin(x) => x.shutdown(),
            RouterInstance::Weighted(x) => x.shutdown(),
            RouterInstance::Hash(x) => x.shutdown(),
            RouterInstance::LeastConnections(x) => x.shutdown(),
            RouterInstance::Random(x) => x.shutdown(),
        }
    }
}

/// A round-robin router takes the available backends in turn: the selection
/// after a selection over the same backends takes the next one (unless its
/// counter is at the largest `usize`, where it starts over at zero).
pub proof fn lemma_round_robin_takes_turns(
    pre: RouterInstance,
    mid: RouterInstance,
    ctx1: RoutingContext,
    ctx2: RoutingContext,
    avail: Seq<BackendView>,
    r1: Option<BackendView>,
    r2: Option<BackendView>,
)
    requires
        pre.kind() == PluginKind::RoundRobin,
        0 < avail.len() <= usize::MAX,
        pre.counter_of() < usize::MAX,
        selection_outcome(pre, ctx1, avail, r1),
        selection_step(pre, mid, avail),
        selection_outcome(mid, ctx2, avail, r2),
    ensures
        r1 == Some(avail[(pre.counter_of() as int) % (avail.len() as int)]),
        r2 == Some(avail[(pre.counter_of() as int + 1) % (avail.len() as int)]),
{
    match (pre, mid) {
        (RouterInstance::RoundRobin(a), RouterInstance::RoundRobin(b)) => {
            let n = avail.len() as usize;
            assert(n as int == avail.len());
            assert(b.spec_counter() == a.spec_counter() + 1);
            assert((a.spec_counter() % n) as int == (a.spec_counter() as int) % (n as int));
            assert((b.spec_counter() % n) as int == (b.spec_counter() as int) % (n as int));
        },
        _ => {},
    }
}

/// How many of the selections over these lists of available backends found
/// one (a selection over an empty list does not count).
pub open spec fn served(avails: Seq<Seq<BackendView>>) -> nat
    decreases avails.len(),
{
    if avails.len() == 0 {
        0
    } else {
        served(avails.drop_last()) + if avails.last().len() > 0 {
            1nat
        } else {
            0nat
        }
    }
}

/// One selection of a round-robin router, as `select_backend` states it: over
/// the available backends `avail`, from the router `pre` to `post`, with the
/// result `r`.
pub open spec fn round_robin_step(
    pre: RoundRobinRouter,
    post: RoundRobinRouter,
    avail: Seq<BackendView>,
    r: Option<BackendView>,
) -> bool {
    if avail.len() == 0 {
        r is None && post.spec_counter() == pre.spec_counter()
    } else {
        &&& avail.len() <= usize::MAX
        &&& r == Some(avail[(pre.spec_counter() % (avail.len() as usize)) as int])
        &&& post.spec_counter() == bump_index(pre.spec_counter())
    }
}

/// The counter of a round-robin router after a run of selections: its
/// starting value plus the selections that found a backend, wrapping around
/// past the largest `usize`.
proof fn lemma_round_robin_counter(states: Seq<RoundRobinRouter>, avails: Seq<Seq<BackendView>>, results: Seq<
    Option<BackendView>,
>)
    requires
        states.len() == avails.len() + 1,
        results.len() == avails.len(),
        forall|i: int| 0 <= i < avails.len() ==> round_robin_step(states[i], states[i + 1], avails[i], results[i]),
    ensures
        states.last().spec_counter() == (states[0].spec_counter() + served(avails)) % (usize::MAX as int + 1),
    decreases avails.len(),
{
    let m = usize::MAX as int + 1;
    let c0 = states[0].spec_counter() as int;
    if avails.len() == 0 {
        assert(c0 % m == c0) by (nonlinear_arith)
            requires
                0 <= c0 < m,
        ;
    } else {
        let n = avails.len() - 1;
        lemma_round_robin_counter(states.drop_last(), avails.drop_last(), results.drop_last());
        assert(states.drop_last().last() == states[n]);
        assert(round_robin_step(states[n], states[n + 1], avails[n], results[n]));
        let x = c0 + served(avails.drop_last());
        assert(states[n].spec_counter() == x % m);
        if avails[n].len() > 0 {
            assert(served(avails) == served(avails.drop_last()) + 1);
            assert((x % m + 1) % m == (x + 1) % m) by (nonlinear_arith)
                requires
                    m > 1,
                    x >= 0,
            {
                vstd::arithmetic::div_mod::lemma_add_mod_noop(x, 1, m);
                assert(1int % m == 1);
            }
            if states[n].spec_counter() == usize::MAX {
                assert(x % m + 1 == m);
                assert(m % m == 0) by (nonlinear_arith)
                    requires
                        m > 0,
                ;
            } else {
                assert((x % m + 1) % m == x % m + 1) by (nonlinear_arith)
                    requires
                        0 <= x % m + 1 < m,
                ;
            }
        } else {
            assert(served(avails) == served(avails.drop_last()));
        }
    }
}

/// A round-robin router serves the available backends in turn over any run
/// of selections: counting the selections that found a backend since the
/// router started its cycle (its counter at zero, as after `new` or
/// `shutdown`), the k-th of them takes the available backend at position
/// k modulo their number, with k counted modulo 2 to the power of the bits of
/// a `usize`.
pub proof fn lemma_round_robin_cycle(
    states: Seq<RoundRobinRouter>,
    avails: Seq<Seq<BackendView>>,
    results: Seq<Option<BackendView>>,
)
    requires
        states.len() == avails.len() + 1,
        results.len() == avails.len(),
        states[0].spec_counter() == 0,
        forall|i: int| 0 <= i < avails.len() ==> round_robin_step(states[i], states[i + 1], avails[i], results[i]),
    ensures
        forall|i: int|
            0 <= i < avails.len() && avails[i].len() > 0 ==> results[i] == Some(
                avails[i][((served(avails.take(i)) as int) % (usize::MAX as int + 1)) % (avails[i].len() as int)],
            ),
        forall|i: int| 0 <= i < avails.len() && avails[i].len() == 0 ==> results[i] is None,
{
    assert forall|i: int| 0 <= i < avails.len() && avails[i].len() > 0 implies results[i] == Some(
        avails[i][((served(avails.take(i)) as int) % (usize::MAX as int + 1)) % (avails[i].len() as int)],
    ) by {
        let st = states.take(i + 1);
        let av = avails.take(i);
        let rs = results.take(i);
        assert forall|j: int| 0 <= j < av.len() implies round_robin_step(st[j], st[j + 1], av[j], rs[j]) by {
            assert(round_robin_step(states[j], states[j + 1], avails[j], results[j]));
        }
        lemma_round_robin_counter(st, av, rs);
        assert(st.last() == states[i]);
        assert(round_robin_step(states[i], states[i + 1], avails[i], results[i]));
        let n = avails[i].len() as usize;
        assert((states[i].spec_counter() % n) as int == (states[i].spec_counter() as int) % (n as int));
    }
    assert forall|i: int| 0 <= i < avails.len() && avails[i].len() == 0 implies results[i] is None by {
        assert(round_robin_step(states[i], states[i + 1], avails[i], results[i]));
    }
}

/// A hash router gives the same backend for the same connection and the same
/// available backends, selection after selection.
pub proof fn lemma_hash_repeats(
    pre: RouterInstance,
    mid: RouterInstance,
    ctx: RoutingContext,
    avail: Seq<BackendView>,
    r1: Option<BackendView>,
    r2: Option<BackendView>,
)
    requires
        pre.kind() == PluginKind::Hash,
        selection_outcome(pre, ctx, avail, r1),
        selection_step(pre, mid, avail),
        selection_outcome(mid, ctx, avail, r2),
    ensures
        r1 == r2,
{
}

/// A hash router whose configured part is missing from the context (no
/// session id, no server name, or no metadata entry under the custom key)
/// hashes the client's IP address instead, and so chooses what a router keyed
/// by the client's IP address chooses for that context from the same backends.
pub proof fn lemma_hash_missing_part_uses_client_ip(
    pre: RouterInstance,
    by_ip: RouterInstance,
    ctx: RoutingContext,
    avail: Seq<BackendView>,
    r1: Option<BackendView>,
    r2: Option<BackendView>,
)
    requires
        pre.kind() == PluginKind::Hash,
        by_ip.kind() == PluginKind::Hash,
        by_ip.hash_key_of() == HashKey::ClientIp,
        match pre.hash_key_of() {
            HashKey::SessionId => ctx.session_id is None,
            HashKey::Sni => ctx.sni is None,
            HashKey::Custom(k) => !ctx.metadata@.contains_key(k@),
            _ => false,
        },
        selection_outcome(pre, ctx, avail, r1),
        selection_outcome(by_ip, ctx, avail, r2),
    ensures
        context_digest(pre.hash_key_of(), ctx) == context_digest(HashKey::ClientIp, ctx),
        r1 == r2,
{
}

/// A least-connections router chooses a backend with no more connections than
/// any other available one.
pub proof fn lemma_least_connections_minimal(
    pre: RouterInstance,
    ctx: RoutingContext,
    avail: Seq<BackendView>,
    b: BackendView,
)
    requires
        pre.kind() == PluginKind::LeastConnections,
        selection_outcome(pre, ctx, avail, Some(b)),
    ensures
        forall|j: int| 0 <= j < avail.len() ==> b.current_connections <= #[trigger] avail[j].current_connections,
{
}

/// A weighted router never chooses a backend of weight zero, and what it
/// chooses is available.
pub proof fn lemma_weighted_skips_zero_weight(
    pre: RouterInstance,
    ctx: RoutingContext,
    avail: Seq<BackendView>,
    b: BackendView,
)
    requires
        pre.kind() == PluginKind::Weighted,
        selection_outcome(pre, ctx, avail, Some(b)),
    ensures
        b.weight > 0,
        avail.contains(b),
{
    let d = choose|d: int| 0 <= d < wrapped_weight_total(avail) && Some(b) == weighted_choice(avail, d);
    lemma_weight_total_nonneg(avail);
    lemma_weighted_pick_finds(avail, d);
}

/// The router plugins known by name.
pub struct RouterRegistry {
    factories: NameMap<PluginKind>,
}

impl RouterRegistry {
    /// The plugins by name.
    pub closed spec fn plugins(self) -> Map<Seq<char>, PluginKind> {
        self.factories@
    }

    /// The plugin names in registration order.
    pub closed spec fn plugin_names(self) -> Seq<Seq<char>> {
        self.factories.names()
    }

    pub closed spec fn wf(self) -> bool {
        self.factories.wf()
    }

    /// A registry with no plugins.
    pub fn new() -> (r: Self)
        ensures
            r.wf(),
            r.plugins() == Map::<Seq<char>, PluginKind>::empty(),
            r.plugin_names() == Seq::<Seq<char>>::empty(),
    {
        let r = RouterRegistry { factories: NameMap::new() };
        assert(r.factories.names() =~= Seq::<Seq<char>>::empty());
        r
    }

    /// Makes `kind` available under `name`, replacing what that name stood for.
    pub fn register(&mut self, name: String, kind: PluginKind)
        requires
            old(self).wf(),
        ensures
            final(self).wf(),
            final(self).plugins() == old(self).plugins().insert(name@, kind),
            old(self).plugins().contains_key(name@) ==> final(self).plugin_names() == old(self).plugin_names(),
            !old(self).plugins().contains_key(name@) ==> final(self).plugin_names() == old(self).plugin_names().push(
                name@,
            ),
    {
        let ghost old_names = self.factories.names();
        self.factories.insert(name, kind);
        proof {
            if !old(self).plugins().contains_key(name@) {
                assert(self.factories.names() =~= old_names.push(name@));
            }
        }
    }

    /// A new router of the plugin registered under `name`.
    pub fn create(&self, name: &str) -> (r: Result<RouterInstance, RouterError>)
        requires
            self.wf(),
        ensures
            r is Ok <==> self.plugins().contains_key(name@),
            r matches Ok(x) ==> fresh_router(x, self.plugins()[name@]),
            r matches Err(RouterError::RouterNotFound(n)) ==> n@ == name@,
    {
        match self.factories.get(name) {
            Some(kind) => Ok(RouterInstance::fresh(*kind)),
            None => Err(RouterError::RouterNotFound(text_owned(name))),
        }
    }

    /// The names of all registered plugins, in registration order.
    pub fn list_routers(&self) -> (r: Vec<String>)
        ensures
            r@.map_values(|s: String| s@) == self.plugin_names(),
    {
        self.factories.name_list()
    }
}

impl Default for RouterRegistry {
    fn default() -> (r: Self)
        ensures
            r.wf(),
            r.plugins() == Map::<Seq<char>, PluginKind>::empty(),
    {
        Self::new()
    }
}

} // verus!
