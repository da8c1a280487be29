use vstd::prelude::*;
use crate::config::{
    backend_config_views, clone_rules, rule_views, Backend, BackendConfigView, Config, Protocol as RuleProtocol,
    RouterConfig, RoutingRule, RuleMatcher, RuleView,
};
use crate::name_map::{lemma_pairs_lookup, lemma_pairs_update, names_distinct, pairs_to_map, NameMap};
use crate::plugins::{
    collect_accepting, hash_key_option, health_noted, mark_health, opt_backend_view, options_applied,
    selection_outcome, selection_step, set_health, smooth_option, HashKey, PluginKind, RouterInstance,
    RouterRegistry,
};
use crate::router::{
    accepting_pred, accepting_views, available_views, backend_accepts, backend_views, lemma_accepting_are_available, opt_chars, sni_matches,
    BackendInfo, BackendView, OptionValue, Protocol, RouterError, RouterStats, RoutingContext,
};
use crate::text::{text_eq, text_owned};

verus! {

/// Whether a rule's protocol setting covers a connection's protocol.
pub open spec fn protocol_matches(p: RuleProtocol, q: Protocol) -> bool {
    match (p, q) {
        (RuleProtocol::Both, _) => true,
        (RuleProtocol::Tcp, Protocol::Tcp) => true,
        (RuleProtocol::Udp, Protocol::Udp) => true,
        _ => false,
    }
}

/// Whether a rule applies to a connection: the protocol must be covered, and
/// the matcher must accept the connection.  Port matchers compare the port the
/// client connected to, an SNI matcher the requested server name (see
/// `sni_matches`); address and custom matchers accept nothing.
pub open spec fn rule_applies(rule: RuleView, ctx: RoutingContext) -> bool {
    protocol_matches(rule.protocol, ctx.protocol) && match rule.matcher {
        RuleMatcher::Port { port } => ctx.target_addr.port == port,
        RuleMatcher::PortRange { start, end } => start <= ctx.target_addr.port && ctx.target_addr.port <= end,
        RuleMatcher::Sni { pattern } => sni_matches(opt_chars(ctx.sni), pattern@),
        _ => false,
    }
}

/// `i` is the position of the first rule that applies.
pub open spec fn first_applicable_at(rules: Seq<RuleView>, ctx: RoutingContext, i: int) -> bool {
    &&& 0 <= i < rules.len()
    &&& rule_applies(rules[i], ctx)
    &&& forall|j: int| 0 <= j < i ==> !rule_applies(#[trigger] rules[j], ctx)
}

/// The position of the first rule that applies, if any.
pub open spec fn first_applicable(rules: Seq<RuleView>, ctx: RoutingContext) -> Option<int> {
    if exists|i: int| first_applicable_at(rules, ctx, i) {
        Some(choose|i: int| first_applicable_at(rules, ctx, i))
    } else {
        None
    }
}

/// At most one position is that of the first applicable rule.
pub proof fn lemma_first_applicable_unique(rules: Seq<RuleView>, ctx: RoutingContext, i: int, j: int)
    requires
        first_applicable_at(rules, ctx, i),
        first_applicable_at(rules, ctx, j),
    ensures
        i == j,
{
    if i < j {
        assert(!rule_applies(rules[i], ctx));
    } else if j < i {
        assert(!rule_applies(rules[j], ctx));
    }
}

/// The backend a configured backend becomes in the routing cache: its weight
/// (1 when not set), healthy, without connections, limit or response time, and
/// with its metadata (none when not set).
pub open spec fn cache_entry(b: BackendConfigView) -> BackendView {
    BackendView {
        id: b.id,
        address: b.address,
        weight: match b.weight {
            Some(w) => w,
            None => 1,
        },
        enabled: b.enabled,
        healthy: true,
        current_connections: 0,
        max_connections: None,
        response_time: None,
        metadata: match b.metadata {
            Some(m) => m,
            None => Map::empty(),
        },
    }
}

/// The cache entries for a rule's configured backends.
pub open spec fn cache_entries(s: Seq<BackendConfigView>) -> Seq<BackendView> {
    s.map_values(|b: BackendConfigView| cache_entry(b))
}

/// `base` with an entry for each rule, in order, so that a later rule with the
/// same name replaces an earlier one.
pub open spec fn rules_cache(base: Map<Seq<char>, Seq<BackendView>>, rules: Seq<RuleView>) -> Map<
    Seq<char>,
    Seq<BackendView>,
>
    decreases rules.len(),
{
    if rules.len() == 0 {
        base
    } else {
        rules_cache(base, rules.drop_last()).insert(rules.last().name, cache_entries(rules.last().backends))
    }
}

/// The backends after the first one with id `id` has `connections` current connections.
pub open spec fn set_connections(s: Seq<BackendView>, id: Seq<char>, connections: u32) -> Seq<BackendView> {
    if exists|i: int| 0 <= i < s.len() && s[i].id == id {
        let i = choose|i: int| 0 <= i < s.len() && s[i].id == id && forall|j: int| 0 <= j < i ==> s[j].id != id;
        s.update(i, BackendView { current_connections: connections, ..s[i] })
    } else {
        s
    }
}

/// Sets the connection count of the first backend with id `id`.
fn mark_connections(backends: &mut Vec<BackendInfo>, id: &str, connections: u32)
    ensures
        backend_views(final(backends)@) == set_connections(backend_views(old(backends)@), id@, connections),
{
    let ghost all = backend_views(backends@);
    let mut i: usize = 0;
    while i < backends.len()
        invariant
            i <= backends@.len(),
            all == backend_views(backends@),
            backends@ == old(backends)@,
            forall|j: int| 0 <= j < i ==> all[j].id != id@,
        decreases backends.len() - i,
    {
        if text_eq(backends[i].id.as_str(), id) {
            let mut b = backends[i].clone();
            b.current_connections = connections;
            backends.set(i, b);
            proof {
                assert(all[i as int].id == id@);
                let k = choose|k: int|
                    0 <= k < all.len() && all[k].id == id@ && forall|j: int| 0 <= j < k ==> all[j].id != id@;
                if k < i {
                    assert(all[k].id != id@);
                } else if k > i {
                    assert(all[i as int].id != id@);
                }
                assert(backend_views(backends@) =~= all.update(
                    i as int,
                    BackendView { current_connections: connections, ..all[i as int] },
                ));
            }
            return;
        }
        i = i + 1;
    }
}

/// The cache entries for configured backends.
fn backends_for_rule(backends: &Vec<Backend>) -> (r: Vec<BackendInfo>)
    ensures
        backend_views(r@) == cache_entries(backend_config_views(backends@)),
{
    let mut r: Vec<BackendInfo> = Vec::new();
    let mut i: usize = 0;
    while i < backends.len()
        invariant
            i <= backends@.len(),
            r@.len() == i,
            forall|j: int| 0 <= j < i ==> #[trigger] r@[j]@ == cache_entry(backends@[j]@),
        decreases backends.len() - i,
    {
        let b = &backends[i];
        let metadata = match &b.metadata {
            Some(m) => m.clone_texts(),
            None => NameMap::new(),
        };
        r.push(
            BackendInfo {
                id: b.id.clone(),
                address: b.address,
                weight: match b.weight {
                    Some(w) => w,
                    None => 1,
                },
                enabled: b.enabled,
                healthy: true,
                current_connections: 0,
                max_connections: None,
                response_time: None,
                metadata,
            },
        );
        i = i + 1;
    }
    assert(backend_views(r@) =~= cache_entries(backend_config_views(backends@)));
    r
}

/// A router made for a configured router: a new router of the plugin's kind,
/// with the configured options applied.
pub open spec fn router_created(r: RouterInstance, kind: PluginKind, options: Map<Seq<char>, OptionValue>) -> bool {
    &&& r.kind() == kind
    &&& r.spec_backends() == Seq::<BackendView>::empty()
    &&& r.spec_stats().total_requests == 0
    &&& r.spec_stats().successful_requests == 0
    &&& r.spec_stats().failed_requests == 0
    &&& r.spec_stats().active_connections == 0
    &&& r.spec_stats().backend_count == 0
    &&& r.spec_stats().healthy_backend_count == 0
    &&& r.counter_of() == 0
    &&& r.hash_key_of() == (if kind == PluginKind::Hash {
        hash_key_option(options, HashKey::ClientIp)
    } else {
        HashKey::ClientIp
    })
    &&& r.smooth_of() == (if kind == PluginKind::Weighted {
        smooth_option(options, true)
    } else {
        true
    })
}

/// Setting up the configured router `entry` (a name and its configuration)
/// over the routers `pre` gives `r`: when `reuse` holds and a router of that
/// name exists, it takes the options again; otherwise a new router is made.
pub open spec fn router_set_up(
    pre: Map<Seq<char>, RouterInstance>,
    plugins: Map<Seq<char>, PluginKind>,
    entry: (Seq<char>, RouterConfig),
    reuse: bool,
    r: RouterInstance,
) -> bool {
    if reuse && pre.contains_key(entry.0) {
        options_applied(pre[entry.0], r, entry.1.config@)
    } else {
        router_created(r, plugins[entry.1.plugin@], entry.1.config@)
    }
}

/// Setting up `entry` fails: a new router is needed and its plugin is unknown.
pub open spec fn set_up_fails(
    pre: Map<Seq<char>, RouterInstance>,
    plugins: Map<Seq<char>, PluginKind>,
    entry: (Seq<char>, RouterConfig),
    reuse: bool,
) -> bool {
    !(reuse && pre.contains_key(entry.0)) && !plugins.contains_key(entry.1.plugin@)
}

/// `i` is the position of the first configured router whose set-up fails.
pub open spec fn first_failure_at(
    pre: Map<Seq<char>, RouterInstance>,
    plugins: Map<Seq<char>, PluginKind>,
    cfg: Seq<(Seq<char>, RouterConfig)>,
    reuse: bool,
    i: int,
) -> bool {
    &&& 0 <= i < cfg.len()
    &&& set_up_fails(pre, plugins, cfg[i], reuse)
    &&& forall|j: int| 0 <= j < i ==> !set_up_fails(pre, plugins, #[trigger] cfg[j], reuse)
}

/// The position of the first configured router whose set-up fails, if any.
pub open spec fn first_set_up_failure(
    pre: Map<Seq<char>, RouterInstance>,
    plugins: Map<Seq<char>, PluginKind>,
    cfg: Seq<(Seq<char>, RouterConfig)>,
    reuse: bool,
) -> Option<int> {
    if exists|i: int| first_failure_at(pre, plugins, cfg, reuse, i) {
        Some(choose|i: int| first_failure_at(pre, plugins, cfg, reuse, i))
    } else {
        None
    }
}

/// `post` is `pre` after the first `k` configured routers were set up: their
/// names are added, each of them is set up (see `router_set_up`), and the
/// other routers stay.
pub open spec fn routers_set_up(
    pre: Map<Seq<char>, RouterInstance>,
    post: Map<Seq<char>, RouterInstance>,
    plugins: Map<Seq<char>, PluginKind>,
    cfg: Seq<(Seq<char>, RouterConfig)>,
    k: int,
    reuse: bool,
) -> bool {
    &&& forall|n: Seq<char>|
        #[trigger] post.contains_key(n) <==> (pre.contains_key(n) || exists|j: int| 0 <= j < k && cfg[j].0 == n)
    &&& forall|n: Seq<char>|
        pre.contains_key(n) && !(exists|j: int| 0 <= j < k && cfg[j].0 == n) ==> #[trigger] post[n] == pre[n]
    &&& forall|j: int| 0 <= j < k ==> router_set_up(pre, plugins, #[trigger] cfg[j], reuse, post[cfg[j].0])
}

/// The error for a configured router whose plugin is unknown.
pub open spec fn set_up_error(e: RouterError, reuse: bool, name: Seq<char>, plugin: Seq<char>) -> bool {
    if reuse {
        e matches RouterError::CreateNewFailed(n, p) && n@ == name && p@ == plugin
    } else {
        e matches RouterError::CreateFailed(n, p) && n@ == name && p@ == plugin
    }
}

/// While routers are set up in order, the next configured name still stands
/// for what it stood for before.
proof fn lemma_set_up_untouched(
    pre: Map<Seq<char>, RouterInstance>,
    cur: Map<Seq<char>, RouterInstance>,
    plugins: Map<Seq<char>, PluginKind>,
    cfg: Seq<(Seq<char>, RouterConfig)>,
    i: int,
    reuse: bool,
)
    requires
        routers_set_up(pre, cur, plugins, cfg, i, reuse),
        0 <= i < cfg.len(),
        names_distinct(cfg),
    ensures
        cur.contains_key(cfg[i].0) == pre.contains_key(cfg[i].0),
        pre.contains_key(cfg[i].0) ==> cur[cfg[i].0] == pre[cfg[i].0],
{
    let n = cfg[i].0;
    assert(!exists|j: int| 0 <= j < i && cfg[j].0 == n) by {
        if exists|j: int| 0 <= j < i && cfg[j].0 == n {
            let j = choose|j: int| 0 <= j < i && cfg[j].0 == n;
            assert(cfg[j].0 != cfg[i].0);
        }
    }
    assert(cur.contains_key(n) == pre.contains_key(n));
}

/// Setting up the next configured router extends the set-up by one.
proof fn lemma_set_up_step(
    pre: Map<Seq<char>, RouterInstance>,
    cur: Map<Seq<char>, RouterInstance>,
    plugins: Map<Seq<char>, PluginKind>,
    cfg: Seq<(Seq<char>, RouterConfig)>,
    i: int,
    reuse: bool,
    v: RouterInstance,
)
    requires
        routers_set_up(pre, cur, plugins, cfg, i, reuse),
        0 <= i < cfg.len(),
        names_distinct(cfg),
        router_set_up(pre, plugins, cfg[i], reuse, v),
    ensures
        routers_set_up(pre, cur.insert(cfg[i].0, v), plugins, cfg, i + 1, reuse),
{
    let post = cur.insert(cfg[i].0, v);
    let name = cfg[i].0;
    assert forall|n: Seq<char>| (pre.contains_key(n) || exists|j: int| 0 <= j < i + 1 && cfg[j].0 == n) implies #[trigger]
        post.contains_key(n) by {
        if exists|j: int| 0 <= j < i + 1 && cfg[j].0 == n {
            let j = choose|j: int| 0 <= j < i + 1 && cfg[j].0 == n;
            if j < i {
                assert(cur.contains_key(n));
            }
        }
    }
    assert forall|n: Seq<char>| #[trigger]
        post.contains_key(n) implies (pre.contains_key(n) || exists|j: int| 0 <= j < i + 1 && cfg[j].0 == n) by {
        if n == name {
            assert(cfg[i].0 == n);
        } else {
            assert(cur.contains_key(n));
        }
    }
    assert forall|n: Seq<char>|
        pre.contains_key(n) && !(exists|j: int| 0 <= j < i + 1 && cfg[j].0 == n) implies #[trigger] post[n] == pre[n] by {
        assert(cfg[i].0 != n);
        assert(!exists|j: int| 0 <= j < i && cfg[j].0 == n) by {
            if exists|j: int| 0 <= j < i && cfg[j].0 == n {
                let j = choose|j: int| 0 <= j < i && cfg[j].0 == n;
                assert(0 <= j < i + 1 && cfg[j].0 == n);
            }
        }
        assert(cur[n] == pre[n]);
    }
    assert forall|j: int| 0 <= j < i + 1 implies router_set_up(pre, plugins, #[trigger] cfg[j], reuse, post[cfg[j].0]) by {
        if j < i {
            assert(cfg[j].0 != cfg[i].0);
            assert(router_set_up(pre, plugins, cfg[j], reuse, cur[cfg[j].0]));
        }
    }
}

/// The position of the first rule named `name`, if any.
pub open spec fn first_rule_named(rules: Seq<RuleView>, name: Seq<char>) -> Option<int> {
    if exists|i: int| 0 <= i < rules.len() && rules[i].name == name {
        Some(
            choose|i: int|
                0 <= i < rules.len() && rules[i].name == name && forall|j: int| 0 <= j < i ==> rules[j].name != name,
        )
    } else {
        None
    }
}

/// The manager `post` is `pre` after backend `id` of rule `rule` took the
/// health `healthy`: the first backend with that id recorded for the rule
/// takes it, and the router of the first rule of that name, if that router
/// exists, takes note (see `health_noted`); nothing else changes.
pub open spec fn health_updated(pre: RouterManager, post: RouterManager, rule: Seq<char>, id: Seq<char>, healthy: bool) -> bool {
    &&& post.wf()
    &&& post.spec_plugins() == pre.spec_plugins()
    &&& post.spec_plugin_names() == pre.spec_plugin_names()
    &&& post.spec_rules() == pre.spec_rules()
    &&& post.spec_router_names() == pre.spec_router_names()
    &&& post.spec_cache() == (if pre.spec_cache().contains_key(rule) {
        pre.spec_cache().insert(rule, set_health(pre.spec_cache()[rule], id, healthy))
    } else {
        pre.spec_cache()
    })
    &&& match first_rule_named(pre.spec_rules(), rule) {
        Some(i) => if pre.spec_routers().contains_key(pre.spec_rules()[i].router) {
            let name = pre.spec_rules()[i].router;
            &&& post.spec_routers() == pre.spec_routers().insert(name, post.spec_routers()[name])
            &&& health_noted(pre.spec_routers()[name], post.spec_routers()[name], id, healthy)
        } else {
            post.spec_routers() == pre.spec_routers()
        },
        None => post.spec_routers() == pre.spec_routers(),
    }
}

/// Routing the connection `ctx` with the manager `pre` leaves `post` and the
/// outcome `r` (the chosen backend, or the name of a missing router).  The
/// first rule that applies decides: with no such rule, a disabled rule, or no
/// backends recorded for the rule, nothing is chosen; a rule naming an unknown
/// router fails with its name; otherwise the rule's router chooses among the
/// rule's backends that accept a connection (see `selection_outcome`), and
/// only that router's state moves on (see `selection_step`).
pub open spec fn route_outcome(
    pre: RouterManager,
    post: RouterManager,
    ctx: RoutingContext,
    r: Result<Option<BackendView>, Seq<char>>,
) -> bool {
    let rules = pre.spec_rules();
    match first_applicable(rules, ctx) {
        None => r == Ok::<Option<BackendView>, Seq<char>>(None) && post.spec_routers() == pre.spec_routers(),
        Some(i) => {
            let rule = rules[i];
            if !rule.enabled {
                r == Ok::<Option<BackendView>, Seq<char>>(None) && post.spec_routers() == pre.spec_routers()
            } else if !pre.spec_routers().contains_key(rule.router) {
                r == Err::<Option<BackendView>, Seq<char>>(rule.router) && post.spec_routers() == pre.spec_routers()
            } else if !pre.spec_cache().contains_key(rule.name) {
                r == Ok::<Option<BackendView>, Seq<char>>(None) && post.spec_routers() == pre.spec_routers()
            } else {
                let accepting = accepting_views(pre.spec_cache()[rule.name]);
                if accepting.len() == 0 {
                    r == Ok::<Option<BackendView>, Seq<char>>(None) && post.spec_routers() == pre.spec_routers()
                } else {
                    let before = pre.spec_routers()[rule.router];
                    &&& r is Ok
                    &&& selection_outcome(before, ctx, accepting, r->Ok_0)
                    &&& post.spec_routers().contains_key(rule.router)
                    &&& selection_step(before, post.spec_routers()[rule.router], accepting)
                    &&& post.spec_routers()[rule.router].spec_backends() == before.spec_backends()
                    &&& post.spec_routers() == pre.spec_routers().insert(rule.router, post.spec_routers()[rule.router])
                    &&& r->Ok_0 matches Some(b) ==> accepting.contains(b)
                }
            }
        },
    }
}

/// Loading the changed configuration `config` turned `pre` into `post` with
/// the result `r`: the rules are the configuration's and their backends are
/// recorded afresh; the configured routers are set up in order (an existing
/// router takes the options again, a new one is made), up to the first new
/// router whose plugin is unknown, which is the error; without an error, the
/// routers are exactly the configured ones.
pub open spec fn reload_outcome(pre: RouterManager, post: RouterManager, config: Config, r: Result<(), RouterError>) -> bool {
    &&& post.wf()
    &&& post.spec_plugins() == pre.spec_plugins()
    &&& post.spec_plugin_names() == pre.spec_plugin_names()
    &&& post.spec_rules() == rule_views(config.rules@)
    &&& post.spec_cache() == rules_cache(Map::empty(), rule_views(config.rules@))
    &&& {
        let routers = pre.spec_routers();
        let plugins = pre.spec_plugins();
        let cfg = config.routers.pairs();
        match first_set_up_failure(routers, plugins, cfg, true) {
            None => {
                &&& r is Ok
                &&& forall|n: Seq<char>| #[trigger] post.spec_routers().contains_key(n) <==> config.routers@.contains_key(n)
                &&& forall|j: int|
                    0 <= j < cfg.len() ==> router_set_up(
                        routers,
                        plugins,
                        #[trigger] cfg[j],
                        true,
                        post.spec_routers()[cfg[j].0],
                    )
            },
            Some(k) => {
                &&& r matches Err(e) && set_up_error(e, true, cfg[k].0, cfg[k].1.plugin@)
                &&& routers_set_up(routers, post.spec_routers(), plugins, cfg, k, true)
            },
        }
    }
}

/// A backend that routing chooses can take a connection (see
/// `backend_accepts`: healthy, enabled, and below its connection limit), and
/// it is one of the backends recorded for the first rule that applies.
pub proof fn lemma_routed_backend_accepts(pre: RouterManager, post: RouterManager, ctx: RoutingContext, b: BackendView)
    requires
        route_outcome(pre, post, ctx, Ok(Some(b))),
    ensures
        backend_accepts(b),
        first_applicable(pre.spec_rules(), ctx) is Some,
        pre.spec_cache()[pre.spec_rules()[first_applicable(pre.spec_rules(), ctx)->0].name].contains(b),
{
    let i = first_applicable(pre.spec_rules(), ctx)->0;
    let s = pre.spec_cache()[pre.spec_rules()[i].name];
    crate::router::lemma_filter_members(s, accepting_pred());
    let k = choose|k: int| 0 <= k < accepting_views(s).len() && accepting_views(s)[k] == b;
    assert(accepting_pred()(accepting_views(s)[k]));
}

/// The backends recorded for a rule are its configured backends, in order,
/// each with its id, address and enabled flag, its weight (1 when none is
/// configured), healthy and without connections.
pub proof fn lemma_cache_entries_keep_configuration(s: Seq<BackendConfigView>)
    ensures
        cache_entries(s).len() == s.len(),
        forall|k: int|
            0 <= k < s.len() ==> {
                let e = #[trigger] cache_entries(s)[k];
                &&& e.id == s[k].id
                &&& e.address == s[k].address
                &&& e.enabled == s[k].enabled
                &&& e.weight == (match s[k].weight {
                    Some(w) => w,
                    None => 1u32,
                })
                &&& e.healthy
                &&& e.current_connections == 0
            },
{
}

/// The recorded backends of a rule name in a cache built from rules are those
/// of the last rule of that name.
proof fn lemma_rules_cache_entry(base: Map<Seq<char>, Seq<BackendView>>, rules: Seq<RuleView>, n: Seq<char>)
    requires
        rules_cache(base, rules).contains_key(n),
        !base.contains_key(n),
    ensures
        exists|j: int|
            0 <= j < rules.len() && rules[j].name == n && rules_cache(base, rules)[n] == cache_entries(
                #[trigger] rules[j].backends,
            ),
    decreases rules.len(),
{
    if rules.len() > 0 {
        let last = rules.len() - 1;
        if rules[last].name == n {
            assert(rules_cache(base, rules)[n] == cache_entries(rules[last].backends));
        } else {
            lemma_rules_cache_entry(base, rules.drop_last(), n);
            let j = choose|j: int|
                0 <= j < rules.drop_last().len() && rules.drop_last()[j].name == n && rules_cache(
                    base,
                    rules.drop_last(),
                )[n] == cache_entries(#[trigger] rules.drop_last()[j].backends);
            assert(rules[j] == rules.drop_last()[j]);
        }
    }
}

/// Routing over the backends recorded from the rules (as `initialize` and
/// `reload_config` leave them) only ever gives a backend that is configured,
/// with that id and address, in a rule of the matched rule's name, and whose
/// configuration has it enabled: a backend configured as disabled is never
/// chosen.
pub proof fn lemma_routed_backend_is_configured_enabled(
    pre: RouterManager,
    post: RouterManager,
    ctx: RoutingContext,
    b: BackendView,
)
    requires
        pre.spec_cache() == rules_cache(Map::<Seq<char>, Seq<BackendView>>::empty(), pre.spec_rules()),
        route_outcome(pre, post, ctx, Ok(Some(b))),
    ensures
        b.enabled,
        exists|j: int, k: int|
            0 <= j < pre.spec_rules().len() && 0 <= k < pre.spec_rules()[j].backends.len()
                && pre.spec_rules()[j].name == pre.spec_rules()[first_applicable(pre.spec_rules(), ctx)->0].name && {
                let cb = #[trigger] pre.spec_rules()[j].backends[k];
                &&& cb.enabled
                &&& cb.id == b.id
                &&& cb.address == b.address
            },
{
    lemma_routed_backend_accepts(pre, post, ctx, b);
    let rules = pre.spec_rules();
    let n = rules[first_applicable(rules, ctx)->0].name;
    lemma_rules_cache_entry(Map::<Seq<char>, Seq<BackendView>>::empty(), rules, n);
    let j = choose|j: int|
        0 <= j < rules.len() && rules[j].name == n && rules_cache(Map::<Seq<char>, Seq<BackendView>>::empty(), rules)[n]
            == cache_entries(#[trigger] rules[j].backends);
    let entries = cache_entries(rules[j].backends);
    assert(entries.contains(b));
    let k = choose|k: int| 0 <= k < entries.len() && entries[k] == b;
    lemma_cache_entries_keep_configuration(rules[j].backends);
    assert(entries[k] == cache_entries(rules[j].backends)[k]);
    let cb = rules[j].backends[k];
    assert(cb.enabled && cb.id == b.id && cb.address == b.address);
}

/// Keeps the routers, the routing rules and, per rule, the backends to route to.
pub struct RouterManager {
    registry: RouterRegistry,
    routers: NameMap<RouterInstance>,
    rules: Vec<RoutingRule>,
    backends_cache: NameMap<Vec<BackendInfo>>,
}

impl RouterManager {
    pub closed spec fn wf(self) -> bool {
        &&& self.registry.wf()
        &&& self.routers.wf()
        &&& self.backends_cache.wf()
    }

    /// The router plugins by name.
    pub closed spec fn spec_plugins(self) -> Map<Seq<char>, PluginKind> {
        self.registry.plugins()
    }

    /// The plugin names in registration order.
    pub closed spec fn spec_plugin_names(self) -> Seq<Seq<char>> {
        self.registry.plugin_names()
    }

    /// The routers by name.
    pub closed spec fn spec_routers(self) -> Map<Seq<char>, RouterInstance> {
        self.routers@
    }

    /// The router names in the order the routers were created.
    pub closed spec fn spec_router_names(self) -> Seq<Seq<char>> {
        self.routers.names()
    }

    /// The routing rules, in order.
    pub closed spec fn spec_rules(self) -> Seq<RuleView> {
        rule_views(self.rules@)
    }

    /// The backends to route to, by rule name.
    pub closed spec fn spec_cache(self) -> Map<Seq<char>, Seq<BackendView>> {
        self.backends_cache@.map_values(|v: Vec<BackendInfo>| backend_views(v@))
    }

    /// A manager with the five provided plugins registered ("round_robin",
    /// "weighted", "hash", "least_connections", "random"), and no routers, rules
    /// or backends.
    pub fn new() -> (r: Self)
        ensures
            r.wf(),
            r.spec_plugins() == map![
                "round_robin"@ => PluginKind::RoundRobin,
                "weighted"@ => PluginKind::Weighted,
                "hash"@ => PluginKind::Hash,
                "least_connections"@ => PluginKind::LeastConnections,
                "random"@ => PluginKind::Random,
            ],
            r.spec_plugin_names() == seq![
                "round_robin"@,
                "weighted"@,
                "hash"@,
                "least_connections"@,
                "random"@,
            ],
            r.spec_routers() == Map::<Seq<char>, RouterInstance>::empty(),
            r.spec_router_names() == Seq::<Seq<char>>::empty(),
            r.spec_rules() == Seq::<RuleView>::empty(),
            r.spec_cache() == Map::<Seq<char>, Seq<BackendView>>::empty(),
    {
        let mut registry = RouterRegistry::new();
        Self::register_builtin_routers(&mut registry);
        let r = RouterManager {
            registry,
            routers: NameMap::new(),
            rules: Vec::new(),
            backends_cache: NameMap::new(),
        };
        assert(r.spec_rules() =~= Seq::<RuleView>::empty());
        assert(r.spec_cache() =~= Map::<Seq<char>, Seq<BackendView>>::empty());
        r
    }

    /// Registers the five provided plugins in an empty registry.
    fn register_builtin_routers(registry: &mut RouterRegistry)
        requires
            old(registry).wf(),
            old(registry).plugins() == Map::<Seq<char>, PluginKind>::empty(),
            old(registry).plugin_names() == Seq::<Seq<char>>::empty(),
        ensures
            final(registry).wf(),
            final(registry).plugin_names() == seq![
                "round_robin"@,
                "weighted"@,
                "hash"@,
                "least_connections"@,
                "random"@,
            ],
            final(registry).plugins() == old(registry).plugins().insert("round_robin"@, PluginKind::RoundRobin).insert(
                "weighted"@,
                PluginKind::Weighted,
            ).insert("hash"@, PluginKind::Hash).insert("least_connections"@, PluginKind::LeastConnections).insert(
                "random"@,
                PluginKind::Random,
            ),
    {
        proof {
            reveal_strlit("round_robin");
            reveal_strlit("weighted");
            reveal_strlit("hash");
            reveal_strlit("least_connections");
            reveal_strlit("random");
        }
        registry.register(text_owned("round_robin"), PluginKind::RoundRobin);
        assert(!registry.plugins().contains_key("weighted"@)) by {
            assert("weighted"@.len() != "round_robin"@.len());
        }
        registry.register(text_owned("weighted"), PluginKind::Weighted);
        assert(!registry.plugins().contains_key("hash"@)) by {
            assert("hash"@.len() != "round_robin"@.len());
            assert("hash"@.len() != "weighted"@.len());
        }
        registry.register(text_owned("hash"), PluginKind::Hash);
        assert(!registry.plugins().contains_key("least_connections"@)) by {
            assert("least_connections"@.len() != "round_robin"@.len());
            assert("least_connections"@.len() != "weighted"@.len());
            assert("least_connections"@.len() != "hash"@.len());
        }
        registry.register(text_owned("least_connections"), PluginKind::LeastConnections);
        assert(!registry.plugins().contains_key("random"@)) by {
            assert("random"@.len() != "round_robin"@.len());
            assert("random"@.len() != "weighted"@.len());
            assert("random"@.len() != "hash"@.len());
            assert("random"@.len() != "least_connections"@.len());
        }
        registry.register(text_owned("random"), PluginKind::Random);
        assert(registry.plugin_names() =~= seq![
            "round_robin"@,
            "weighted"@,
            "hash"@,
            "least_connections"@,
            "random"@,
        ]);
    }

    /// Makes the plugin `kind` available under another name.
    pub fn register_router(&mut self, name: String, kind: PluginKind)
        requires
            old(self).wf(),
        ensures
            final(self).wf(),
            final(self).spec_plugins() == old(self).spec_plugins().insert(name@, kind),
            final(self).spec_routers() == old(self).spec_routers(),
            final(self).spec_rules() == old(self).spec_rules(),
            final(self).spec_cache() == old(self).spec_cache(),
    {
        self.registry.register(name, kind);
    }

    /// The names of the registered plugins.
    pub fn list_available_plugins(&self) -> (r: Vec<String>)
        ensures
            r@.map_values(|s: String| s@) == self.spec_plugin_names(),
    {
        self.registry.list_routers()
    }

    /// Whether `rule` applies to `context`.
    fn rule_matches(rule: &RoutingRule, context: &RoutingContext) -> (r: bool)
        ensures
            r == rule_applies(rule@, *context),
    {
        let protocol_ok = match (rule.protocol, context.protocol) {
            (RuleProtocol::Both, _) => true,
            (RuleProtocol::Tcp, Protocol::Tcp) => true,
            (RuleProtocol::Udp, Protocol::Udp) => true,
            _ => false,
        };
        if !protocol_ok {
            return false;
        }
        match &rule.matcher {
            RuleMatcher::Port { port } => context.target_port() == *port,
            RuleMatcher::PortRange { start, end } => {
                let target_port = context.target_port();
                target_port >= *start && target_port <= *end
            },
            RuleMatcher::Sni { pattern } => context.matches_sni(pattern.as_str()),
            RuleMatcher::SourceIp { cidr } => context.client_in_cidr(cidr.as_str()),
            RuleMatcher::DestinationIp { cidr: _ } => false,
            RuleMatcher::Custom { plugin: _, config: _ } => false,
        }
    }

    /// The position of the first rule that applies to `context`.
    fn find_matching_rule(&self, context: &RoutingContext) -> (r: Option<usize>)
        ensures
            r matches Some(i) ==> first_applicable(self.spec_rules(), *context) == Some(i as int),
            r is None ==> first_applicable(self.spec_rules(), *context) is None,
    {
        let ghost rules = self.spec_rules();
        let mut i: usize = 0;
        while i < self.rules.len()
            invariant
                rules == rule_views(self.rules@),
                i <= self.rules@.len(),
                forall|j: int| 0 <= j < i ==> !rule_applies(#[trigger] rules[j], *context),
            decreases self.rules.len() - i,
        {
            if Self::rule_matches(&self.rules[i], context) {
                proof {
                    assert(first_applicable_at(rules, *context, i as int));
                    let k = choose|k: int| first_applicable_at(rules, *context, k);
                    lemma_first_applicable_unique(rules, *context, i as int, k);
                }
                return Some(i);
            }
            i = i + 1;
        }
        proof {
            if exists|k: int| first_applicable_at(rules, *context, k) {
                let k = choose|k: int| first_applicable_at(rules, *context, k);
                assert(!rule_applies(rules[k], *context));
            }
        }
        None
    }

    /// Routes a connection.  The first rule that applies decides: with no such
    /// rule, a disabled rule, or no backends recorded for the rule, nothing is
    /// chosen; a rule naming an unknown router is an error; otherwise the rule's
    /// router chooses among the rule's backends that accept a connection (see
    /// `selection_outcome`).  Only that router's state changes.
    pub fn route(&mut self, context: &RoutingContext) -> (r: Result<Option<BackendInfo>, RouterError>)
        requires
            old(self).wf(),
            context.wf(),
        ensures
            final(self).wf(),
            final(self).spec_rules() == old(self).spec_rules(),
            final(self).spec_cache() == old(self).spec_cache(),
            final(self).spec_plugins() == old(self).spec_plugins(),
            final(self).spec_router_names() == old(self).spec_router_names(),
            route_outcome(
                *old(self),
                *final(self),
                *context,
                match r {
                    Ok(o) => Ok(opt_backend_view(o)),
                    Err(RouterError::RouterNotFound(n)) => Err(n@),
                    Err(_) => Err(Seq::<char>::empty()),
                },
            ),
            r is Ok || r matches Err(RouterError::RouterNotFound(_)),
    {
        let idx = match self.find_matching_rule(context) {
            Some(i) => i,
            None => {
                return Ok(None);
            },
        };
        let ghost rv = self.spec_rules()[idx as int];
        assert(rv == self.rules@[idx as int]@);
        if !self.rules[idx].enabled {
            return Ok(None);
        }
        let ri = match self.routers.find(self.rules[idx].router.as_str()) {
            Some(ri) => ri,
            None => {
                return Err(RouterError::RouterNotFound(self.rules[idx].router.clone()));
            },
        };
        let available = match self.backends_cache.get(self.rules[idx].name.as_str()) {
            Some(backends) => collect_accepting(backends.as_slice()),
            None => {
                return Ok(None);
            },
        };
        if available.len() == 0 {
            return Ok(None);
        }
        proof {
            lemma_accepting_are_available(self.spec_cache()[rv.name]);
            lemma_pairs_lookup(self.routers.pairs(), ri as int);
        }
        let ghost pairs_before = self.routers.pairs();
        let router = self.routers.value_mut(ri);
        let selected = router.select_backend(context, available.as_slice());
        proof {
            lemma_pairs_update(pairs_before, ri as int, *router);
        }
        Ok(selected)
    }

    /// Sets up the configured routers in order (see `router_set_up`), stopping
    /// at the first one whose set-up fails.
    fn set_up_routers(&mut self, routers: &NameMap<RouterConfig>, reuse: bool) -> (r: Result<(), RouterError>)
        requires
            old(self).wf(),
            routers.wf(),
            forall|i: int| 0 <= i < routers.pairs().len() ==> (#[trigger] routers.pairs()[i]).1.config.wf(),
        ensures
            final(self).wf(),
            final(self).spec_plugins() == old(self).spec_plugins(),
            final(self).spec_plugin_names() == old(self).spec_plugin_names(),
            final(self).spec_rules() == old(self).spec_rules(),
            final(self).spec_cache() == old(self).spec_cache(),
            ({
                let pre = old(self).spec_routers();
                let plugins = old(self).spec_plugins();
                let cfg = routers.pairs();
                match first_set_up_failure(pre, plugins, cfg, reuse) {
                    None => r is Ok && routers_set_up(pre, final(self).spec_routers(), plugins, cfg, cfg.len() as int, reuse),
                    Some(k) => {
                        &&& r matches Err(e) && set_up_error(e, reuse, cfg[k].0, cfg[k].1.plugin@)
                        &&& routers_set_up(pre, final(self).spec_routers(), plugins, cfg, k, reuse)
                    },
                }
            }),
    {
        let ghost pre = self.spec_routers();
        let ghost plugins = self.spec_plugins();
        let ghost cfg = routers.pairs();
        let mut i: usize = 0;
        while i < routers.len()
            invariant
                self.wf(),
                routers.wf(),
                cfg == routers.pairs(),
                forall|j: int| 0 <= j < cfg.len() ==> (#[trigger] cfg[j]).1.config.wf(),
                i <= cfg.len(),
                self.spec_plugins() == plugins,
                self.spec_plugin_names() == old(self).spec_plugin_names(),
                self.spec_rules() == old(self).spec_rules(),
                self.spec_cache() == old(self).spec_cache(),
                pre == old(self).spec_routers(),
                plugins == old(self).spec_plugins(),
                routers_set_up(pre, self.spec_routers(), plugins, cfg, i as int, reuse),
                forall|j: int| 0 <= j < i ==> !set_up_fails(pre, plugins, #[trigger] cfg[j], reuse),
            decreases cfg.len() - i,
        {
            let name = routers.name_at(i);
            let rc = routers.value_at(i);
            proof {
                lemma_set_up_untouched(pre, self.spec_routers(), plugins, cfg, i as int, reuse);
            }
            let existing = if reuse {
                self.routers.find(name.as_str())
            } else {
                None
            };
            match existing {
                Some(p) => {
                    let ghost pairs_before = self.routers.pairs();
                    proof {
                        lemma_pairs_lookup(pairs_before, p as int);
                    }
                    let router = self.routers.value_mut(p);
                    router.initialize(&rc.config);
                    proof {
                        lemma_pairs_update(pairs_before, p as int, *router);
                        lemma_set_up_step(pre, pairs_to_map(pairs_before), plugins, cfg, i as int, reuse, *router);
                    }
                },
                None => {
                    match self.registry.create(rc.plugin.as_str()) {
                        Ok(mut router) => {
                            router.initialize(&rc.config);
                            proof {
                                lemma_set_up_step(pre, self.spec_routers(), plugins, cfg, i as int, reuse, router);
                            }
                            self.routers.insert(name.clone(), router);
                        },
                        Err(_) => {
                            let e = if reuse {
                                RouterError::CreateNewFailed(name.clone(), rc.plugin.clone())
                            } else {
                                RouterError::CreateFailed(name.clone(), rc.plugin.clone())
                            };
                            proof {
                                assert(first_failure_at(pre, plugins, cfg, reuse, i as int));
                                let k = choose|k: int| first_failure_at(pre, plugins, cfg, reuse, k);
                                if k < i {
                                    assert(!set_up_fails(pre, plugins, cfg[k], reuse));
                                } else if k > i {
                                    assert(!set_up_fails(pre, plugins, cfg[i as int], reuse));
                                }
                            }
                            return Err(e);
                        },
                    }
                },
            }
            i = i + 1;
        }
        proof {
            if exists|k: int| first_failure_at(pre, plugins, cfg, reuse, k) {
                let k = choose|k: int| first_failure_at(pre, plugins, cfg, reuse, k);
                assert(!set_up_fails(pre, plugins, cfg[k], reuse));
            }
        }
        Ok(())
    }

    /// Records, rule by rule, the rules' backends under the rules' names.
    fn cache_rules(&mut self, rules: &Vec<RoutingRule>)
        requires
            old(self).wf(),
        ensures
            final(self).wf(),
            final(self).spec_cache() == rules_cache(old(self).spec_cache(), rule_views(rules@)),
            final(self).spec_plugins() == old(self).spec_plugins(),
            final(self).spec_plugin_names() == old(self).spec_plugin_names(),
            final(self).spec_routers() == old(self).spec_routers(),
            final(self).spec_router_names() == old(self).spec_router_names(),
            final(self).spec_rules() == old(self).spec_rules(),
    {
        let ghost base = self.spec_cache();
        let ghost rv = rule_views(rules@);
        let mut i: usize = 0;
        while i < rules.len()
            invariant
                self.wf(),
                i <= rules@.len(),
                rv == rule_views(rules@),
                self.spec_cache() == rules_cache(base, rv.take(i as int)),
                self.spec_plugins() == old(self).spec_plugins(),
                self.spec_plugin_names() == old(self).spec_plugin_names(),
                self.spec_routers() == old(self).spec_routers(),
                self.spec_router_names() == old(self).spec_router_names(),
                self.spec_rules() == old(self).spec_rules(),
            decreases rules.len() - i,
        {
            let entries = backends_for_rule(&rules[i].backends);
            let ghost before = self.backends_cache@;
            self.backends_cache.insert(rules[i].name.clone(), entries);
            proof {
                assert(rv.take(i + 1).drop_last() =~= rv.take(i as int));
                assert(rv[i as int] == rules@[i as int]@);
                assert(self.spec_cache() =~= rules_cache(base, rv.take(i as int)).insert(
                    rv[i as int].name,
                    cache_entries(rv[i as int].backends),
                ));
            }
            i = i + 1;
        }
        assert(rv.take(rules@.len() as int) =~= rv);
    }

    /// Loads a configuration: sets up its routers in order (a router of an
    /// existing name is replaced by a new one), stopping with an error at the
    /// first router whose plugin is unknown; then takes its rules and records
    /// their backends.
    pub fn initialize(&mut self, config: &Config) -> (r: Result<(), RouterError>)
        requires
            old(self).wf(),
            config.wf(),
        ensures
            final(self).wf(),
            final(self).spec_plugins() == old(self).spec_plugins(),
            final(self).spec_plugin_names() == old(self).spec_plugin_names(),
            ({
                let pre = old(self).spec_routers();
                let plugins = old(self).spec_plugins();
                let cfg = config.routers.pairs();
                match first_set_up_failure(pre, plugins, cfg, false) {
                    None => {
                        &&& r is Ok
                        &&& routers_set_up(pre, final(self).spec_routers(), plugins, cfg, cfg.len() as int, false)
                        &&& final(self).spec_rules() == rule_views(config.rules@)
                        &&& final(self).spec_cache() == rules_cache(old(self).spec_cache(), rule_views(config.rules@))
                    },
                    Some(k) => {
                        &&& r matches Err(e) && set_up_error(e, false, cfg[k].0, cfg[k].1.plugin@)
                        &&& routers_set_up(pre, final(self).spec_routers(), plugins, cfg, k, false)
                        &&& final(self).spec_rules() == old(self).spec_rules()
                        &&& final(self).spec_cache() == old(self).spec_cache()
                    },
                }
            }),
    {
        match self.set_up_routers(&config.routers, false) {
            Ok(()) => {},
            Err(e) => {
                return Err(e);
            },
        }
        self.rules = clone_rules(&config.rules);
        self.cache_rules(&config.rules);
        Ok(())
    }

    /// Shuts down and removes the routers that `routers` does not name.
    fn drop_unconfigured(&mut self, routers: &NameMap<RouterConfig>)
        requires
            old(self).wf(),
            routers.wf(),
        ensures
            final(self).wf(),
            final(self).spec_plugins() == old(self).spec_plugins(),
            final(self).spec_plugin_names() == old(self).spec_plugin_names(),
            final(self).spec_rules() == old(self).spec_rules(),
            final(self).spec_cache() == old(self).spec_cache(),
            forall|n: Seq<char>| #[trigger]
                final(self).spec_routers().contains_key(n) <==> (old(self).spec_routers().contains_key(n)
                    && routers@.contains_key(n)),
            forall|n: Seq<char>| #[trigger]
                final(self).spec_routers().contains_key(n) ==> final(self).spec_routers()[n] == old(
                    self,
                ).spec_routers()[n],
    {
        let names = self.routers.name_list();
        let ghost mid = self.spec_routers();
        let ghost nv = names@.map_values(|t: String| t@);
        let ghost mid_pairs = self.routers.pairs();
        let mut i: usize = 0;
        while i < names.len()
            invariant
                self.wf(),
                routers.wf(),
                i <= names@.len(),
                nv == names@.map_values(|t: String| t@),
                nv == crate::name_map::pair_names(mid_pairs),
                mid == pairs_to_map(mid_pairs),
                self.spec_plugins() == old(self).spec_plugins(),
                self.spec_plugin_names() == old(self).spec_plugin_names(),
                self.spec_rules() == old(self).spec_rules(),
                self.spec_cache() == old(self).spec_cache(),
                mid == old(self).spec_routers(),
                forall|n: Seq<char>| #[trigger]
                    self.spec_routers().contains_key(n) <==> (mid.contains_key(n) && (routers@.contains_key(n)
                        || !exists|j: int| 0 <= j < i && nv[j] == n)),
                forall|n: Seq<char>| #[trigger]
                    self.spec_routers().contains_key(n) ==> self.spec_routers()[n] == mid[n],
            decreases names@.len() - i,
        {
            let ghost cur = self.spec_routers();
            let ghost this = nv[i as int];
            assert(names@[i as int]@ == this);
            if !routers.contains(names[i].as_str()) {
                match self.routers.remove(names[i].as_str()) {
                    Some(mut router) => {
                        router.shutdown();
                    },
                    None => {},
                }
            }
            proof {
                assert forall|n: Seq<char>| #[trigger]
                    self.spec_routers().contains_key(n) <==> (mid.contains_key(n) && (routers@.contains_key(n)
                        || !exists|j: int| 0 <= j < i + 1 && nv[j] == n)) by {
                    if n == this {
                        assert(0 <= i < i + 1 && nv[i as int] == n);
                    } else {
                        if exists|j: int| 0 <= j < i + 1 && nv[j] == n {
                            let j = choose|j: int| 0 <= j < i + 1 && nv[j] == n;
                            assert(j < i);
                        }
                    }
                }
            }
            i = i + 1;
        }
        proof {
            assert(nv.len() == mid_pairs.len());
            assert forall|n: Seq<char>| mid.contains_key(n) implies exists|j: int| 0 <= j < i && nv[j] == n by {
                let j = choose|j: int| 0 <= j < mid_pairs.len() && mid_pairs[j].0 == n;
                assert(nv[j] == mid_pairs[j].0);
            }
        }
    }

    /// Loads a changed configuration: takes its rules and records their
    /// backends afresh; sets up its routers in order (an existing router takes
    /// the options again, a new one is made), stopping with an error at the
    /// first new router whose plugin is unknown; then removes the routers the
    /// configuration no longer names.
    pub fn reload_config(&mut self, config: &Config) -> (r: Result<(), RouterError>)
        requires
            old(self).wf(),
            config.wf(),
        ensures
            reload_outcome(*old(self), *final(self), *config, r),
    {
        self.rules = clone_rules(&config.rules);
        self.backends_cache.clear();
        assert(self.spec_cache() =~= Map::<Seq<char>, Seq<BackendView>>::empty());
        self.cache_rules(&config.rules);
        let ghost pre = old(self).spec_routers();
        let ghost cfg = config.routers.pairs();
        match self.set_up_routers(&config.routers, true) {
            Ok(()) => {},
            Err(e) => {
                return Err(e);
            },
        }
        let ghost mid = self.spec_routers();
        let ghost plugins = self.spec_plugins();
        proof {
            assert(first_set_up_failure(pre, plugins, cfg, true) is None);
            assert(routers_set_up(pre, mid, plugins, cfg, cfg.len() as int, true));
        }
        self.drop_unconfigured(&config.routers);
        proof {
            assert forall|n: Seq<char>| config.routers@.contains_key(n) implies #[trigger]
                self.spec_routers().contains_key(n) by {
                let j = choose|j: int| 0 <= j < cfg.len() && cfg[j].0 == n;
                assert(mid.contains_key(n));
            }
            assert forall|j: int| 0 <= j < cfg.len() implies router_set_up(
                pre,
                old(self).spec_plugins(),
                #[trigger] cfg[j],
                true,
                self.spec_routers()[cfg[j].0],
            ) by {
                lemma_pairs_lookup(cfg, j);
                assert(mid.contains_key(cfg[j].0));
                assert(self.spec_routers().contains_key(cfg[j].0));
                assert(router_set_up(pre, plugins, cfg[j], true, mid[cfg[j].0]));
            }
        }
        Ok(())
    }

    /// Shuts every router down and forgets them all.
    pub fn shutdown(&mut self)
        requires
            old(self).wf(),
        ensures
            final(self).wf(),
            final(self).spec_routers() == Map::<Seq<char>, RouterInstance>::empty(),
            final(self).spec_router_names() == Seq::<Seq<char>>::empty(),
            final(self).spec_plugins() == old(self).spec_plugins(),
            final(self).spec_plugin_names() == old(self).spec_plugin_names(),
            final(self).spec_rules() == old(self).spec_rules(),
            final(self).spec_cache() == old(self).spec_cache(),
    {
        let n = self.routers.len();
        let mut i: usize = 0;
        while i < n
            invariant
                self.wf(),
                n == self.routers.pairs().len(),
                i <= n,
                self.spec_plugins() == old(self).spec_plugins(),
                self.spec_plugin_names() == old(self).spec_plugin_names(),
                self.spec_rules() == old(self).spec_rules(),
                self.spec_cache() == old(self).spec_cache(),
            decreases n - i,
        {
            let ghost pairs_before = self.routers.pairs();
            let router = self.routers.value_mut(i);
            router.shutdown();
            proof {
                lemma_pairs_update(pairs_before, i as int, *router);
            }
            i = i + 1;
        }
        self.routers.clear();
        assert(self.spec_router_names() =~= Seq::<Seq<char>>::empty());
    }

    /// The stats of every router, by router name.
    pub fn get_all_stats(&self) -> (r: NameMap<RouterStats>)
        requires
            self.wf(),
        ensures
            r.wf(),
            r@ == self.spec_routers().map_values(|x: RouterInstance| x.spec_stats()),
    {
        let ghost pairs = self.routers.pairs();
        let mut r: NameMap<RouterStats> = NameMap::new();
        let mut i: usize = 0;
        while i < self.routers.len()
            invariant
                self.wf(),
                pairs == self.routers.pairs(),
                i <= pairs.len(),
                r.wf(),
                r.pairs() == pairs.take(i as int).map_values(
                    |p: (Seq<char>, RouterInstance)| (p.0, p.1.spec_stats()),
                ),
            decreases pairs.len() - i,
        {
            let name = self.routers.name_at(i);
            let router = self.routers.value_at(i);
            proof {
                if r@.contains_key(name@) {
                    let j = choose|j: int| 0 <= j < r.pairs().len() && r.pairs()[j].0 == name@;
                    assert(pairs[j].0 == pairs[i as int].0);
                }
            }
            r.insert(name.clone(), router.get_stats());
            proof {
                assert(r.pairs() =~= pairs.take(i + 1).map_values(
                    |p: (Seq<char>, RouterInstance)| (p.0, p.1.spec_stats()),
                ));
            }
            i = i + 1;
        }
        proof {
            let mapped = r.pairs();
            assert(pairs.take(pairs.len() as int) =~= pairs);
            assert forall|k: Seq<char>| #[trigger] r@.contains_key(k) == self.spec_routers().contains_key(k) by {
                if r@.contains_key(k) {
                    let j = choose|j: int| 0 <= j < mapped.len() && mapped[j].0 == k;
                    assert(pairs[j].0 == k);
                }
                if self.spec_routers().contains_key(k) {
                    let j = choose|j: int| 0 <= j < pairs.len() && pairs[j].0 == k;
                    assert(mapped[j].0 == k);
                }
            }
            assert forall|k: Seq<char>| #[trigger] r@.contains_key(k) implies r@[k] == self.spec_routers()[k].spec_stats() by {
                let j = choose|j: int| 0 <= j < mapped.len() && mapped[j].0 == k;
                lemma_pairs_lookup(mapped, j);
                lemma_pairs_lookup(pairs, j);
            }
            assert(r@ =~= self.spec_routers().map_values(|x: RouterInstance| x.spec_stats()));
        }
        r
    }

    /// The position of the first rule named `name`.
    fn find_rule_named(&self, name: &str) -> (r: Option<usize>)
        ensures
            r matches Some(i) ==> i < self.rules@.len() && first_rule_named(self.spec_rules(), name@) == Some(i as int),
            r is None ==> first_rule_named(self.spec_rules(), name@) is None,
    {
        let ghost rules = self.spec_rules();
        let mut i: usize = 0;
        while i < self.rules.len()
            invariant
                rules == rule_views(self.rules@),
                i <= self.rules@.len(),
                forall|j: int| 0 <= j < i ==> (#[trigger] rules[j]).name != name@,
            decreases self.rules.len() - i,
        {
            if text_eq(self.rules[i].name.as_str(), name) {
                proof {
                    assert(rules[i as int].name == name@);
                    let k = choose|k: int|
                        0 <= k < rules.len() && rules[k].name == name@ && forall|j: int| 0 <= j < k ==> rules[j].name != name@;
                    if k < i {
                        assert(rules[k].name != name@);
                    } else if k > i {
                        assert(rules[i as int].name != name@);
                    }
                }
                return Some(i);
            }
            i = i + 1;
        }
        proof {
            if exists|k: int| 0 <= k < rules.len() && rules[k].name == name@ {
                let k = choose|k: int| 0 <= k < rules.len() && rules[k].name == name@;
                assert(rules[k].name != name@);
            }
        }
        None
    }

    /// Gives the first backend with id `backend_id` recorded for the rule
    /// `rule_name` the health `healthy`.
    fn note_backend_health(&mut self, rule_name: &str, backend_id: &str, healthy: bool)
        requires
            old(self).wf(),
        ensures
            final(self).wf(),
            final(self).spec_plugins() == old(self).spec_plugins(),
            final(self).spec_plugin_names() == old(self).spec_plugin_names(),
            final(self).spec_rules() == old(self).spec_rules(),
            final(self).spec_routers() == old(self).spec_routers(),
            final(self).spec_router_names() == old(self).spec_router_names(),
            final(self).spec_cache() == (if old(self).spec_cache().contains_key(rule_name@) {
                old(self).spec_cache().insert(
                    rule_name@,
                    set_health(old(self).spec_cache()[rule_name@], backend_id@, healthy),
                )
            } else {
                old(self).spec_cache()
            }),
    {
        match self.backends_cache.find(rule_name) {
            Some(i) => {
                let ghost pairs_before = self.backends_cache.pairs();
                proof {
                    lemma_pairs_lookup(pairs_before, i as int);
                }
                let backends = self.backends_cache.value_mut(i);
                mark_health(backends, backend_id, healthy);
                proof {
                    lemma_pairs_update(pairs_before, i as int, *backends);
                    assert(self.spec_cache() =~= old(self).spec_cache().insert(
                        rule_name@,
                        set_health(old(self).spec_cache()[rule_name@], backend_id@, healthy),
                    ));
                }
            },
            None => {},
        }
    }

    /// Tells the router of the first rule named `rule_name`, if it exists,
    /// that backend `backend_id` has the health `healthy`.
    fn notify_backend_health(&mut self, rule_name: &str, backend_id: &str, healthy: bool)
        requires
            old(self).wf(),
        ensures
            final(self).wf(),
            final(self).spec_plugins() == old(self).spec_plugins(),
            final(self).spec_plugin_names() == old(self).spec_plugin_names(),
            final(self).spec_rules() == old(self).spec_rules(),
            final(self).spec_router_names() == old(self).spec_router_names(),
            final(self).spec_cache() == old(self).spec_cache(),
            ({
                let rules = old(self).spec_rules();
                let routers = old(self).spec_routers();
                match first_rule_named(rules, rule_name@) {
                    Some(i) => if routers.contains_key(rules[i].router) {
                        let post = final(self).spec_routers()[rules[i].router];
                        &&& final(self).spec_routers() == routers.insert(rules[i].router, post)
                        &&& health_noted(routers[rules[i].router], post, backend_id@, healthy)
                    } else {
                        final(self).spec_routers() == routers
                    },
                    None => final(self).spec_routers() == routers,
                }
            }),
    {
        match self.find_rule_named(rule_name) {
            Some(k) => {
                assert(self.spec_rules()[k as int] == self.rules@[k as int]@);
                match self.routers.find(self.rules[k].router.as_str()) {
                    Some(p) => {
                        let ghost pairs_before = self.routers.pairs();
                        proof {
                            lemma_pairs_lookup(pairs_before, p as int);
                        }
                        let router = self.routers.value_mut(p);
                        router.on_backend_health_changed(backend_id, healthy);
                        proof {
                            lemma_pairs_update(pairs_before, p as int, *router);
                            assert(crate::name_map::pair_names(self.routers.pairs()) == crate::name_map::pair_names(
                                pairs_before,
                            ));
                        }
                    },
                    None => {},
                }
            },
            None => {},
        }
    }

    /// Records a backend's new health (see `health_updated`).
    #[verifier::rlimit(40)]
    pub fn update_backend_health(&mut self, rule_name: &str, backend_id: &str, healthy: bool)
        requires
            old(self).wf(),
        ensures
            health_updated(*old(self), *final(self), rule_name@, backend_id@, healthy),
    {
        self.note_backend_health(rule_name, backend_id, healthy);
        self.notify_backend_health(rule_name, backend_id, healthy);
    }

    /// Records a backend's connection count: the first backend with id
    /// `backend_id` recorded for the rule `rule_name` takes it.
    pub fn update_backend_connections(&mut self, rule_name: &str, backend_id: &str, connections: u32)
        requires
            old(self).wf(),
        ensures
            final(self).wf(),
            final(self).spec_plugins() == old(self).spec_plugins(),
            final(self).spec_plugin_names() == old(self).spec_plugin_names(),
            final(self).spec_rules() == old(self).spec_rules(),
            final(self).spec_routers() == old(self).spec_routers(),
            final(self).spec_router_names() == old(self).spec_router_names(),
            final(self).spec_cache() == (if old(self).spec_cache().contains_key(rule_name@) {
                old(self).spec_cache().insert(
                    rule_name@,
                    set_connections(old(self).spec_cache()[rule_name@], backend_id@, connections),
                )
            } else {
                old(self).spec_cache()
            }),
    {
        match self.backends_cache.find(rule_name) {
            Some(i) => {
                let ghost pairs_before = self.backends_cache.pairs();
                proof {
                    lemma_pairs_lookup(pairs_before, i as int);
                }
                let backends = self.backends_cache.value_mut(i);
                mark_connections(backends, backend_id, connections);
                proof {
                    lemma_pairs_update(pairs_before, i as int, *backends);
                    assert(self.spec_cache() =~= old(self).spec_cache().insert(
                        rule_name@,
                        set_connections(old(self).spec_cache()[rule_name@], backend_id@, connections),
                    ));
                }
            },
            None => {},
        }
    }

    /// The stats of the router named `router_name`.
    pub fn get_router_stats(&self, router_name: &str) -> (r: Result<RouterStats, RouterError>)
        requires
            self.wf(),
        ensures
            self.spec_routers().contains_key(router_name@) ==> r == Ok::<RouterStats, RouterError>(
                self.spec_routers()[router_name@].spec_stats(),
            ),
            !self.spec_routers().contains_key(router_name@) ==> (r matches Err(RouterError::RouterNotFound(n))
                && n@ == router_name@),
    {
        match self.routers.get(router_name) {
            Some(router) => Ok(router.get_stats()),
            None => Err(RouterError::RouterNotFound(text_owned(router_name))),
        }
    }
}

impl Default for RouterManager {
    fn default() -> (r: Self)
        ensures
            r.wf(),
            r.spec_routers() == Map::<Seq<char>, RouterInstance>::empty(),
            r.spec_rules() == Seq::<RuleView>::empty(),
            r.spec_cache() == Map::<Seq<char>, Seq<BackendView>>::empty(),
    {
        Self::new()
    }
}

} // verus!
