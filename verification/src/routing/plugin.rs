use vstd::prelude::*;
use crate::name_map::{lemma_pairs_lookup, NameMap};
use crate::routing::rules::{
    clone_routing_rules, opt_decision_view, routing_rule_views, rule_decides, rule_decision, DecisionView,
    RoutingContext, RoutingDecision, RoutingRule, RoutingRuleView,
};
use crate::text::text_owned;

verus! {

/// A routing plugin: it has a name, takes options, and for a connection
/// either decides or passes.
pub trait RoutingPlugin: Sized {
    /// What the plugin is set up with.
    type Options;

    spec fn spec_name(&self) -> Seq<char>;

    /// What the plugin decides for a connection.
    spec fn spec_route(&self, context: RoutingContext) -> Option<DecisionView>;

    /// `post` is the plugin `self` set up with `options` (none: nothing given).
    spec fn spec_set_up(&self, options: Option<Self::Options>, post: Self) -> bool;

    fn name(&self) -> (r: &str)
        ensures
            r@ == self.spec_name(),
    ;

    fn initialize(&mut self, options: Option<&Self::Options>)
        ensures
            old(self).spec_set_up(
                match options {
                    Some(o) => Some(*o),
                    None => None,
                },
                *final(self),
            ),
            final(self).spec_name() == old(self).spec_name(),
    ;

    fn route(&self, context: &RoutingContext) -> (r: Option<RoutingDecision>)
        ensures
            opt_decision_view(r) == self.spec_route(*context),
    ;

    fn shutdown(&self);
}

/// `i` is the rule the rule-based router goes by: among the rules that decide
/// for the connection, one of the highest priority, and the earliest of those.
pub open spec fn preferred_rule(rules: Seq<RoutingRuleView>, ctx: RoutingContext, i: int) -> bool {
    &&& 0 <= i < rules.len()
    &&& rule_decides(rules[i], ctx)
    &&& forall|j: int|
        0 <= j < rules.len() && rule_decides(#[trigger] rules[j], ctx) ==> rules[j].priority < rules[i].priority || (
        rules[j].priority == rules[i].priority && i <= j)
}

/// At most one rule is preferred.
pub proof fn lemma_preferred_unique(rules: Seq<RoutingRuleView>, ctx: RoutingContext, i: int, k: int)
    requires
        preferred_rule(rules, ctx, i),
        preferred_rule(rules, ctx, k),
    ensures
        i == k,
{
    assert(rule_decides(rules[k], ctx));
    assert(rule_decides(rules[i], ctx));
}

/// The decision of the rule-based router: that of the preferred rule, if any
/// rule decides.
pub open spec fn sni_decision(rules: Seq<RoutingRuleView>, ctx: RoutingContext) -> Option<DecisionView> {
    if exists|i: int| preferred_rule(rules, ctx, i) {
        Some(rule_decision(rules[choose|i: int| preferred_rule(rules, ctx, i)]))
    } else {
        None
    }
}

/// Routes by rules: the rule of highest priority that decides (the earliest
/// one among equals) gives the decision.
pub struct SniRouterPlugin {
    name: String,
    rules: Vec<RoutingRule>,
}

impl SniRouterPlugin {
    /// The rules, in the order they were given.
    pub closed spec fn spec_rules(self) -> Seq<RoutingRuleView> {
        routing_rule_views(self.rules@)
    }

    /// A plugin named "sni_router" with no rules.
    pub fn new() -> (r: Self)
        ensures
            r.spec_name() == "sni_router"@,
            r.spec_rules() == Seq::<RoutingRuleView>::empty(),
    {
        let r = SniRouterPlugin { name: text_owned("sni_router"), rules: Vec::new() };
        assert(r.spec_rules() =~= Seq::<RoutingRuleView>::empty());
        r
    }

    /// What the plugin's decisions and set-up are, in terms of its rules: the
    /// rule-based decision (see `sni_decision`), and given rules replacing the
    /// plugin's.
    pub proof fn lemma_sni_router_specs(&self, context: RoutingContext, options: Option<Vec<RoutingRule>>, post: Self)
        ensures
            self.spec_route(context) == sni_decision(self.spec_rules(), context),
            self.spec_set_up(options, post) == (post.spec_name() == self.spec_name() && post.spec_rules() == match options {
                Some(rules) => routing_rule_views(rules@),
                None => self.spec_rules(),
            }),
    {
    }

    /// The number of rules.
    pub fn rule_count(&self) -> (r: usize)
        ensures
            r == self.spec_rules().len(),
    {
        self.rules.len()
    }
}

impl RoutingPlugin for SniRouterPlugin {
    /// The rules to route by.
    type Options = Vec<RoutingRule>;

    closed spec fn spec_name(&self) -> Seq<char> {
        self.name@
    }

    closed spec fn spec_route(&self, context: RoutingContext) -> Option<DecisionView> {
        sni_decision(self.spec_rules(), context)
    }

    /// Given rules replace the plugin's; without them nothing changes.
    closed spec fn spec_set_up(&self, options: Option<Vec<RoutingRule>>, post: Self) -> bool {
        &&& post.spec_name() == self.spec_name()
        &&& post.spec_rules() == match options {
            Some(rules) => routing_rule_views(rules@),
            None => self.spec_rules(),
        }
    }

    fn name(&self) -> (r: &str) {
        self.name.as_str()
    }

    fn initialize(&mut self, options: Option<&Vec<RoutingRule>>) {
        match options {
            Some(rules) => {
                self.rules = clone_routing_rules(rules);
            },
            None => {},
        }
    }

    fn route(&self, context: &RoutingContext) -> (r: Option<RoutingDecision>) {
        let ghost rules = self.spec_rules();
        let mut best: Option<(usize, RoutingDecision)> = None;
        let mut i: usize = 0;
        while i < self.rules.len()
            invariant
                rules == self.spec_rules(),
                i <= rules.len(),
                best is None ==> forall|j: int| 0 <= j < i ==> !rule_decides(#[trigger] rules[j], *context),
                best matches Some(b) ==> {
                    &&& b.0 < i
                    &&& rule_decides(rules[b.0 as int], *context)
                    &&& b.1@ == rule_decision(rules[b.0 as int])
                    &&& forall|j: int|
                        0 <= j < i && rule_decides(#[trigger] rules[j], *context) ==> rules[j].priority
                            < rules[b.0 as int].priority || (rules[j].priority == rules[b.0 as int].priority && b.0
                            <= j)
                },
            decreases self.rules.len() - i,
        {
            assert(rules[i as int] == self.rules@[i as int]@);
            match self.rules[i].apply(context) {
                Some(d) => {
                    let better = match &best {
                        Some(b) => self.rules[i].priority > self.rules[b.0].priority,
                        None => true,
                    };
                    assert(best matches Some(b) ==> rules[b.0 as int] == self.rules@[b.0 as int]@);
                    if better {
                        best = Some((i, d));
                    }
                },
                None => {},
            }
            i = i + 1;
        }
        match best {
            Some(b) => {
                proof {
                    assert(preferred_rule(rules, *context, b.0 as int));
                    let k = choose|k: int| preferred_rule(rules, *context, k);
                    lemma_preferred_unique(rules, *context, b.0 as int, k);
                }
                Some(b.1)
            },
            None => {
                proof {
                    if exists|k: int| preferred_rule(rules, *context, k) {
                        let k = choose|k: int| preferred_rule(rules, *context, k);
                        assert(!rule_decides(rules[k], *context));
                    }
                }
                None
            },
        }
    }

    fn shutdown(&self) {
    }
}

/// The decision of plugins consulted in the order `order`: for each name, the
/// plugin registered as mutable under it, then the one registered as
/// immutable; the first that decides gives the decision.
pub open spec fn plugins_decision<P: RoutingPlugin>(
    order: Seq<Seq<char>>,
    mutable: Map<Seq<char>, P>,
    immutable: Map<Seq<char>, P>,
    ctx: RoutingContext,
) -> Option<DecisionView>
    decreases order.len(),
{
    if order.len() == 0 {
        None
    } else {
        let n = order[0];
        let a = if mutable.contains_key(n) {
            mutable[n].spec_route(ctx)
        } else {
            None
        };
        let b = if immutable.contains_key(n) {
            immutable[n].spec_route(ctx)
        } else {
            None
        };
        if a is Some {
            a
        } else if b is Some {
            b
        } else {
            plugins_decision(order.drop_first(), mutable, immutable, ctx)
        }
    }
}

/// Consults routing plugins in the order they were registered.
pub struct PluginManager<P: RoutingPlugin> {
    plugins: NameMap<P>,
    mutable_plugins: NameMap<P>,
    execution_order: Vec<String>,
}

impl<P: RoutingPlugin> PluginManager<P> {
    pub closed spec fn wf(self) -> bool {
        self.plugins.wf() && self.mutable_plugins.wf()
    }

    /// The plugins registered as immutable, by name.
    pub closed spec fn spec_plugins(self) -> Map<Seq<char>, P> {
        self.plugins@
    }

    /// The plugins registered as mutable, by name.
    pub closed spec fn spec_mutable_plugins(self) -> Map<Seq<char>, P> {
        self.mutable_plugins@
    }

    /// The names in the order of registration (a name registered twice occurs twice).
    pub closed spec fn spec_order(self) -> Seq<Seq<char>> {
        self.execution_order@.map_values(|s: String| s@)
    }

    /// A manager with no plugins.
    pub fn new() -> (r: Self)
        ensures
            r.wf(),
            r.spec_plugins() == Map::<Seq<char>, P>::empty(),
            r.spec_mutable_plugins() == Map::<Seq<char>, P>::empty(),
            r.spec_order() == Seq::<Seq<char>>::empty(),
    {
        let r = PluginManager { plugins: NameMap::new(), mutable_plugins: NameMap::new(), execution_order: Vec::new() };
        assert(r.spec_order() =~= Seq::<Seq<char>>::empty());
        r
    }

    /// Registers a plugin that is set up once and for all.
    pub fn register_plugin(&mut self, plugin: P)
        requires
            old(self).wf(),
        ensures
            final(self).wf(),
            final(self).spec_order() == old(self).spec_order().push(plugin.spec_name()),
            final(self).spec_plugins() == old(self).spec_plugins().insert(plugin.spec_name(), plugin),
            final(self).spec_mutable_plugins() == old(self).spec_mutable_plugins(),
    {
        let name = text_owned(plugin.name());
        self.execution_order.push(name.clone());
        self.plugins.insert(name, plugin);
        assert(self.spec_order() =~= old(self).spec_order().push(plugin.spec_name()));
    }

    /// Registers a plugin that `initialize_plugins` sets up.
    pub fn register_mutable_plugin(&mut self, plugin: P)
        requires
            old(self).wf(),
        ensures
            final(self).wf(),
            final(self).spec_order() == old(self).spec_order().push(plugin.spec_name()),
            final(self).spec_mutable_plugins() == old(self).spec_mutable_plugins().insert(plugin.spec_name(), plugin),
            final(self).spec_plugins() == old(self).spec_plugins(),
    {
        let name = text_owned(plugin.name());
        self.execution_order.push(name.clone());
        self.mutable_plugins.insert(name, plugin);
        assert(self.spec_order() =~= old(self).spec_order().push(plugin.spec_name()));
    }

    /// Sets up each plugin registered as mutable with the options given under
    /// its name (none when there are none).
    pub fn initialize_plugins(&mut self, configs: &NameMap<P::Options>)
        requires
            old(self).wf(),
            configs.wf(),
        ensures
            final(self).wf(),
            final(self).spec_order() == old(self).spec_order(),
            final(self).spec_plugins() == old(self).spec_plugins(),
            final(self).spec_mutable_plugins().dom() == old(self).spec_mutable_plugins().dom(),
            forall|n: Seq<char>| #[trigger]
                old(self).spec_mutable_plugins().contains_key(n) ==> old(self).spec_mutable_plugins()[n].spec_set_up(
                    if configs@.contains_key(n) {
                        Some(configs@[n])
                    } else {
                        None
                    },
                    final(self).spec_mutable_plugins()[n],
                ),
    {
        let ghost pre = self.mutable_plugins.pairs();
        let n = self.mutable_plugins.len();
        let mut i: usize = 0;
        while i < n
            invariant
                self.wf(),
                configs.wf(),
                n == pre.len(),
                i <= n,
                self.mutable_plugins.pairs().len() == n,
                crate::name_map::names_distinct(pre),
                pre == old(self).mutable_plugins.pairs(),
                self.spec_order() == old(self).spec_order(),
                self.spec_plugins() == old(self).spec_plugins(),
                forall|j: int| #![trigger self.mutable_plugins.pairs()[j]]
                    0 <= j < n ==> self.mutable_plugins.pairs()[j].0 == pre[j].0,
                forall|j: int| #![trigger self.mutable_plugins.pairs()[j]]
                    i <= j < n ==> self.mutable_plugins.pairs()[j].1 == pre[j].1,
                forall|j: int| #![trigger self.mutable_plugins.pairs()[j]]
                    0 <= j < i ==> pre[j].1.spec_set_up(
                        if configs@.contains_key(pre[j].0) {
                            Some(configs@[pre[j].0])
                        } else {
                            None
                        },
                        self.mutable_plugins.pairs()[j].1,
                    ),
            decreases n - i,
        {
            let name = self.mutable_plugins.name_at(i);
            let options = configs.get(name.as_str());
            let ghost before = self.mutable_plugins.pairs();
            let plugin = self.mutable_plugins.value_mut(i);
            plugin.initialize(options);
            proof {
                crate::name_map::lemma_pairs_update(before, i as int, *plugin);
            }
            i = i + 1;
        }
        proof {
            let post = self.mutable_plugins.pairs();
            assert forall|k: Seq<char>| #[trigger]
                old(self).spec_mutable_plugins().contains_key(k) implies self.spec_mutable_plugins().contains_key(k)
                && old(self).spec_mutable_plugins()[k].spec_set_up(
                    if configs@.contains_key(k) {
                        Some(configs@[k])
                    } else {
                        None
                    },
                    self.spec_mutable_plugins()[k],
                ) by {
                let j = choose|j: int| 0 <= j < pre.len() && pre[j].0 == k;
                lemma_pairs_lookup(pre, j);
                assert(post[j].0 == k);
                lemma_pairs_lookup(post, j);
            }
            assert forall|k: Seq<char>| #[trigger]
                self.spec_mutable_plugins().contains_key(k) implies old(self).spec_mutable_plugins().contains_key(k) by {
                let j = choose|j: int| 0 <= j < post.len() && post[j].0 == k;
                assert(pre[j].0 == k);
            }
            assert(self.spec_mutable_plugins().dom() =~= old(self).spec_mutable_plugins().dom());
        }
    }

    /// The decision of the first plugin that decides (see `plugins_decision`).
    pub fn route(&self, context: &RoutingContext) -> (r: Option<RoutingDecision>)
        requires
            self.wf(),
        ensures
            opt_decision_view(r) == plugins_decision(
                self.spec_order(),
                self.spec_mutable_plugins(),
                self.spec_plugins(),
                *context,
            ),
    {
        let ghost order = self.spec_order();
        assert(order.skip(0) =~= order);
        let mut i: usize = 0;
        while i < self.execution_order.len()
            invariant
                self.wf(),
                order == self.spec_order(),
                i <= order.len(),
                plugins_decision(order, self.spec_mutable_plugins(), self.spec_plugins(), *context)
                    == plugins_decision(order.skip(i as int), self.spec_mutable_plugins(), self.spec_plugins(), *context),
            decreases self.execution_order.len() - i,
        {
            let name = self.execution_order[i].as_str();
            proof {
                let rest = order.skip(i as int);
                assert(rest[0] == name@);
                assert(rest.drop_first() =~= order.skip(i + 1));
            }
            match self.mutable_plugins.get(name) {
                Some(plugin) => {
                    match plugin.route(context) {
                        Some(d) => {
                            return Some(d);
                        },
                        None => {},
                    }
                },
                None => {},
            }
            match self.plugins.get(name) {
                Some(plugin) => {
                    match plugin.route(context) {
                        Some(d) => {
                            return Some(d);
                        },
                        None => {},
                    }
                },
                None => {},
            }
            i = i + 1;
        }
        assert(order.skip(i as int) =~= Seq::<Seq<char>>::empty());
        None
    }

    /// Shuts every plugin down, those registered as mutable first.
    pub fn shutdown(&self) {
        let mut i: usize = 0;
        while i < self.mutable_plugins.len()
            decreases self.mutable_plugins.pairs().len() - i,
        {
            self.mutable_plugins.value_at(i).shutdown();
            i = i + 1;
        }
        let mut k: usize = 0;
        while k < self.plugins.len()
            decreases self.plugins.pairs().len() - k,
        {
            self.plugins.value_at(k).shutdown();
            k = k + 1;
        }
    }
}

} // verus!
