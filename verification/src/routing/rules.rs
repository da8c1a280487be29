use vstd::prelude::*;
use crate::net::{displayed_ip, ip_to_text, parse_socket_addr, parsed_socket_addr, Endpoint};
use crate::text::{is_prefix, is_suffix, occurs_in, text_contains, text_ends_with, text_eq, text_starts_with};

verus! {

/// A condition a connection must meet for a rule to apply.
pub enum RoutingCondition {
    SniPrefix { prefix: String },
    SniSuffix { suffix: String },
    SniExact { hostname: String },
    /// The text of the client's IP address must occur in `cidr` (no address
    /// arithmetic is done).
    SourceIp { cidr: String },
    DestinationPort { port: u16 },
    /// "tcp" or "udp".
    Protocol { protocol: String },
}

/// How backends are balanced.
pub enum LoadBalanceMethod {
    RoundRobin,
    LeastConnections,
    Random,
    WeightedRoundRobin { weights: Vec<u32> },
}

/// What a rule does with a connection.
pub enum RoutingAction {
    Forward { backend: String },
    LoadBalance { backends: Vec<String>, method: LoadBalanceMethod },
    Reject { reason: String },
    TlsTerminate { backend: String },
}

/// The mathematical value of a condition.
pub enum ConditionView {
    SniPrefix { prefix: Seq<char> },
    SniSuffix { suffix: Seq<char> },
    SniExact { hostname: Seq<char> },
    SourceIp { cidr: Seq<char> },
    DestinationPort { port: u16 },
    Protocol { protocol: Seq<char> },
}

impl View for RoutingCondition {
    type V = ConditionView;

    open spec fn view(&self) -> ConditionView {
        match self {
            RoutingCondition::SniPrefix { prefix } => ConditionView::SniPrefix { prefix: prefix@ },
            RoutingCondition::SniSuffix { suffix } => ConditionView::SniSuffix { suffix: suffix@ },
            RoutingCondition::SniExact { hostname } => ConditionView::SniExact { hostname: hostname@ },
            RoutingCondition::SourceIp { cidr } => ConditionView::SourceIp { cidr: cidr@ },
            RoutingCondition::DestinationPort { port } => ConditionView::DestinationPort { port: *port },
            RoutingCondition::Protocol { protocol } => ConditionView::Protocol { protocol: protocol@ },
        }
    }
}

impl Clone for RoutingCondition {
    fn clone(&self) -> (r: Self)
        ensures
            r@ == self@,
    {
        match self {
            RoutingCondition::SniPrefix { prefix } => RoutingCondition::SniPrefix { prefix: prefix.clone() },
            RoutingCondition::SniSuffix { suffix } => RoutingCondition::SniSuffix { suffix: suffix.clone() },
            RoutingCondition::SniExact { hostname } => RoutingCondition::SniExact { hostname: hostname.clone() },
            RoutingCondition::SourceIp { cidr } => RoutingCondition::SourceIp { cidr: cidr.clone() },
            RoutingCondition::DestinationPort { port } => RoutingCondition::DestinationPort { port: *port },
            RoutingCondition::Protocol { protocol } => RoutingCondition::Protocol { protocol: protocol.clone() },
        }
    }
}

/// The mathematical value of a balancing method.
pub enum MethodView {
    RoundRobin,
    LeastConnections,
    Random,
    WeightedRoundRobin { weights: Seq<u32> },
}

/// The mathematical value of an action.
pub enum ActionView {
    Forward { backend: Seq<char> },
    LoadBalance { backends: Seq<Seq<char>>, method: MethodView },
    Reject { reason: Seq<char> },
    TlsTerminate { backend: Seq<char> },
}

/// The views of texts.
pub open spec fn text_views(s: Seq<String>) -> Seq<Seq<char>> {
    s.map_values(|t: String| t@)
}

impl View for LoadBalanceMethod {
    type V = MethodView;

    open spec fn view(&self) -> MethodView {
        match self {
            LoadBalanceMethod::RoundRobin => MethodView::RoundRobin,
            LoadBalanceMethod::LeastConnections => MethodView::LeastConnections,
            LoadBalanceMethod::Random => MethodView::Random,
            LoadBalanceMethod::WeightedRoundRobin { weights } => MethodView::WeightedRoundRobin { weights: weights@ },
        }
    }
}

impl View for RoutingAction {
    type V = ActionView;

    open spec fn view(&self) -> ActionView {
        match self {
            RoutingAction::Forward { backend } => ActionView::Forward { backend: backend@ },
            RoutingAction::LoadBalance { backends, method } => ActionView::LoadBalance {
                backends: text_views(backends@),
                method: method@,
            },
            RoutingAction::Reject { reason } => ActionView::Reject { reason: reason@ },
            RoutingAction::TlsTerminate { backend } => ActionView::TlsTerminate { backend: backend@ },
        }
    }
}

/// A copy of a list of texts.
fn clone_texts(v: &Vec<String>) -> (r: Vec<String>)
    ensures
        text_views(r@) == text_views(v@),
{
    let mut r: Vec<String> = Vec::new();
    let mut i: usize = 0;
    while i < v.len()
        invariant
            i <= v@.len(),
            r@.len() == i,
            forall|j: int| 0 <= j < i ==> #[trigger] r@[j]@ == v@[j]@,
        decreases v.len() - i,
    {
        r.push(v[i].clone());
        i = i + 1;
    }
    assert(text_views(r@) =~= text_views(v@));
    r
}

impl Clone for LoadBalanceMethod {
    fn clone(&self) -> (r: Self)
        ensures
            r@ == self@,
    {
        match self {
            LoadBalanceMethod::RoundRobin => LoadBalanceMethod::RoundRobin,
            LoadBalanceMethod::LeastConnections => LoadBalanceMethod::LeastConnections,
            LoadBalanceMethod::Random => LoadBalanceMethod::Random,
            LoadBalanceMethod::WeightedRoundRobin { weights } => LoadBalanceMethod::WeightedRoundRobin {
                weights: weights.clone(),
            },
        }
    }
}

impl Clone for RoutingAction {
    fn clone(&self) -> (r: Self)
        ensures
            r@ == self@,
    {
        match self {
            RoutingAction::Forward { backend } => RoutingAction::Forward { backend: backend.clone() },
            RoutingAction::LoadBalance { backends, method } => RoutingAction::LoadBalance {
                backends: clone_texts(backends),
                method: method.clone(),
            },
            RoutingAction::Reject { reason } => RoutingAction::Reject { reason: reason.clone() },
            RoutingAction::TlsTerminate { backend } => RoutingAction::TlsTerminate { backend: backend.clone() },
        }
    }
}

/// A rule of the rule-based router: it applies to a connection that meets
/// all its conditions, and then its first action decides.
pub struct RoutingRule {
    pub id: String,
    pub name: String,
    pub priority: u32,
    pub conditions: Vec<RoutingCondition>,
    pub actions: Vec<RoutingAction>,
    pub enabled: bool,
}

/// The mathematical value of a rule.
pub struct RoutingRuleView {
    pub id: Seq<char>,
    pub name: Seq<char>,
    pub priority: u32,
    pub conditions: Seq<ConditionView>,
    pub actions: Seq<ActionView>,
    pub enabled: bool,
}

impl View for RoutingRule {
    type V = RoutingRuleView;

    open spec fn view(&self) -> RoutingRuleView {
        RoutingRuleView {
            id: self.id@,
            name: self.name@,
            priority: self.priority,
            conditions: self.conditions@.map_values(|c: RoutingCondition| c@),
            actions: self.actions@.map_values(|a: RoutingAction| a@),
            enabled: self.enabled,
        }
    }
}

/// The views of rules.
pub open spec fn routing_rule_views(s: Seq<RoutingRule>) -> Seq<RoutingRuleView> {
    s.map_values(|r: RoutingRule| r@)
}

impl Clone for RoutingRule {
    fn clone(&self) -> (r: Self)
        ensures
            r@ == self@,
    {
        let mut conditions: Vec<RoutingCondition> = Vec::new();
        let mut i: usize = 0;
        while i < self.conditions.len()
            invariant
                i <= self.conditions@.len(),
                conditions@.len() == i,
                forall|j: int| 0 <= j < i ==> #[trigger] conditions@[j]@ == self.conditions@[j]@,
            decreases self.conditions.len() - i,
        {
            conditions.push(self.conditions[i].clone());
            i = i + 1;
        }
        let mut actions: Vec<RoutingAction> = Vec::new();
        let mut k: usize = 0;
        while k < self.actions.len()
            invariant
                k <= self.actions@.len(),
                actions@.len() == k,
                forall|j: int| 0 <= j < k ==> #[trigger] actions@[j]@ == self.actions@[j]@,
            decreases self.actions.len() - k,
        {
            actions.push(self.actions[k].clone());
            k = k + 1;
        }
        let r = RoutingRule {
            id: self.id.clone(),
            name: self.name.clone(),
            priority: self.priority,
            conditions,
            actions,
            enabled: self.enabled,
        };
        assert(r@.conditions =~= self@.conditions);
        assert(r@.actions =~= self@.actions);
        r
    }
}

/// A copy of a list of rules.
pub fn clone_routing_rules(v: &Vec<RoutingRule>) -> (r: Vec<RoutingRule>)
    ensures
        routing_rule_views(r@) == routing_rule_views(v@),
{
    let mut r: Vec<RoutingRule> = Vec::new();
    let mut i: usize = 0;
    while i < v.len()
        invariant
            i <= v@.len(),
            r@.len() == i,
            forall|j: int| 0 <= j < i ==> #[trigger] r@[j]@ == v@[j]@,
        decreases v.len() - i,
    {
        r.push(v[i].clone());
        i = i + 1;
    }
    assert(routing_rule_views(r@) =~= routing_rule_views(v@));
    r
}

/// What a rule decided for a connection.
pub struct RoutingDecision {
    pub action: RoutingAction,
    pub backend_addr: Option<Endpoint>,
    pub tls_terminate: bool,
    pub rule_id: String,
}

/// The mathematical value of a decision.
pub struct DecisionView {
    pub action: ActionView,
    pub backend_addr: Option<Endpoint>,
    pub tls_terminate: bool,
    pub rule_id: Seq<char>,
}

impl View for RoutingDecision {
    type V = DecisionView;

    open spec fn view(&self) -> DecisionView {
        DecisionView {
            action: self.action@,
            backend_addr: self.backend_addr,
            tls_terminate: self.tls_terminate,
            rule_id: self.rule_id@,
        }
    }
}

/// The view of an optional decision.
pub open spec fn opt_decision_view(d: Option<RoutingDecision>) -> Option<DecisionView> {
    match d {
        Some(x) => Some(x@),
        None => None,
    }
}

/// A connection as the rule-based router sees it.
pub struct RoutingContext {
    pub source_addr: Endpoint,
    pub destination_addr: Endpoint,
    pub protocol: String,
    pub sni_hostname: Option<String>,
    pub connection_id: String,
}

/// Whether a connection meets a condition.  The server-name conditions need a
/// server name.
pub open spec fn condition_holds(c: ConditionView, ctx: RoutingContext) -> bool {
    match c {
        ConditionView::SniPrefix { prefix } => ctx.sni_hostname matches Some(s) && is_prefix(prefix, s@),
        ConditionView::SniSuffix { suffix } => ctx.sni_hostname matches Some(s) && is_suffix(suffix, s@),
        ConditionView::SniExact { hostname } => ctx.sni_hostname matches Some(s) && s@ == hostname,
        ConditionView::SourceIp { cidr } => occurs_in(displayed_ip(ctx.source_addr.ip), cidr),
        ConditionView::DestinationPort { port } => ctx.destination_addr.port == port,
        ConditionView::Protocol { protocol } => ctx.protocol@ == protocol,
    }
}

/// Whether a rule applies: it is enabled and every condition holds.
pub open spec fn rule_matches(rule: RoutingRuleView, ctx: RoutingContext) -> bool {
    rule.enabled && forall|i: int| 0 <= i < rule.conditions.len() ==> condition_holds(#[trigger] rule.conditions[i], ctx)
}

/// The address of the first of the texts that parses as a socket address.
pub open spec fn first_parsed(s: Seq<Seq<char>>) -> Option<Endpoint>
    decreases s.len(),
{
    if s.len() == 0 {
        None
    } else if parsed_socket_addr(s[0]) is Some {
        parsed_socket_addr(s[0])
    } else {
        first_parsed(s.drop_first())
    }
}

/// The backend address an action names: the parsed backend of a forward or
/// TLS-terminating action, the first parsable backend of a balancing action,
/// and none for a rejection.
pub open spec fn action_address(a: ActionView) -> Option<Endpoint> {
    match a {
        ActionView::Forward { backend } => parsed_socket_addr(backend),
        ActionView::TlsTerminate { backend } => parsed_socket_addr(backend),
        ActionView::LoadBalance { backends, .. } => first_parsed(backends),
        ActionView::Reject { .. } => None,
    }
}

/// Whether a rule decides for a connection: it applies and has an action.
pub open spec fn rule_decides(rule: RoutingRuleView, ctx: RoutingContext) -> bool {
    rule_matches(rule, ctx) && rule.actions.len() > 0
}

/// The decision of a rule that decides: its first action, the address that
/// action names, whether it terminates TLS, and the rule's id.
pub open spec fn rule_decision(rule: RoutingRuleView) -> DecisionView {
    let a = rule.actions[0];
    DecisionView {
        action: a,
        backend_addr: action_address(a),
        tls_terminate: a is TlsTerminate,
        rule_id: rule.id,
    }
}

/// A rule matches a connection exactly when it is enabled and the connection
/// meets each of its conditions: its server name starts with, ends with or
/// equals the given text; the text of its source IP address occurs in the
/// given CIDR text; its destination port is the given port; its protocol text
/// is the given protocol.
pub proof fn lemma_rule_matches_by_conditions(rule: RoutingRuleView, ctx: RoutingContext)
    ensures
        rule_matches(rule, ctx) <==> {
            &&& rule.enabled
            &&& forall|i: int|
                0 <= i < rule.conditions.len() ==> match #[trigger] rule.conditions[i] {
                    ConditionView::SniPrefix { prefix } => ctx.sni_hostname matches Some(s) && prefix.len()
                        <= s@.len() && s@.subrange(0, prefix.len() as int) == prefix,
                    ConditionView::SniSuffix { suffix } => ctx.sni_hostname matches Some(s) && suffix.len()
                        <= s@.len() && s@.subrange(s@.len() - suffix.len(), s@.len() as int) == suffix,
                    ConditionView::SniExact { hostname } => ctx.sni_hostname matches Some(s) && s@ == hostname,
                    ConditionView::SourceIp { cidr } => exists|k: int|
                        0 <= k && k + displayed_ip(ctx.source_addr.ip).len() <= cidr.len() && #[trigger] cidr.subrange(
                            k,
                            k + displayed_ip(ctx.source_addr.ip).len(),
                        ) == displayed_ip(ctx.source_addr.ip),
                    ConditionView::DestinationPort { port } => ctx.destination_addr.port == port,
                    ConditionView::Protocol { protocol } => ctx.protocol@ == protocol,
                }
        },
{
}

/// A rule with a protocol condition for another protocol than the
/// connection's never matches it, so applying the rule gives no decision.
pub proof fn lemma_protocol_condition_excludes(rule: RoutingRuleView, ctx: RoutingContext, i: int)
    requires
        0 <= i < rule.conditions.len(),
        rule.conditions[i] matches ConditionView::Protocol { protocol } && protocol != ctx.protocol@,
    ensures
        !rule_matches(rule, ctx),
        !rule_decides(rule, ctx),
{
    lemma_rule_matches_by_conditions(rule, ctx);
}

/// Whether a connection meets a condition.
fn condition_met(c: &RoutingCondition, context: &RoutingContext) -> (r: bool)
    ensures
        r == condition_holds(c@, *context),
{
    match c {
        RoutingCondition::SniPrefix { prefix } => match &context.sni_hostname {
            Some(sni) => text_starts_with(sni.as_str(), prefix.as_str()),
            None => false,
        },
        RoutingCondition::SniSuffix { suffix } => match &context.sni_hostname {
            Some(sni) => text_ends_with(sni.as_str(), suffix.as_str()),
            None => false,
        },
        RoutingCondition::SniExact { hostname } => match &context.sni_hostname {
            Some(sni) => text_eq(sni.as_str(), hostname.as_str()),
            None => false,
        },
        RoutingCondition::SourceIp { cidr } => {
            let ip_text = ip_to_text(&context.source_addr.ip);
            text_contains(cidr.as_str(), ip_text.as_str())
        },
        RoutingCondition::DestinationPort { port } => context.destination_addr.port == *port,
        RoutingCondition::Protocol { protocol } => text_eq(context.protocol.as_str(), protocol.as_str()),
    }
}

/// The first of the texts that parses as a socket address.
fn first_parsable(backends: &Vec<String>) -> (r: Option<Endpoint>)
    ensures
        r == first_parsed(text_views(backends@)),
{
    let ghost all = text_views(backends@);
    assert(all.skip(0) =~= all);
    let mut i: usize = 0;
    while i < backends.len()
        invariant
            all == text_views(backends@),
            i <= backends@.len(),
            first_parsed(all) == first_parsed(all.skip(i as int)),
        decreases backends.len() - i,
    {
        let found = parse_socket_addr(backends[i].as_str());
        proof {
            let rest = all.skip(i as int);
            assert(rest[0] == backends@[i as int]@);
            assert(rest.drop_first() =~= all.skip(i + 1));
        }
        if found.is_some() {
            return found;
        }
        i = i + 1;
    }
    assert(all.skip(i as int) =~= Seq::<Seq<char>>::empty());
    None
}

impl RoutingRule {
    /// Whether the rule applies to `context` (see `rule_matches`).
    pub fn matches(&self, context: &RoutingContext) -> (r: bool)
        ensures
            r == rule_matches(self@, *context),
    {
        if !self.enabled {
            return false;
        }
        let mut i: usize = 0;
        while i < self.conditions.len()
            invariant
                self.enabled,
                i <= self.conditions@.len(),
                forall|j: int| 0 <= j < i ==> condition_holds(#[trigger] self@.conditions[j], *context),
            decreases self.conditions.len() - i,
        {
            assert(self@.conditions[i as int] == self.conditions@[i as int]@);
            if !condition_met(&self.conditions[i], context) {
                return false;
            }
            i = i + 1;
        }
        true
    }

    /// The rule's decision for `context`: none unless the rule decides (see
    /// `rule_decides`), and then its first action (see `rule_decision`).
    pub fn apply(&self, context: &RoutingContext) -> (r: Option<RoutingDecision>)
        ensures
            r is Some <==> rule_decides(self@, *context),
            r matches Some(d) ==> d@ == rule_decision(self@),
    {
        if !self.matches(context) {
            return None;
        }
        if self.actions.len() == 0 {
            return None;
        }
        let action = &self.actions[0];
        let backend_addr = Self::resolve_backend_addr(action);
        let tls_terminate = match action {
            RoutingAction::TlsTerminate { .. } => true,
            _ => false,
        };
        Some(RoutingDecision { action: action.clone(), backend_addr, tls_terminate, rule_id: self.id.clone() })
    }

    /// The backend address an action names (see `action_address`).
    fn resolve_backend_addr(action: &RoutingAction) -> (r: Option<Endpoint>)
        ensures
            r == action_address(action@),
    {
        match action {
            RoutingAction::Forward { backend } => parse_socket_addr(backend.as_str()),
            RoutingAction::TlsTerminate { backend } => parse_socket_addr(backend.as_str()),
            RoutingAction::LoadBalance { backends, .. } => first_parsable(backends),
            RoutingAction::Reject { .. } => None,
        }
    }
}

} // verus!
