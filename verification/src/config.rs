use vstd::prelude::*;
use crate::name_map::NameMap;
use crate::net::{Endpoint, IpAddress};
use crate::router::OptionValue;
use crate::text::{join3, text_eq, text_owned};

verus! {

/// Where the proxy listens and how it treats connections.
#[derive(Clone, Copy, Debug, PartialEq, Eq, Structural)]
pub struct ServerConfig {
    pub tcp_bind: Endpoint,
    pub udp_bind: Endpoint,
    pub worker_threads: Option<usize>,
    pub max_connections: Option<usize>,
    /// Seconds.
    pub connection_timeout: Option<u64>,
    pub buffer_size: Option<usize>,
}

/// How to reach Redis.
pub struct RedisConfig {
    pub url: String,
    pub password: Option<String>,
    pub db: Option<i64>,
    pub pool_size: Option<u32>,
    /// Seconds.
    pub connection_timeout: Option<u64>,
    /// Seconds.
    pub command_timeout: Option<u64>,
}

/// How to log.
pub struct LoggingConfig {
    pub level: String,
    /// "json" or "pretty".
    pub format: String,
    pub file: Option<String>,
    /// Megabytes.
    pub max_size: Option<u64>,
    pub max_files: Option<u32>,
}

/// Where metrics are published.
pub struct MetricsConfig {
    pub enabled: bool,
    pub bind: Endpoint,
    pub path: String,
    /// Seconds.
    pub collect_interval: Option<u64>,
}

/// How backends are checked.
#[derive(Clone, Copy, Debug, PartialEq, Eq, Structural)]
pub struct HealthCheckConfig {
    pub enabled: bool,
    /// Seconds between rounds of checks.
    pub interval: u64,
    /// Seconds a connection attempt may take.
    pub timeout: u64,
    /// Connection attempts per check.
    pub retries: u32,
    /// Consecutive failed checks after which a healthy backend is marked unhealthy.
    pub failure_threshold: u32,
    /// Consecutive successful checks after which an unhealthy backend is marked healthy.
    pub success_threshold: u32,
}

/// A router: the plugin that implements it and the plugin's options.
pub struct RouterConfig {
    pub plugin: String,
    pub config: NameMap<OptionValue>,
}

/// Which protocols a rule applies to.
#[derive(Clone, Copy, Debug, PartialEq, Eq, Structural)]
pub enum Protocol {
    Tcp,
    Udp,
    Both,
}

/// What a rule matches connections by.
pub enum RuleMatcher {
    Port { port: u16 },
    /// Ports from `start` to `end`, both included.
    PortRange { start: u16, end: u16 },
    Sni { pattern: String },
    SourceIp { cidr: String },
    DestinationIp { cidr: String },
    /// A matcher provided by a plugin, with its configuration as JSON text.
    Custom { plugin: String, config: String },
}

impl Clone for MetricsConfig {
    fn clone(&self) -> (r: Self)
        ensures
            r.enabled == self.enabled,
            r.bind == self.bind,
            r.path@ == self.path@,
            r.collect_interval == self.collect_interval,
    {
        MetricsConfig {
            enabled: self.enabled,
            bind: self.bind,
            path: self.path.clone(),
            collect_interval: self.collect_interval,
        }
    }
}

impl Clone for RuleMatcher {
    fn clone(&self) -> (r: Self)
        ensures
            r == *self,
    {
        match self {
            RuleMatcher::Port { port } => RuleMatcher::Port { port: *port },
            RuleMatcher::PortRange { start, end } => RuleMatcher::PortRange { start: *start, end: *end },
            RuleMatcher::Sni { pattern } => RuleMatcher::Sni { pattern: pattern.clone() },
            RuleMatcher::SourceIp { cidr } => RuleMatcher::SourceIp { cidr: cidr.clone() },
            RuleMatcher::DestinationIp { cidr } => RuleMatcher::DestinationIp { cidr: cidr.clone() },
            RuleMatcher::Custom { plugin, config } => RuleMatcher::Custom { plugin: plugin.clone(), config: config.clone() },
        }
    }
}

/// A backend as configured.
pub struct Backend {
    pub id: String,
    pub address: Endpoint,
    pub weight: Option<u32>,
    pub enabled: bool,
    pub metadata: Option<NameMap<String>>,
}

/// The mathematical value of a configured backend.
pub struct BackendConfigView {
    pub id: Seq<char>,
    pub address: Endpoint,
    pub weight: Option<u32>,
    pub enabled: bool,
    pub metadata: Option<Map<Seq<char>, String>>,
}

impl View for Backend {
    type V = BackendConfigView;

    open spec fn view(&self) -> BackendConfigView {
        BackendConfigView {
            id: self.id@,
            address: self.address,
            weight: self.weight,
            enabled: self.enabled,
            metadata: match self.metadata {
                Some(m) => Some(m@),
                None => None,
            },
        }
    }
}

impl Clone for Backend {
    fn clone(&self) -> (r: Self)
        ensures
            r@ == self@,
    {
        Backend {
            id: self.id.clone(),
            address: self.address,
            weight: self.weight,
            enabled: self.enabled,
            metadata: match &self.metadata {
                Some(m) => Some(m.clone_texts()),
                None => None,
            },
        }
    }
}

/// A routing rule: which connections it applies to, the router that chooses
/// among its backends, and the backends.
pub struct RoutingRule {
    pub name: String,
    pub protocol: Protocol,
    pub matcher: RuleMatcher,
    pub router: String,
    pub backends: Vec<Backend>,
    pub enabled: bool,
}

/// The mathematical value of a routing rule.
pub struct RuleView {
    pub name: Seq<char>,
    pub protocol: Protocol,
    pub matcher: RuleMatcher,
    pub router: Seq<char>,
    pub backends: Seq<BackendConfigView>,
    pub enabled: bool,
}

/// The views of configured backends.
pub open spec fn backend_config_views(s: Seq<Backend>) -> Seq<BackendConfigView> {
    s.map_values(|b: Backend| b@)
}

/// The views of routing rules.
pub open spec fn rule_views(s: Seq<RoutingRule>) -> Seq<RuleView> {
    s.map_values(|r: RoutingRule| r@)
}

impl View for RoutingRule {
    type V = RuleView;

    open spec fn view(&self) -> RuleView {
        RuleView {
            name: self.name@,
            protocol: self.protocol,
            matcher: self.matcher,
            router: self.router@,
            backends: backend_config_views(self.backends@),
            enabled: self.enabled,
        }
    }
}

/// A copy of a list of configured backends.
pub fn clone_backends(v: &Vec<Backend>) -> (r: Vec<Backend>)
    ensures
        backend_config_views(r@) == backend_config_views(v@),
{
    let mut r: Vec<Backend> = Vec::new();
    let mut i: usize = 0;
    while i < v.len()
        invariant
            i <= v@.len(),
            r@.len() == i,
            forall|j: int| 0 <= j < i ==> #[trigger] r@[j]@ == v@[j]@,
        decreases v.len() - i,
    {
        r.push(v[i].clone());
        i = i + 1;
    }
    assert(backend_config_views(r@) =~= backend_config_views(v@));
    r
}

impl Clone for RoutingRule {
    fn clone(&self) -> (r: Self)
        ensures
            r@ == self@,
    {
        RoutingRule {
            name: self.name.clone(),
            protocol: self.protocol,
            matcher: self.matcher.clone(),
            router: self.router.clone(),
            backends: clone_backends(&self.backends),
            enabled: self.enabled,
        }
    }
}

/// A copy of a list of rules.
pub fn clone_rules(v: &Vec<RoutingRule>) -> (r: Vec<RoutingRule>)
    ensures
        rule_views(r@) == rule_views(v@),
{
    let mut r: Vec<RoutingRule> = Vec::new();
    let mut i: usize = 0;
    while i < v.len()
        invariant
            i <= v@.len(),
            r@.len() == i,
            forall|j: int| 0 <= j < i ==> #[trigger] r@[j]@ == v@[j]@,
        decreases v.len() - i,
    {
        r.push(v[i].clone());
        i = i + 1;
    }
    assert(rule_views(r@) =~= rule_views(v@));
    r
}

/// The whole configuration of the proxy.
pub struct Config {
    pub server: ServerConfig,
    pub redis: RedisConfig,
    pub logging: LoggingConfig,
    pub metrics: MetricsConfig,
    pub health_check: HealthCheckConfig,
    pub routers: NameMap<RouterConfig>,
    pub rules: Vec<RoutingRule>,
}

impl Config {
    /// The configuration's name maps are well formed, the routers' options included.
    pub open spec fn wf(self) -> bool {
        &&& self.routers.wf()
        &&& forall|i: int| 0 <= i < self.routers.pairs().len() ==> (#[trigger] self.routers.pairs()[i]).1.config.wf()
    }
}

/// The address 0.0.0.0 with a port.
pub open spec fn any_v4(port: u16) -> Endpoint {
    Endpoint { ip: IpAddress::V4(0), port }
}

impl Default for MetricsConfig {
    fn default() -> (r: Self)
        ensures
            r.enabled,
            r.bind == any_v4(9090),
            r.path@ == "/metrics"@,
            r.collect_interval == Some(10u64),
    {
        MetricsConfig {
            enabled: true,
            bind: Endpoint { ip: IpAddress::V4(0), port: 9090 },
            path: text_owned("/metrics"),
            collect_interval: Some(10),
        }
    }
}

impl Default for HealthCheckConfig {
    fn default() -> (r: Self)
        ensures
            r == (HealthCheckConfig {
                enabled: true,
                interval: 30,
                timeout: 5,
                retries: 3,
                failure_threshold: 3,
                success_threshold: 2,
            }),
    {
        HealthCheckConfig {
            enabled: true,
            interval: 30,
            timeout: 5,
            retries: 3,
            failure_threshold: 3,
            success_threshold: 2,
        }
    }
}

impl Default for Config {
    fn default() -> (r: Self)
        ensures
            r.server.tcp_bind == any_v4(8080),
            r.server.udp_bind == any_v4(8081),
            r.server.worker_threads is None,
            r.server.max_connections == Some(10000usize),
            r.server.connection_timeout == Some(30u64),
            r.server.buffer_size == Some(8192usize),
            r.redis.url@ == "redis://localhost:6379"@,
            r.redis.password is None,
            r.redis.db == Some(0i64),
            r.redis.pool_size == Some(10u32),
            r.redis.connection_timeout == Some(5u64),
            r.redis.command_timeout == Some(3u64),
            r.logging.level@ == "info"@,
            r.logging.format@ == "pretty"@,
            r.logging.file is None,
            r.logging.max_size == Some(100u64),
            r.logging.max_files == Some(10u32),
            r.metrics.enabled,
            r.metrics.bind == any_v4(9090),
            r.metrics.path@ == "/metrics"@,
            r.metrics.collect_interval == Some(10u64),
            r.health_check == (HealthCheckConfig {
                enabled: true,
                interval: 30,
                timeout: 5,
                retries: 3,
                failure_threshold: 3,
                success_threshold: 2,
            }),
            r.wf(),
            r.routers@ == Map::<Seq<char>, RouterConfig>::empty(),
            r.rules@ == Seq::<RoutingRule>::empty(),
    {
        Config {
            server: ServerConfig {
                tcp_bind: Endpoint { ip: IpAddress::V4(0), port: 8080 },
                udp_bind: Endpoint { ip: IpAddress::V4(0), port: 8081 },
                worker_threads: None,
                max_connections: Some(10000),
                connection_timeout: Some(30),
                buffer_size: Some(8192),
            },
            redis: RedisConfig {
                url: text_owned("redis://localhost:6379"),
                password: None,
                db: Some(0),
                pool_size: Some(10),
                connection_timeout: Some(5),
                command_timeout: Some(3),
            },
            logging: LoggingConfig {
                level: text_owned("info"),
                format: text_owned("pretty"),
                file: None,
                max_size: Some(100),
                max_files: Some(10),
            },
            metrics: MetricsConfig::default(),
            health_check: HealthCheckConfig::default(),
            routers: NameMap::new(),
            rules: Vec::new(),
        }
    }
}

/// Why a configuration is rejected.
#[derive(Debug)]
pub enum ConfigError {
    TcpPortZero,
    UdpPortZero,
    EmptyRedisUrl,
    EmptyRuleName,
    /// The named rule has no backend.
    RuleWithoutBackends(String),
    /// A rule names a router that is not defined.
    UndefinedRouter { router: String, rule: String },
}

impl ConfigError {
    /// The error's message.
    pub fn message(&self) -> (r: String)
        ensures
            match self {
                ConfigError::TcpPortZero => r@ == "TCP bind port cannot be 0"@,
                ConfigError::UdpPortZero => r@ == "UDP bind port cannot be 0"@,
                ConfigError::EmptyRedisUrl => r@ == "Redis URL cannot be empty"@,
                ConfigError::EmptyRuleName => r@ == "Routing rule name cannot be empty"@,
                ConfigError::RuleWithoutBackends(rule) => r@ == "Routing rule '"@ + rule@
                    + "' must have at least one backend"@,
                ConfigError::UndefinedRouter { router, rule } => r@ == "Router '"@ + router@
                    + "' referenced in rule '"@ + rule@ + "' is not defined"@,
            },
    {
        match self {
            ConfigError::TcpPortZero => text_owned("TCP bind port cannot be 0"),
            ConfigError::UdpPortZero => text_owned("UDP bind port cannot be 0"),
            ConfigError::EmptyRedisUrl => text_owned("Redis URL cannot be empty"),
            ConfigError::EmptyRuleName => text_owned("Routing rule name cannot be empty"),
            ConfigError::RuleWithoutBackends(rule) => join3(
                "Routing rule '",
                rule.as_str(),
                "' must have at least one backend",
            ),
            ConfigError::UndefinedRouter { router, rule } => {
                let head = join3("Router '", router.as_str(), "' referenced in rule '");
                join3(head.as_str(), rule.as_str(), "' is not defined")
            },
        }
    }
}

/// A rule is well-formed when it has a name, at least one backend, and a router
/// that `routers` defines.
pub open spec fn rule_well_formed(rule: RuleView, routers: Map<Seq<char>, RouterConfig>) -> bool {
    rule.name.len() != 0 && rule.backends.len() != 0 && routers.contains_key(rule.router)
}

/// The error reported for a rule that is not well-formed: a missing name comes
/// first, then missing backends, then an undefined router.
pub open spec fn rule_error_matches(rule: RuleView, e: ConfigError) -> bool {
    if rule.name.len() == 0 {
        e is EmptyRuleName
    } else if rule.backends.len() == 0 {
        e matches ConfigError::RuleWithoutBackends(n) && n@ == rule.name
    } else {
        e matches ConfigError::UndefinedRouter { router, rule: n } && router@ == rule.router && n@ == rule.name
    }
}

impl Config {
    /// Checks the configuration: both listening ports must be non-zero, the
    /// Redis URL non-empty, and every rule well-formed.  The first problem found,
    /// in that order and by rule position, is reported.
    pub fn validate(&self) -> (r: Result<(), ConfigError>)
        requires
            self.routers.wf(),
        ensures
            r is Ok <==> {
                &&& self.server.tcp_bind.port != 0
                &&& self.server.udp_bind.port != 0
                &&& self.redis.url@.len() != 0
                &&& forall|i: int| 0 <= i < self.rules@.len() ==> rule_well_formed(#[trigger] self.rules@[i]@, self.routers@)
            },
            r matches Err(e) ==> {
                if self.server.tcp_bind.port == 0 {
                    e is TcpPortZero
                } else if self.server.udp_bind.port == 0 {
                    e is UdpPortZero
                } else if self.redis.url@.len() == 0 {
                    e is EmptyRedisUrl
                } else {
                    exists|i: int|
                        0 <= i < self.rules@.len() && !rule_well_formed(#[trigger] self.rules@[i]@, self.routers@) && (forall|j: int|
                            0 <= j < i ==> rule_well_formed(#[trigger] self.rules@[j]@, self.routers@))
                            && rule_error_matches(self.rules@[i]@, e)
                }
            },
    {
        if self.server.tcp_bind.port == 0 {
            return Err(ConfigError::TcpPortZero);
        }
        if self.server.udp_bind.port == 0 {
            return Err(ConfigError::UdpPortZero);
        }
        if self.redis.url.as_str().is_empty() {
            return Err(ConfigError::EmptyRedisUrl);
        }
        let mut i: usize = 0;
        while i < self.rules.len()
            invariant
                self.routers.wf(),
                self.server.tcp_bind.port != 0,
                self.server.udp_bind.port != 0,
                self.redis.url@.len() != 0,
                i <= self.rules@.len(),
                forall|j: int| 0 <= j < i ==> rule_well_formed(#[trigger] self.rules@[j]@, self.routers@),
            decreases self.rules.len() - i,
        {
            let rule = &self.rules[i];
            let ghost rv = self.rules@[i as int]@;
            if rule.name.as_str().is_empty() {
                let e = ConfigError::EmptyRuleName;
                assert(!rule_well_formed(rv, self.routers@) && rule_error_matches(rv, e));
                return Err(e);
            }
            if rule.backends.len() == 0 {
                let e = ConfigError::RuleWithoutBackends(rule.name.clone());
                assert(!rule_well_formed(rv, self.routers@) && rule_error_matches(rv, e));
                return Err(e);
            }
            if !self.routers.contains(rule.router.as_str()) {
                let e = ConfigError::UndefinedRouter { router: rule.router.clone(), rule: rule.name.clone() };
                assert(!rule_well_formed(rv, self.routers@) && rule_error_matches(rv, e));
                return Err(e);
            }
            i = i + 1;
        }
        Ok(())
    }
}

/// The test for a rule not named `name`, as a function.
pub open spec fn rule_not_named(name: Seq<char>) -> spec_fn(RuleView) -> bool {
    |r: RuleView| r.name != name
}

/// Holds the current configuration and the file it comes from.  Reading the
/// file is left to the caller, which hands the parsed configuration over.
pub struct ConfigManager {
    config: Config,
    file_path: String,
}

impl ConfigManager {
    /// The current configuration.
    pub closed spec fn current(self) -> Config {
        self.config
    }

    pub closed spec fn path(self) -> Seq<char> {
        self.file_path@
    }

    pub open spec fn wf(self) -> bool {
        self.current().wf()
    }

    /// A manager for the file at `file_path`, holding the default configuration.
    pub fn new(file_path: String) -> (r: Self)
        ensures
            r.wf(),
            r.path() == file_path@,
            r.current().rules@ == Seq::<RoutingRule>::empty(),
            r.current().routers@ == Map::<Seq<char>, RouterConfig>::empty(),
            r.current().server.tcp_bind == any_v4(8080),
    {
        ConfigManager { config: Config::default(), file_path }
    }

    /// The file the configuration comes from.
    pub fn file_path(&self) -> (r: &str)
        ensures
            r@ == self.path(),
    {
        self.file_path.as_str()
    }

    /// Replaces the configuration with one just read from the file.
    pub fn install(&mut self, config: Config)
        requires
            config.wf(),
        ensures
            final(self).wf(),
            final(self).current() == config,
            final(self).path() == old(self).path(),
    {
        self.config = config;
    }

    /// The current configuration.
    pub fn get(&self) -> (r: &Config)
        ensures
            *r == self.current(),
    {
        &self.config
    }

    /// Defines the router `name`, replacing an existing definition.
    pub fn update_router(&mut self, name: String, router_config: RouterConfig)
        requires
            old(self).wf(),
            router_config.config.wf(),
        ensures
            final(self).wf(),
            final(self).current().routers@ == old(self).current().routers@.insert(name@, router_config),
            final(self).current().rules == old(self).current().rules,
            final(self).path() == old(self).path(),
    {
        let ghost before = self.config.routers.pairs();
        let ghost key = name@;
        self.config.routers.insert(name, router_config);
        proof {
            let after = self.config.routers.pairs();
            assert forall|i: int| 0 <= i < after.len() implies (#[trigger] after[i]).1.config.wf() by {
                crate::name_map::lemma_pairs_lookup(after, i);
                let k = after[i].0;
                if k != key {
                    assert(old(self).config.routers@.contains_key(k));
                    let j = choose|j: int| 0 <= j < before.len() && before[j].0 == k;
                    crate::name_map::lemma_pairs_lookup(before, j);
                }
            }
        }
    }

    /// Replaces the first rule with the same name as `rule`, or adds `rule` last
    /// when there is none.
    pub fn update_rule(&mut self, rule: RoutingRule)
        requires
            old(self).wf(),
        ensures
            final(self).wf(),
            final(self).current().routers == old(self).current().routers,
            final(self).path() == old(self).path(),
            ({
                let before = rule_views(old(self).current().rules@);
                let after = rule_views(final(self).current().rules@);
                if exists|i: int| 0 <= i < before.len() && before[i].name == rule@.name {
                    exists|i: int|
                        0 <= i < before.len() && before[i].name == rule@.name && (forall|j: int|
                            0 <= j < i ==> before[j].name != rule@.name) && after == before.update(i, rule@)
                } else {
                    after == before.push(rule@)
                }
            }),
    {
        let ghost before = rule_views(self.config.rules@);
        let mut i: usize = 0;
        while i < self.config.rules.len()
            invariant
                old(self).wf(),
                self.config == old(self).current(),
                self.file_path@ == old(self).path(),
                before == rule_views(self.config.rules@),
                i <= self.config.rules@.len(),
                forall|j: int| 0 <= j < i ==> before[j].name != rule@.name,
            decreases self.config.rules.len() - i,
        {
            if text_eq(self.config.rules[i].name.as_str(), rule.name.as_str()) {
                let ghost rv = rule@;
                self.config.rules.set(i, rule);
                assert(rule_views(self.config.rules@) =~= before.update(i as int, rv));
                return;
            }
            i = i + 1;
        }
        let ghost rv = rule@;
        self.config.rules.push(rule);
        assert(rule_views(self.config.rules@) =~= before.push(rv));
    }

    /// Removes every rule named `name`, keeping the others in order.
    pub fn remove_rule(&mut self, name: &str)
        requires
            old(self).wf(),
        ensures
            final(self).wf(),
            final(self).current().routers == old(self).current().routers,
            final(self).path() == old(self).path(),
            rule_views(final(self).current().rules@) == rule_views(old(self).current().rules@).filter(
                rule_not_named(name@),
            ),
    {
        let ghost all = rule_views(self.config.rules@);
        let ghost keep = rule_not_named(name@);
        let mut old_rules: Vec<RoutingRule> = Vec::new();
        std::mem::swap(&mut old_rules, &mut self.config.rules);
        let mut kept: Vec<RoutingRule> = Vec::new();
        let mut i: usize = 0;
        while i < old_rules.len()
            invariant
                all == rule_views(old_rules@),
                keep == rule_not_named(name@),
                i <= old_rules@.len(),
                rule_views(kept@) == all.take(i as int).filter(keep),
            decreases old_rules.len() - i,
        {
            proof {
                crate::router::lemma_filter_take_step(all, keep, i as int);
                assert(all[i as int] == old_rules@[i as int]@);
            }
            if !text_eq(old_rules[i].name.as_str(), name) {
                let ghost before = kept@;
                kept.push(old_rules[i].clone());
                assert(rule_views(kept@) =~= rule_views(before).push(all[i as int]));
            }
            i = i + 1;
        }
        assert(all.take(old_rules@.len() as int) =~= all);
        self.config.rules = kept;
    }
}

} // verus!
