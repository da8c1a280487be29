use dynamic_proxy::config::{
    Backend, Config, ConfigError, ConfigManager, Protocol as RuleProtocol, RouterConfig, RoutingRule, RuleMatcher,
};
use dynamic_proxy::manager::RouterManager;
use dynamic_proxy::name_map::NameMap;
use dynamic_proxy::net::Endpoint;
use dynamic_proxy::plugins::{pick_available, pick_weighted, PluginKind, RouterRegistry};
use dynamic_proxy::router::{BackendInfo, OptionValue, Protocol, RouterError, RoutingContext};

fn ep(text: &str) -> Endpoint {
    Endpoint::parse(text).unwrap()
}

fn backend(id: &str, addr: &str) -> Backend {
    Backend { id: id.to_string(), address: ep(addr), weight: None, enabled: true, metadata: None }
}

fn rule(name: &str, port: u16, router: &str, backends: Vec<Backend>) -> RoutingRule {
    RoutingRule {
        name: name.to_string(),
        protocol: RuleProtocol::Tcp,
        matcher: RuleMatcher::Port { port },
        router: router.to_string(),
        backends,
        enabled: true,
    }
}

fn router_config(plugin: &str) -> RouterConfig {
    RouterConfig { plugin: plugin.to_string(), config: NameMap::new() }
}

fn web_config() -> Config {
    let mut config = Config::default();
    config.routers.insert("rr".to_string(), router_config("round_robin"));
    config.rules.push(rule(
        "web",
        8080,
        "rr",
        vec![backend("b1", "10.0.0.1:80"), backend("b2", "10.0.0.2:80")],
    ));
    config
}

fn tcp_context(port: u16) -> RoutingContext {
    RoutingContext::new(ep("192.168.1.10:40000"), Endpoint { port, ..ep("127.0.0.1:0") }, Protocol::Tcp)
}

#[test]
fn manager_lists_the_provided_plugins_in_order() {
    let manager = RouterManager::new();
    assert_eq!(
        manager.list_available_plugins(),
        vec!["round_robin", "weighted", "hash", "least_connections", "random"]
    );
}

#[test]
fn manager_routes_round_robin_over_rule_backends() {
    let mut manager = RouterManager::new();
    assert!(manager.initialize(&web_config()).is_ok());
    let ctx = tcp_context(8080);
    let first = manager.route(&ctx).unwrap().unwrap();
    let second = manager.route(&ctx).unwrap().unwrap();
    let third = manager.route(&ctx).unwrap().unwrap();
    assert_eq!(first.id, "b1");
    assert_eq!(second.id, "b2");
    assert_eq!(third.id, "b1");
    assert_eq!(manager.get_router_stats("rr").unwrap().total_requests, 3);
}

#[test]
fn manager_routes_nowhere_without_matching_rule() {
    let mut manager = RouterManager::new();
    manager.initialize(&web_config()).unwrap();
    assert!(manager.route(&tcp_context(9090)).unwrap().is_none());
    let udp = RoutingContext::new(ep("192.168.1.10:40000"), ep("127.0.0.1:8080"), Protocol::Udp);
    assert!(manager.route(&udp).unwrap().is_none());
}

#[test]
fn manager_skips_disabled_rule() {
    let mut config = web_config();
    config.rules[0].enabled = false;
    let mut manager = RouterManager::new();
    manager.initialize(&config).unwrap();
    assert!(manager.route(&tcp_context(8080)).unwrap().is_none());
}

#[test]
fn manager_reports_unknown_router() {
    let mut config = web_config();
    config.rules[0].router = "missing".to_string();
    let mut manager = RouterManager::new();
    manager.initialize(&config).unwrap();
    match manager.route(&tcp_context(8080)) {
        Err(e) => assert_eq!(e.message(), "Router 'missing' not found"),
        Ok(_) => panic!("routing should fail"),
    }
}

#[test]
fn manager_initialize_fails_on_unknown_plugin() {
    let mut config = web_config();
    config.routers.insert("odd".to_string(), router_config("no_such_plugin"));
    let mut manager = RouterManager::new();
    match manager.initialize(&config) {
        Err(RouterError::CreateFailed(name, plugin)) => {
            assert_eq!(name, "odd");
            assert_eq!(plugin, "no_such_plugin");
        },
        _ => panic!("initialization should fail"),
    }
    // The router made before the failure stays; the rules were not taken.
    assert!(manager.get_router_stats("rr").is_ok());
    assert!(manager.route(&tcp_context(8080)).unwrap().is_none());
    let e = RouterError::CreateFailed("odd".to_string(), "no_such_plugin".to_string());
    assert_eq!(e.message(), "Failed to create router 'odd'");
}

#[test]
fn manager_health_update_takes_backend_out_of_rotation() {
    let mut manager = RouterManager::new();
    manager.initialize(&web_config()).unwrap();
    manager.update_backend_health("web", "b1", false);
    let ctx = tcp_context(8080);
    for _ in 0..4 {
        assert_eq!(manager.route(&ctx).unwrap().unwrap().id, "b2");
    }
    manager.update_backend_health("web", "b2", false);
    assert!(manager.route(&ctx).unwrap().is_none());
}

#[test]
fn manager_connection_limit_counts() {
    let mut config = web_config();
    config.rules[0].backends.truncate(1);
    let mut manager = RouterManager::new();
    manager.initialize(&config).unwrap();
    manager.update_backend_connections("web", "b1", 7);
    // Without a limit the count does not matter.
    assert_eq!(manager.route(&tcp_context(8080)).unwrap().unwrap().current_connections, 7);
}

#[test]
fn manager_reload_replaces_rules_and_drops_routers() {
    let mut manager = RouterManager::new();
    manager.initialize(&web_config()).unwrap();
    let mut config = Config::default();
    config.routers.insert("ll".to_string(), router_config("least_connections"));
    config.rules.push(rule("api", 9000, "ll", vec![backend("a1", "10.0.1.1:80")]));
    assert!(manager.reload_config(&config).is_ok());
    assert!(matches!(manager.get_router_stats("rr"), Err(RouterError::RouterNotFound(_))));
    assert!(manager.route(&tcp_context(8080)).unwrap().is_none());
    assert_eq!(manager.route(&tcp_context(9000)).unwrap().unwrap().id, "a1");
    let stats = manager.get_all_stats();
    assert_eq!(stats.len(), 1);
    assert!(stats.get("ll").is_some());
}

#[test]
fn manager_reload_fails_on_unknown_plugin_of_new_router() {
    let mut manager = RouterManager::new();
    manager.initialize(&web_config()).unwrap();
    let mut config = web_config();
    config.routers.insert("odd".to_string(), router_config("mystery"));
    match manager.reload_config(&config) {
        Err(e) => assert_eq!(e.message(), "Failed to create new router 'odd'"),
        Ok(()) => panic!("reload should fail"),
    }
}

#[test]
fn manager_shutdown_forgets_routers() {
    let mut manager = RouterManager::new();
    manager.initialize(&web_config()).unwrap();
    manager.shutdown();
    assert!(manager.get_all_stats().len() == 0);
    match manager.route(&tcp_context(8080)) {
        Err(e) => assert_eq!(e.message(), "Router 'rr' not found"),
        Ok(_) => panic!("the router is gone"),
    }
}

#[test]
fn registry_creates_registered_plugins() {
    let mut registry = RouterRegistry::new();
    registry.register("fair".to_string(), PluginKind::RoundRobin);
    assert!(registry.create("fair").is_ok());
    match registry.create("other") {
        Err(e) => assert_eq!(e.message(), "Router 'other' not found"),
        Ok(_) => panic!("no such plugin"),
    }
    assert_eq!(registry.list_routers(), vec!["fair"]);
}

#[test]
fn weighted_pick_walks_the_weights() {
    let backends = vec![
        BackendInfo::new("a".to_string(), ep("10.0.0.1:80")).with_weight(1),
        BackendInfo::new("b".to_string(), ep("10.0.0.2:80")).with_weight(0),
        BackendInfo::new("c".to_string(), ep("10.0.0.3:80")).with_weight(3),
    ];
    assert_eq!(pick_weighted(&backends, 0).unwrap().id, "a");
    assert_eq!(pick_weighted(&backends, 1).unwrap().id, "c");
    assert_eq!(pick_weighted(&backends, 3).unwrap().id, "c");
    assert_eq!(pick_weighted(&backends, 4).unwrap().id, "c");
}

#[test]
fn hash_router_option_reads_text() {
    let mut options = NameMap::new();
    options.insert("hash_key".to_string(), OptionValue::Text("target_port".to_string()));
    let mut router = dynamic_proxy::plugins::HashRouter::new();
    router.initialize(&options);
    let backends = vec![
        BackendInfo::new("a".to_string(), ep("10.0.0.1:80")),
        BackendInfo::new("b".to_string(), ep("10.0.0.2:80")),
    ];
    let one = RoutingContext::new(ep("1.1.1.1:1"), ep("127.0.0.1:443"), Protocol::Tcp);
    let two = RoutingContext::new(ep("2.2.2.2:2"), ep("127.0.0.1:443"), Protocol::Tcp);
    assert_eq!(router.select_backend(&one, &backends).unwrap().id, router.select_backend(&two, &backends).unwrap().id);
}

#[test]
fn validate_reports_each_error() {
    let ok = web_config();
    assert!(ok.validate().is_ok());

    let mut c = web_config();
    c.server.tcp_bind.port = 0;
    let e = c.validate().unwrap_err();
    assert!(matches!(e, ConfigError::TcpPortZero));
    assert_eq!(e.message(), "TCP bind port cannot be 0");

    let mut c = web_config();
    c.server.udp_bind.port = 0;
    assert_eq!(c.validate().unwrap_err().message(), "UDP bind port cannot be 0");

    let mut c = web_config();
    c.redis.url = String::new();
    assert_eq!(c.validate().unwrap_err().message(), "Redis URL cannot be empty");

    let mut c = web_config();
    c.rules[0].name = String::new();
    assert_eq!(c.validate().unwrap_err().message(), "Routing rule name cannot be empty");

    let mut c = web_config();
    c.rules[0].backends.clear();
    assert_eq!(c.validate().unwrap_err().message(), "Routing rule 'web' must have at least one backend");

    let mut c = web_config();
    c.rules[0].router = "nope".to_string();
    assert_eq!(
        c.validate().unwrap_err().message(),
        "Router 'nope' referenced in rule 'web' is not defined"
    );
}

#[test]
fn config_manager_updates_and_removes_rules() {
    let mut manager = ConfigManager::new("config.toml".to_string());
    assert_eq!(manager.file_path(), "config.toml");
    manager.update_router("rr".to_string(), router_config("round_robin"));
    manager.update_rule(rule("web", 80, "rr", vec![backend("b1", "10.0.0.1:80")]));
    manager.update_rule(rule("api", 81, "rr", vec![backend("a1", "10.0.0.2:80")]));
    manager.update_rule(rule("web", 82, "rr", vec![backend("b2", "10.0.0.3:80")]));
    let names: Vec<String> = manager.get().rules.iter().map(|r| r.name.clone()).collect();
    assert_eq!(names, vec!["web", "api"]);
    assert!(matches!(manager.get().rules[0].matcher, RuleMatcher::Port { port: 82 }));
    manager.remove_rule("web");
    assert_eq!(manager.get().rules.len(), 1);
    assert_eq!(manager.get().rules[0].name, "api");
    assert!(manager.get().validate().is_ok());
}

#[test]
fn default_config_values() {
    let c = Config::default();
    assert_eq!(c.server.tcp_bind, ep("0.0.0.0:8080"));
    assert_eq!(c.server.udp_bind, ep("0.0.0.0:8081"));
    assert_eq!(c.redis.url, "redis://localhost:6379");
    assert_eq!(c.health_check.retries, 3);
    assert_eq!(c.health_check.failure_threshold, 3);
    assert_eq!(c.health_check.success_threshold, 2);
    assert_eq!(c.metrics.path, "/metrics");
}

#[test]
fn name_map_keeps_insertion_order() {
    let mut m: NameMap<u32> = NameMap::new();
    m.insert("b".to_string(), 1);
    m.insert("a".to_string(), 2);
    m.insert("b".to_string(), 3);
    assert_eq!(m.len(), 2);
    assert_eq!(m.get("b"), Some(&3));
    assert_eq!(m.name_list(), vec!["b", "a"]);
    assert_eq!(m.remove("b"), Some(3));
    assert_eq!(m.name_list(), vec!["a"]);
    assert!(!m.contains("b"));
}

#[test]
fn pick_available_takes_the_drawn_available_backend() {
    let mut down = BackendInfo::new("down".to_string(), ep("10.0.0.9:80"));
    down.healthy = false;
    let backends = vec![
        BackendInfo::new("a".to_string(), ep("10.0.0.1:80")),
        down,
        BackendInfo::new("b".to_string(), ep("10.0.0.2:80")),
    ];
    assert_eq!(pick_available(&backends, 0).unwrap().id, "a");
    assert_eq!(pick_available(&backends, 1).unwrap().id, "b");
    assert!(pick_available(&backends, 2).is_none());
    assert!(pick_available(&[], 0).is_none());
}

#[test]
fn hash_router_without_session_id_hashes_the_client_ip() {
    let backends = vec![
        BackendInfo::new("a".to_string(), ep("10.0.0.1:80")),
        BackendInfo::new("b".to_string(), ep("10.0.0.2:80")),
        BackendInfo::new("c".to_string(), ep("10.0.0.3:80")),
    ];
    let mut by_session = dynamic_proxy::plugins::HashRouter::new();
    let mut options = NameMap::new();
    options.insert("hash_key".to_string(), OptionValue::Text("session_id".to_string()));
    by_session.initialize(&options);
    let mut by_ip = dynamic_proxy::plugins::HashRouter::new();
    for client in ["1.1.1.1:1", "2.2.2.2:2", "3.3.3.3:3", "4.4.4.4:4"] {
        let ctx = RoutingContext::new(ep(client), ep("127.0.0.1:443"), Protocol::Tcp);
        assert_eq!(by_session.select_backend(&ctx, &backends).unwrap().id, by_ip.select_backend(&ctx, &backends).unwrap().id);
    }
}

#[test]
fn context_matches_sni_patterns() {
    let plain = RoutingContext::new(ep("1.1.1.1:1"), ep("127.0.0.1:443"), Protocol::Tcp);
    assert!(!plain.matches_sni("api.example.com"));
    let ctx = plain.with_sni("api.example.com".to_string());
    assert!(ctx.matches_sni("api.example.com"));
    assert!(!ctx.matches_sni("www.example.com"));
    assert!(ctx.matches_sni("*.example.com"));
    assert!(ctx.matches_sni("api.*"));
    assert!(!ctx.matches_sni("*.example.org"));
}
