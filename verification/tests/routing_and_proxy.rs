use dynamic_proxy::manager::RouterManager;
use dynamic_proxy::name_map::NameMap;
use dynamic_proxy::net::{Endpoint, IpAddress};
use dynamic_proxy::proxy::{
    connection_request_metrics, route_connection, tcp_plan, udp_target, ConnectionInfo, PacketPlan, ProxyError, TcpPlan, TcpProxy, UdpProxy,
    UdpSession,
};
use dynamic_proxy::config::{Backend, Config, Protocol as RuleProtocol, RouterConfig, RoutingRule as ConfigRule, RuleMatcher, ServerConfig};
use dynamic_proxy::router::Protocol;
use dynamic_proxy::routing::plugin::{PluginManager, RoutingPlugin, SniRouterPlugin};
use dynamic_proxy::routing::redis_backend::{BackendInfo as StoredBackend, HealthProbe, RedisBackend};
use dynamic_proxy::routing::rules::{LoadBalanceMethod, RoutingAction, RoutingCondition, RoutingContext, RoutingRule};
use dynamic_proxy::settings::Settings;
use dynamic_proxy::sni::SniExtractor;
use dynamic_proxy::tls::MultiCertResolver;

fn ep(text: &str) -> Endpoint {
    Endpoint::parse(text).unwrap()
}

fn ctx(sni: Option<&str>, source: &str, port: u16) -> RoutingContext {
    RoutingContext {
        source_addr: ep(source),
        destination_addr: Endpoint { port, ..ep("127.0.0.1:0") },
        protocol: "tcp".to_string(),
        sni_hostname: sni.map(|s| s.to_string()),
        connection_id: "c1".to_string(),
    }
}

fn forward_rule(id: &str, priority: u32, conditions: Vec<RoutingCondition>, backend: &str) -> RoutingRule {
    RoutingRule {
        id: id.to_string(),
        name: id.to_string(),
        priority,
        conditions,
        actions: vec![RoutingAction::Forward { backend: backend.to_string() }],
        enabled: true,
    }
}

fn client_hello(host: &str) -> Vec<u8> {
    let name = host.as_bytes();
    let mut sni = vec![];
    let list_len = (name.len() + 3) as u16;
    sni.extend_from_slice(&list_len.to_be_bytes());
    sni.push(0);
    sni.extend_from_slice(&(name.len() as u16).to_be_bytes());
    sni.extend_from_slice(name);
    let mut ext = vec![0u8, 0u8];
    ext.extend_from_slice(&(sni.len() as u16).to_be_bytes());
    ext.extend_from_slice(&sni);
    let mut body = vec![0x03, 0x03];
    body.extend_from_slice(&[7u8; 32]);
    body.push(0);
    body.extend_from_slice(&[0x00, 0x02, 0x00, 0x2f]);
    body.extend_from_slice(&[0x01, 0x00]);
    body.extend_from_slice(&(ext.len() as u16).to_be_bytes());
    body.extend_from_slice(&ext);
    let mut handshake = vec![0x01, 0x00];
    handshake.extend_from_slice(&(body.len() as u16).to_be_bytes());
    handshake.extend_from_slice(&body);
    let mut record = vec![0x16, 0x03, 0x01];
    record.extend_from_slice(&(handshake.len() as u16).to_be_bytes());
    record.extend_from_slice(&handshake);
    record
}

#[test]
fn sni_extractor_reads_server_name() {
    let mut x = SniExtractor::new();
    assert!(x.get_hostname().is_none());
    assert_eq!(x.extract_from_client_hello(&client_hello("api.example.com")), Some("api.example.com".to_string()));
    assert_eq!(x.get_hostname(), Some(&"api.example.com".to_string()));
    assert_eq!(x.extract_from_client_hello(&client_hello("bad host!")), None);
    assert_eq!(x.get_hostname(), Some(&"api.example.com".to_string()));
    let mut short = client_hello("a.b");
    short.truncate(40);
    assert_eq!(x.extract_from_client_hello(&short), None);
    let mut not_tls = client_hello("a.b");
    not_tls[0] = 0x17;
    assert_eq!(x.extract_from_client_hello(&not_tls), None);
    assert_eq!(x.get_hostname(), Some(&"api.example.com".to_string()));
    assert_eq!(x.extract_from_client_hello(&client_hello("www.example.org")), Some("www.example.org".to_string()));
    assert_eq!(x.extract_from_client_hello(&not_tls), None);
    assert_eq!(x.get_hostname(), Some(&"www.example.org".to_string()));
}

#[test]
fn endpoint_parse_and_text() {
    let a = ep("10.1.2.3:443");
    assert_eq!(a, Endpoint { ip: IpAddress::V4(0x0a01_0203), port: 443 });
    assert_eq!(a.to_text(), "10.1.2.3:443");
    assert!(Endpoint::parse("not an address").is_none());
    let v6 = ep("[::1]:8080");
    assert_eq!(v6, Endpoint { ip: IpAddress::V6(1), port: 8080 });
}

#[test]
fn rule_conditions_and_decision() {
    let rule = RoutingRule {
        id: "r1".to_string(),
        name: "r1".to_string(),
        priority: 1,
        conditions: vec![
            RoutingCondition::SniSuffix { suffix: ".example.com".to_string() },
            RoutingCondition::DestinationPort { port: 443 },
            RoutingCondition::Protocol { protocol: "tcp".to_string() },
        ],
        actions: vec![RoutingAction::LoadBalance {
            backends: vec!["nowhere".to_string(), "10.0.0.9:80".to_string(), "10.0.0.8:80".to_string()],
            method: LoadBalanceMethod::RoundRobin,
        }],
        enabled: true,
    };
    let hit = ctx(Some("www.example.com"), "1.2.3.4:5", 443);
    assert!(rule.matches(&hit));
    let d = rule.apply(&hit).unwrap();
    assert_eq!(d.backend_addr, Some(ep("10.0.0.9:80")));
    assert!(!d.tls_terminate);
    assert_eq!(d.rule_id, "r1");
    assert!(rule.apply(&ctx(Some("www.example.org"), "1.2.3.4:5", 443)).is_none());
    assert!(rule.apply(&ctx(None, "1.2.3.4:5", 443)).is_none());
    assert!(rule.apply(&ctx(Some("www.example.com"), "1.2.3.4:5", 80)).is_none());
    let mut off = rule.clone();
    off.enabled = false;
    assert!(!off.matches(&hit));
}

#[test]
fn rule_source_ip_is_text_containment() {
    let rule = forward_rule("ip", 0, vec![RoutingCondition::SourceIp { cidr: "192.168.1.0/24".to_string() }], "10.0.0.1:1");
    assert!(rule.matches(&ctx(None, "192.168.1.0:999", 80)));
    assert!(!rule.matches(&ctx(None, "192.168.1.10:999", 80)));
}

#[test]
fn rule_tls_terminate_and_reject() {
    let mut rule = forward_rule("t", 0, vec![], "10.0.0.1:1");
    rule.actions = vec![RoutingAction::TlsTerminate { backend: "10.0.0.2:443".to_string() }];
    let d = rule.apply(&ctx(None, "1.1.1.1:1", 1)).unwrap();
    assert!(d.tls_terminate);
    assert_eq!(d.backend_addr, Some(ep("10.0.0.2:443")));
    rule.actions = vec![RoutingAction::Reject { reason: "no".to_string() }];
    assert_eq!(rule.apply(&ctx(None, "1.1.1.1:1", 1)).unwrap().backend_addr, None);
    rule.actions = vec![];
    assert!(rule.apply(&ctx(None, "1.1.1.1:1", 1)).is_none());
}

#[test]
fn sni_router_prefers_priority_then_order() {
    let mut plugin = SniRouterPlugin::new();
    assert_eq!(plugin.name(), "sni_router");
    let rules = vec![
        forward_rule("low", 1, vec![RoutingCondition::SniPrefix { prefix: "api".to_string() }], "10.0.0.1:80"),
        forward_rule("high-a", 5, vec![RoutingCondition::SniExact { hostname: "api.example.com".to_string() }], "10.0.0.2:80"),
        forward_rule("high-b", 5, vec![], "10.0.0.3:80"),
    ];
    plugin.initialize(Some(&rules));
    assert_eq!(plugin.rule_count(), 3);
    assert_eq!(plugin.route(&ctx(Some("api.example.com"), "1.1.1.1:1", 443)).unwrap().rule_id, "high-a");
    assert_eq!(plugin.route(&ctx(Some("www.example.com"), "1.1.1.1:1", 443)).unwrap().rule_id, "high-b");
    plugin.initialize(None);
    assert_eq!(plugin.rule_count(), 3);
    let empty: Vec<RoutingRule> = vec![];
    plugin.initialize(Some(&empty));
    assert!(plugin.route(&ctx(Some("api.example.com"), "1.1.1.1:1", 443)).is_none());
}

#[test]
fn plugin_manager_asks_plugins_in_order() {
    let mut manager: PluginManager<SniRouterPlugin> = PluginManager::new();
    let mut plugin = SniRouterPlugin::new();
    plugin.initialize(Some(&vec![forward_rule("only", 0, vec![RoutingCondition::DestinationPort { port: 53 }], "10.0.0.5:53")]));
    manager.register_plugin(plugin);
    assert_eq!(manager.route(&ctx(None, "1.1.1.1:1", 53)).unwrap().rule_id, "only");
    assert!(manager.route(&ctx(None, "1.1.1.1:1", 54)).is_none());
    let mut configs = NameMap::new();
    configs.insert("sni_router".to_string(), vec![forward_rule("new", 0, vec![], "10.0.0.6:1")]);
    manager.register_mutable_plugin(SniRouterPlugin::new());
    manager.initialize_plugins(&configs);
    assert_eq!(manager.route(&ctx(None, "1.1.1.1:1", 53)).unwrap().rule_id, "new");
    manager.shutdown();
}

#[test]
fn redis_backend_keys_cache_and_fallbacks() {
    let mut r = RedisBackend::new(1_700_000_000);
    assert_eq!(r.name(), "redis_backend");
    assert_eq!(r.redis_url(), "redis://127.0.0.1:6379");
    assert_eq!(r.cache_ttl(), 300);
    assert_eq!(RedisBackend::backend_key("api"), "proxy:backends:api");
    assert_eq!(RedisBackend::backend_name_of_key("proxy:backends:api"), Some("api".to_string()));
    assert_eq!(RedisBackend::backend_name_of_key("other:api"), None);

    let fallback = r.get_default_backend("anything").unwrap();
    assert_eq!(fallback.address, ep("127.0.0.1:8000"));
    assert_eq!(fallback.weight, 100);
    assert_eq!(fallback.last_check, 1_700_000_000);
    r.set_redis_available(true);
    assert!(r.get_default_backend("anything").is_none());
    r.set_redis_available(false);
    r.add_fallback_backend("api".to_string(), RedisBackend::simple_backend(ep("10.0.0.7:80"), 5));
    assert_eq!(r.get_default_backend("api").unwrap().address, ep("10.0.0.7:80"));
    r.remove_fallback_backend("default");
    assert!(r.get_default_backend("web").is_none());

    r.remember("api".to_string(), RedisBackend::simple_backend(ep("10.0.0.8:80"), 5), 1_000);
    assert!(r.cached_backend("api", 1_000).is_some());
    assert!(r.cached_backend("api", 300_999).is_some());
    assert!(r.cached_backend("api", 301_000).is_none());
    assert!(r.cached_backend("api", 999).is_none());
    r.forget("api");
    assert!(r.cached_backend("api", 1_000).is_none());

    r.apply_options(Some("redis://cache:6379".to_string()), Some(60), None, Some((1u64 << 32) + 5));
    assert_eq!(r.redis_url(), "redis://cache:6379");
    assert_eq!(r.cache_ttl(), 60);
    assert_eq!(r.connection_timeout(), 5);
    assert_eq!(r.max_retries(), 5);
}

#[test]
fn redis_backend_lookup_outcomes() {
    let mut r = RedisBackend::new(0);
    let found = r.lookup_finished("api", Ok(Some(RedisBackend::simple_backend(ep("10.0.0.1:1"), 3))), 50);
    assert_eq!(found.unwrap().address, ep("10.0.0.1:1"));
    assert!(r.cached_backend("api", 60).is_some());
    assert!(r.lookup_finished("web", Ok(None), 50).is_none());
    assert_eq!(r.lookup_finished("web", Err(()), 50).unwrap().address, ep("127.0.0.1:8000"));
}

#[test]
fn redis_backend_decisions() {
    let healthy = RedisBackend::simple_backend(ep("10.0.0.1:443"), 0);
    let d = RedisBackend::exact_decision("api.example.com", Some(&healthy)).unwrap();
    assert_eq!(d.rule_id, "redis_exact_api.example.com");
    assert_eq!(d.backend_addr, Some(ep("10.0.0.1:443")));
    let sick = RedisBackend::after_health_check(RedisBackend::simple_backend(ep("10.0.0.1:443"), 0), false, 9);
    assert!(!sick.healthy);
    assert_eq!(sick.last_check, 9);
    assert!(RedisBackend::exact_decision("api.example.com", Some(&sick)).is_none());
    assert_eq!(RedisBackend::default_decision(Some(&healthy)).unwrap().rule_id, "redis_default");

    let listed = vec![
        ("api.example.com".to_string(), RedisBackend::simple_backend(ep("10.0.0.1:1"), 0)),
        ("*.other.org".to_string(), RedisBackend::simple_backend(ep("10.0.0.2:1"), 0)),
        ("*.example.com".to_string(), sick),
        ("*.com".to_string(), RedisBackend::simple_backend(ep("10.0.0.4:1"), 0)),
    ];
    let w = RedisBackend::wildcard_route("www.example.com", &listed).unwrap();
    assert_eq!(w.rule_id, "redis_wildcard_www.example.com");
    assert_eq!(w.backend_addr, Some(ep("10.0.0.4:1")));
    assert!(RedisBackend::wildcard_route("www.example.net", &listed).is_none());
    let pairs = RedisBackend::names_and_addresses(&listed);
    assert_eq!(pairs[1], ("*.other.org".to_string(), ep("10.0.0.2:1")));
}

#[test]
fn redis_health_probe_from_metadata() {
    let mut meta = NameMap::new();
    meta.insert("health_check_type".to_string(), "https".to_string());
    meta.insert("health_check_path".to_string(), "/ready".to_string());
    let b = StoredBackend { address: ep("10.0.0.1:1"), weight: 1, healthy: true, last_check: 0, metadata: meta };
    assert_eq!(RedisBackend::health_probe(&b), HealthProbe::Https);
    assert_eq!(RedisBackend::health_check_path(&b), "/ready");
    let plain = RedisBackend::simple_backend(ep("10.0.0.1:1"), 0);
    assert_eq!(RedisBackend::health_probe(&plain), HealthProbe::Tcp);
    assert_eq!(RedisBackend::health_check_path(&plain), "/health");
}

#[test]
fn cert_resolver_exact_wildcard_default() {
    let mut r: MultiCertResolver<u32> = MultiCertResolver::new();
    assert_eq!(r.resolve(Some("x")), None);
    r.add_certificate("api.example.com".to_string(), 1);
    r.add_certificate("*.example.com".to_string(), 2);
    assert_eq!(r.resolve(Some("api.example.com")), Some(&1));
    assert_eq!(r.resolve(Some("www.example.com")), Some(&2));
    assert_eq!(r.resolve(Some("other.org")), Some(&1));
    assert_eq!(r.resolve(None), Some(&1));
    r.set_default_certificate(9);
    assert_eq!(r.resolve(Some("other.org")), Some(&9));
    r.add_certificate("api.example.com".to_string(), 3);
    assert_eq!(r.resolve(Some("api.example.com")), Some(&3));
}

#[test]
fn proxy_error_messages() {
    assert_eq!(ProxyError::NoBackendAvailable.message(), "No backend available");
    assert_eq!(ProxyError::BackendConnectionFailed("refused".to_string()).message(), "Backend connection failed: refused");
    assert_eq!(ProxyError::RoutingFailed("x".to_string()).message(), "Routing failed: x");
    assert_eq!(ProxyError::ConfigurationError("y".to_string()).message(), "Configuration error: y");
    assert_eq!(ProxyError::HealthCheckFailed("z".to_string()).message(), "Health check failed: z");
    assert_eq!(ProxyError::MetricsError("w".to_string()).message(), "Metrics error: w");
}

#[test]
fn connection_info_basics() {
    let mut c = ConnectionInfo::new(Protocol::Tcp, ep("1.1.1.1:1"), ep("2.2.2.2:2"), 100);
    assert_eq!(c.id.len(), 36);
    assert_eq!(c.id.as_bytes()[8], b'-');
    assert_eq!(c.id.as_bytes()[14], b'4');
    assert!(matches!(c.id.as_bytes()[19], b'8' | b'9' | b'a' | b'b'));
    assert!(c.id.chars().enumerate().all(|(i, ch)| if [8, 13, 18, 23].contains(&i) {
        ch == '-'
    } else {
        ch.is_ascii_digit() || ('a'..='f').contains(&ch)
    }));
    let other = ConnectionInfo::new(Protocol::Tcp, ep("1.1.1.1:1"), ep("2.2.2.2:2"), 100);
    assert_ne!(c.id, other.id);
    assert_eq!(c.duration(250), 150);
    assert_eq!(c.duration(50), 0);
    c.bytes_sent = 10;
    c.bytes_received = 32;
    assert_eq!(c.total_bytes(), 42);
    assert!(connection_request_metrics("tcp", &c, true, std::time::Duration::from_millis(3)).is_none());
    c.rule_name = Some("web".to_string());
    let m = connection_request_metrics("tcp", &c, false, std::time::Duration::from_millis(3)).unwrap();
    assert_eq!(m.backend, "unknown");
    assert_eq!(m.status, "error");
    c.backend_addr = Some(ep("10.0.0.1:80"));
    let m = connection_request_metrics("tcp", &c, true, std::time::Duration::from_millis(3)).unwrap();
    assert_eq!(m.backend, "10.0.0.1:80");
    assert_eq!(m.status, "success");
    assert_eq!(m.request_size, 10);
    assert_eq!(m.response_size, 32);
}

fn server_config() -> ServerConfig {
    ServerConfig {
        tcp_bind: ep("127.0.0.1:7000"),
        udp_bind: ep("127.0.0.1:7001"),
        worker_threads: None,
        max_connections: None,
        connection_timeout: None,
        buffer_size: None,
    }
}

fn udp_manager() -> RouterManager {
    let mut config = Config::default();
    config.routers.insert("rr".to_string(), RouterConfig { plugin: "round_robin".to_string(), config: NameMap::new() });
    config.rules.push(ConfigRule {
        name: "dns".to_string(),
        protocol: RuleProtocol::Udp,
        matcher: RuleMatcher::Port { port: 7001 },
        router: "rr".to_string(),
        backends: vec![Backend { id: "d1".to_string(), address: ep("10.0.0.53:53"), weight: None, enabled: true, metadata: None }],
        enabled: true,
    });
    let mut manager = RouterManager::new();
    manager.initialize(&config).unwrap();
    manager
}

#[test]
fn route_connection_errors() {
    let mut empty = RouterManager::new();
    assert!(matches!(
        route_connection(&mut empty, ep("1.1.1.1:1"), ep("127.0.0.1:7001"), Protocol::Udp),
        Err(ProxyError::NoBackendAvailable)
    ));
    let mut config = Config::default();
    config.rules.push(ConfigRule {
        name: "x".to_string(),
        protocol: RuleProtocol::Both,
        matcher: RuleMatcher::Port { port: 1 },
        router: "gone".to_string(),
        backends: vec![],
        enabled: true,
    });
    let mut broken = RouterManager::new();
    broken.initialize(&config).unwrap();
    match route_connection(&mut broken, ep("1.1.1.1:1"), ep("127.0.0.1:1"), Protocol::Tcp) {
        Err(ProxyError::RoutingFailed(m)) => assert_eq!(m, "Router 'gone' not found"),
        _ => panic!("routing should fail"),
    }
}

#[test]
fn udp_sessions_open_forward_and_expire() {
    let mut manager = udp_manager();
    let mut udp = UdpProxy::new(server_config());
    assert_eq!(udp.buffer_size(), 8192);
    assert!(udp.start());
    assert!(!udp.start());
    let client = ep("192.168.0.2:5353");
    let backend = match udp.plan_packet(&mut manager, client) {
        Ok(PacketPlan::Open(b)) => b,
        _ => panic!("a session should be opened"),
    };
    assert_eq!(backend.id, "d1");
    assert_eq!(udp.get_status().active_sessions, 0);
    udp.store_session(UdpSession::opened(client, backend.address, 40, 1_000));
    assert_eq!(udp.get_status().active_sessions, 1);
    match udp.plan_packet(&mut manager, client) {
        Ok(PacketPlan::Forward(a)) => assert_eq!(a, ep("10.0.0.53:53")),
        _ => panic!("the session should be used"),
    }
    // Planning leaves the session alone; only a sent packet touches it.
    assert_eq!(udp.get_session(client).unwrap().bytes_sent, 40);
    assert_eq!(udp.get_session(client).unwrap().last_activity, 1_000);
    udp.packet_sent(client, 60, 2_000);
    assert_eq!(udp.get_session(client).unwrap().bytes_sent, 100);
    assert_eq!(udp.get_session(client).unwrap().last_activity, 2_000);
    udp.packet_sent(ep("9.9.9.9:9"), 5, 3_000);
    assert_eq!(udp.get_status().active_sessions, 1);
    assert_eq!(udp.get_active_sessions_count(), 1);
    let stats = udp.get_session_stats();
    assert_eq!(stats.len(), 1);
    assert_eq!(stats[0].client_addr, client);
    assert_eq!(stats[0].bytes_sent, 100);
    assert_eq!(stats[0].last_activity, 2_000);
    let s = UdpSession::opened(client, backend.address, 100, 2_000).after_response(25, 2_500);
    assert_eq!(s.bytes_received, 25);
    assert_eq!(s.last_activity, 2_500);
    udp.store_session(s);
    assert_eq!(udp.get_status().active_sessions, 1);
    let other = ep("192.168.0.3:5353");
    udp.store_session(UdpSession::opened(other, backend.address, 1, 400_000));
    let dropped = udp.remove_expired(400_000, 300_000);
    assert_eq!(dropped, vec![client]);
    assert_eq!(udp.get_status().active_sessions, 1);
    udp.end_session(other);
    assert_eq!(udp.get_status().active_sessions, 0);
    udp.stop();
    assert!(!udp.get_status().running);
}

#[test]
fn tcp_connections_are_tracked() {
    let mut tcp = TcpProxy::new(server_config());
    assert!(tcp.start());
    let info = ConnectionInfo::new(Protocol::Tcp, ep("1.1.1.1:1"), tcp.bind_address(), 0);
    let id = info.id.clone();
    tcp.connection_opened(info);
    assert_eq!(tcp.get_status().active_connections, 1);
    assert!(tcp.keeps_waiting(0));
    assert!(!tcp.keeps_waiting(30));
    tcp.connection_closed(&id);
    assert_eq!(tcp.get_status().active_connections, 0);
    assert!(!tcp.keeps_waiting(0));
    tcp.stop();
    assert!(!tcp.is_running());
}

#[test]
fn settings_defaults() {
    let s = Settings::default();
    assert_eq!(s.server.tcp_bind, "0.0.0.0:8080");
    assert_eq!(s.redis.cache_ttl_secs, 300);
    let tls = s.tls.unwrap();
    let certs = tls.certificates.unwrap();
    assert_eq!(certs[1].hostname, "*.example.com");
    assert_eq!(s.plugins.enabled_plugins, vec!["sni_router", "redis_backend"]);
}

fn decision(action: RoutingAction, addr: Option<&str>) -> dynamic_proxy::routing::rules::RoutingDecision {
    dynamic_proxy::routing::rules::RoutingDecision {
        action,
        backend_addr: addr.map(ep),
        tls_terminate: false,
        rule_id: "r".to_string(),
    }
}

#[test]
fn tcp_plan_follows_the_decision() {
    let d = decision(RoutingAction::Forward { backend: "b1".to_string() }, Some("10.0.0.1:80"));
    assert!(matches!(tcp_plan(&d), TcpPlan::Forward { backend, address } if backend == "b1" && address == Some(ep("10.0.0.1:80"))));
    let d = decision(
        RoutingAction::LoadBalance { backends: vec!["x".to_string(), "y".to_string()], method: LoadBalanceMethod::RoundRobin },
        None,
    );
    assert!(matches!(tcp_plan(&d), TcpPlan::Forward { backend, address: None } if backend == "x"));
    let d = decision(RoutingAction::LoadBalance { backends: vec![], method: LoadBalanceMethod::Random }, None);
    assert!(matches!(tcp_plan(&d), TcpPlan::NoBackends));
    let d = decision(RoutingAction::Reject { reason: "blocked".to_string() }, None);
    assert!(matches!(tcp_plan(&d), TcpPlan::Reject { reason } if reason == "blocked"));
    let d = decision(RoutingAction::TlsTerminate { backend: "t".to_string() }, Some("10.0.0.2:443"));
    assert!(matches!(tcp_plan(&d), TcpPlan::TerminateTls { backend, address } if backend == "t" && address == Some(ep("10.0.0.2:443"))));
}

#[test]
fn udp_target_needs_an_address() {
    let d = decision(RoutingAction::Forward { backend: "b1".to_string() }, Some("10.0.0.1:53"));
    assert_eq!(udp_target(&d), Ok(Some(ep("10.0.0.1:53"))));
    let d = decision(RoutingAction::Forward { backend: "b1".to_string() }, None);
    assert_eq!(udp_target(&d), Err("Backend address not resolved".to_string()));
    let d = decision(RoutingAction::LoadBalance { backends: vec![], method: LoadBalanceMethod::Random }, None);
    assert_eq!(udp_target(&d), Err("No backend address for load balancing".to_string()));
    let d = decision(RoutingAction::Reject { reason: "no".to_string() }, Some("10.0.0.1:53"));
    assert_eq!(udp_target(&d), Ok(None));
}

#[test]
fn cert_resolver_remembers_last_server_name() {
    let mut r: MultiCertResolver<u32> = MultiCertResolver::new();
    assert_eq!(r.get_last_sni(), None);
    r.note_sni(Some("a.example.com"));
    assert_eq!(r.get_last_sni(), Some("a.example.com".to_string()));
    r.note_sni(None);
    assert_eq!(r.get_last_sni(), Some("a.example.com".to_string()));
    r.note_sni(Some("b.example.com"));
    assert_eq!(r.get_last_sni(), Some("b.example.com".to_string()));
}
