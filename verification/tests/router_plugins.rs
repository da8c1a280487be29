use dynamic_proxy::config::ServerConfig;
use dynamic_proxy::name_map::NameMap;
use dynamic_proxy::net::Endpoint;
use dynamic_proxy::plugins::{HashRouter, LeastConnectionsRouter, RandomRouter, RoundRobinRouter, WeightedRouter};
use dynamic_proxy::proxy::{TcpProxy, UdpProxy};
use dynamic_proxy::router::{BackendInfo, OptionValue, Protocol, RoutingContext};
use std::collections::HashMap;

fn ep(text: &str) -> Endpoint {
    Endpoint::parse(text).unwrap()
}

fn three_backends() -> Vec<BackendInfo> {
    vec![
        BackendInfo::new("backend1".to_string(), ep("127.0.0.1:8001")),
        BackendInfo::new("backend2".to_string(), ep("127.0.0.1:8002")),
        BackendInfo::new("backend3".to_string(), ep("127.0.0.1:8003")),
    ]
}

fn local_context() -> RoutingContext {
    RoutingContext::new(ep("127.0.0.1:12345"), ep("127.0.0.1:8080"), Protocol::Tcp)
}

fn options(key: &str, value: &str) -> NameMap<OptionValue> {
    let mut m = NameMap::new();
    m.insert(key.to_string(), OptionValue::Text(value.to_string()));
    m
}

fn test_server_config() -> ServerConfig {
    ServerConfig {
        tcp_bind: ep("127.0.0.1:0"),
        udp_bind: ep("127.0.0.1:0"),
        worker_threads: None,
        max_connections: Some(1000),
        connection_timeout: Some(30),
        buffer_size: Some(8192),
    }
}

#[test]
fn test_tcp_proxy_creation() {
    let tcp_proxy = TcpProxy::new(test_server_config());
    let status = tcp_proxy.get_status();
    assert!(!status.running);
    assert_eq!(status.active_connections, 0);
}

#[test]
fn test_udp_proxy_creation() {
    let udp_proxy = UdpProxy::new(test_server_config());
    let status = udp_proxy.get_status();
    assert!(!status.running);
    assert_eq!(status.active_sessions, 0);
}

#[test]
fn test_hash_consistency() {
    let mut router = HashRouter::new();
    router.initialize(&options("hash_key", "client_ip"));
    let backends = three_backends();
    let context = RoutingContext::new(ep("192.168.1.100:12345"), ep("127.0.0.1:8080"), Protocol::Tcp);
    let selected1 = router.select_backend(&context, &backends).unwrap();
    let selected2 = router.select_backend(&context, &backends).unwrap();
    let selected3 = router.select_backend(&context, &backends).unwrap();
    assert_eq!(selected1.id, selected2.id);
    assert_eq!(selected2.id, selected3.id);
}

#[test]
fn test_different_clients_distribution() {
    let mut router = HashRouter::new();
    router.initialize(&options("hash_key", "client_ip"));
    let backends = three_backends();
    let mut selections: HashMap<String, u32> = HashMap::new();
    for i in 1..=100 {
        let client_addr = ep(&format!("192.168.1.{}:12345", i));
        let context = RoutingContext::new(client_addr, ep("127.0.0.1:8080"), Protocol::Tcp);
        if let Some(selected) = router.select_backend(&context, &backends) {
            *selections.entry(selected.id).or_insert(0) += 1;
        }
    }
    println!("Hash distribution: {:?}", selections);
    assert!(selections.len() > 1);
}

#[test]
fn test_sni_hash() {
    let mut router = HashRouter::new();
    router.initialize(&options("hash_key", "sni"));
    let backends = vec![
        BackendInfo::new("backend1".to_string(), ep("127.0.0.1:8001")),
        BackendInfo::new("backend2".to_string(), ep("127.0.0.1:8002")),
    ];
    let context1 = RoutingContext::new(ep("192.168.1.100:12345"), ep("127.0.0.1:8080"), Protocol::Tcp)
        .with_sni("example.com".to_string());
    let context2 = RoutingContext::new(ep("192.168.1.101:12346"), ep("127.0.0.1:8080"), Protocol::Tcp)
        .with_sni("example.com".to_string());
    let selected1 = router.select_backend(&context1, &backends).unwrap();
    let selected2 = router.select_backend(&context2, &backends).unwrap();
    assert_eq!(selected1.id, selected2.id);
}

#[test]
fn test_least_connections_selection() {
    let mut router = LeastConnectionsRouter::new();
    router.initialize(&NameMap::new());
    let mut backends = three_backends();
    backends[0].current_connections = 5;
    backends[1].current_connections = 2;
    backends[2].current_connections = 8;
    let selected = router.select_backend(&local_context(), &backends).unwrap();
    assert_eq!(selected.id, "backend2");
    assert_eq!(selected.current_connections, 2);
}

#[test]
fn test_equal_connections() {
    let mut router = LeastConnectionsRouter::new();
    router.initialize(&NameMap::new());
    let backends = three_backends();
    let selected = router.select_backend(&local_context(), &backends).unwrap();
    assert_eq!(selected.id, "backend1");
}

#[test]
fn least_connections_test_skip_unhealthy_backends() {
    let mut router = LeastConnectionsRouter::new();
    router.initialize(&NameMap::new());
    let mut backends = three_backends();
    backends[0].current_connections = 1;
    backends[0].healthy = false;
    backends[1].current_connections = 3;
    backends[2].current_connections = 5;
    let selected = router.select_backend(&local_context(), &backends).unwrap();
    assert_eq!(selected.id, "backend2");
    assert_eq!(selected.current_connections, 3);
}

#[test]
fn test_random_selection() {
    let mut router = RandomRouter::new();
    router.initialize(&NameMap::new());
    let backends = three_backends();
    let context = local_context();
    let mut selections: HashMap<String, u32> = HashMap::new();
    for _ in 0..1000 {
        if let Some(selected) = router.select_backend(&context, &backends) {
            *selections.entry(selected.id).or_insert(0) += 1;
        }
    }
    assert_eq!(selections.len(), 3);
    for (backend_id, count) in &selections {
        println!("Backend {}: {} selections", backend_id, count);
        assert!(
            *count > 200 && *count < 500,
            "Backend {} selection count {} is not within expected range",
            backend_id,
            count
        );
    }
}

#[test]
fn test_single_backend() {
    let mut router = RandomRouter::new();
    router.initialize(&NameMap::new());
    let backends = vec![BackendInfo::new("backend1".to_string(), ep("127.0.0.1:8001"))];
    let context = local_context();
    for _ in 0..10 {
        let selected = router.select_backend(&context, &backends).unwrap();
        assert_eq!(selected.id, "backend1");
    }
}

#[test]
fn random_test_skip_unhealthy_backends() {
    let mut router = RandomRouter::new();
    router.initialize(&NameMap::new());
    let mut backends = three_backends();
    backends[1].healthy = false;
    let context = local_context();
    let mut selections: HashMap<String, u32> = HashMap::new();
    for _ in 0..100 {
        if let Some(selected) = router.select_backend(&context, &backends) {
            *selections.entry(selected.id).or_insert(0) += 1;
        }
    }
    assert_eq!(selections.len(), 2);
    assert!(selections.contains_key("backend1"));
    assert!(selections.contains_key("backend3"));
    assert!(!selections.contains_key("backend2"));
}

#[test]
fn random_test_empty_backends() {
    let mut router = RandomRouter::new();
    router.initialize(&NameMap::new());
    let backends: Vec<BackendInfo> = vec![];
    let selected = router.select_backend(&local_context(), &backends);
    assert!(selected.is_none());
}

#[test]
fn test_round_robin_selection() {
    let mut router = RoundRobinRouter::new();
    router.initialize(&NameMap::new());
    let backends = three_backends();
    let context = local_context();
    let selected1 = router.select_backend(&context, &backends).unwrap();
    let selected2 = router.select_backend(&context, &backends).unwrap();
    let selected3 = router.select_backend(&context, &backends).unwrap();
    let selected4 = router.select_backend(&context, &backends).unwrap();
    assert_eq!(selected1.id, "backend1");
    assert_eq!(selected2.id, "backend2");
    assert_eq!(selected3.id, "backend3");
    assert_eq!(selected4.id, "backend1");
}

#[test]
fn round_robin_test_skip_unhealthy_backends() {
    let mut router = RoundRobinRouter::new();
    router.initialize(&NameMap::new());
    let mut backends = three_backends();
    backends[1].healthy = false;
    let context = local_context();
    let selected1 = router.select_backend(&context, &backends).unwrap();
    let selected2 = router.select_backend(&context, &backends).unwrap();
    let selected3 = router.select_backend(&context, &backends).unwrap();
    assert_eq!(selected1.id, "backend1");
    assert_eq!(selected2.id, "backend3");
    assert_eq!(selected3.id, "backend1");
}

#[test]
fn round_robin_test_empty_backends() {
    let mut router = RoundRobinRouter::new();
    router.initialize(&NameMap::new());
    let backends: Vec<BackendInfo> = vec![];
    let selected = router.select_backend(&local_context(), &backends);
    assert!(selected.is_none());
}

#[test]
fn test_weighted_selection() {
    let mut router = WeightedRouter::new();
    router.initialize(&NameMap::new());
    let backends = vec![
        BackendInfo::new("backend1".to_string(), ep("127.0.0.1:8001")).with_weight(1),
        BackendInfo::new("backend2".to_string(), ep("127.0.0.1:8002")).with_weight(2),
        BackendInfo::new("backend3".to_string(), ep("127.0.0.1:8003")).with_weight(3),
    ];
    let context = local_context();
    let mut selections: HashMap<String, u32> = HashMap::new();
    for _ in 0..1000 {
        if let Some(selected) = router.select_backend(&context, &backends) {
            *selections.entry(selected.id).or_insert(0) += 1;
        }
    }
    let backend1_count = selections.get("backend1").unwrap_or(&0);
    let backend2_count = selections.get("backend2").unwrap_or(&0);
    let backend3_count = selections.get("backend3").unwrap_or(&0);
    assert!(*backend3_count > *backend2_count);
    assert!(*backend2_count > *backend1_count);
}

#[test]
fn test_zero_weight_backends() {
    let mut router = WeightedRouter::new();
    router.initialize(&NameMap::new());
    let backends = vec![
        BackendInfo::new("backend1".to_string(), ep("127.0.0.1:8001")).with_weight(0),
        BackendInfo::new("backend2".to_string(), ep("127.0.0.1:8002")).with_weight(0),
    ];
    let selected = router.select_backend(&local_context(), &backends);
    println!("Selected with zero weights: {:?}", selected.map(|b| b.id));
}
