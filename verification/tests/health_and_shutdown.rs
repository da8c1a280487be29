use dynamic_proxy::config::{Backend, Config, HealthCheckConfig, Protocol as RuleProtocol, RouterConfig, RoutingRule, RuleMatcher};
use dynamic_proxy::health::{next_probe, HealthChecker, ProbeStep};
use dynamic_proxy::manager::RouterManager;
use dynamic_proxy::name_map::NameMap;
use dynamic_proxy::net::Endpoint;
use dynamic_proxy::reload::{apply_reload, HotReloadConfig, ReloadError};
use dynamic_proxy::router::{Protocol, RoutingContext};
use dynamic_proxy::shutdown::{GracefulShutdown, ShutdownPlan, ShutdownSignal, ShutdownState};

fn ep(text: &str) -> Endpoint {
    Endpoint::parse(text).unwrap()
}

fn backend(id: &str, addr: &str) -> Backend {
    Backend { id: id.to_string(), address: ep(addr), weight: None, enabled: true, metadata: None }
}

fn web_config() -> Config {
    let mut config = Config::default();
    config.routers.insert("rr".to_string(), RouterConfig { plugin: "round_robin".to_string(), config: NameMap::new() });
    config.rules.push(RoutingRule {
        name: "web".to_string(),
        protocol: RuleProtocol::Both,
        matcher: RuleMatcher::PortRange { start: 8000, end: 8100 },
        router: "rr".to_string(),
        backends: vec![backend("b1", "10.0.0.1:80"), backend("b2", "10.0.0.2:80")],
        enabled: true,
    });
    config
}

fn ctx() -> RoutingContext {
    RoutingContext::new(ep("192.168.1.10:40000"), ep("127.0.0.1:8080"), Protocol::Tcp)
}

fn check_round(checker: &mut HealthChecker, manager: &mut RouterManager, outcome: Option<u64>, now: u64) {
    for (key, state) in checker.states_to_check() {
        checker.record_check(manager, key, state, outcome, now);
    }
}

#[test]
fn checker_marks_unhealthy_after_threshold_and_tells_manager() {
    let config = web_config();
    let mut manager = RouterManager::new();
    manager.initialize(&config).unwrap();
    let mut checker = HealthChecker::new(HealthCheckConfig::default());
    checker.add_backend("web".to_string(), &config.rules[0].backends[0]);
    assert_eq!(checker.get_backend_health("web", "b1"), Some(true));
    assert_eq!(checker.get_backend_health("web", "b2"), None);

    check_round(&mut checker, &mut manager, None, 1000);
    check_round(&mut checker, &mut manager, None, 2000);
    assert_eq!(checker.get_backend_health("web", "b1"), Some(true));
    check_round(&mut checker, &mut manager, None, 3000);
    assert_eq!(checker.get_backend_health("web", "b1"), Some(false));
    for _ in 0..3 {
        assert_eq!(manager.route(&ctx()).unwrap().unwrap().id, "b2");
    }

    check_round(&mut checker, &mut manager, Some(12), 4000);
    assert_eq!(checker.get_backend_health("web", "b1"), Some(false));
    check_round(&mut checker, &mut manager, Some(18), 5000);
    assert_eq!(checker.get_backend_health("web", "b1"), Some(true));

    let stats = checker.get_stats();
    assert_eq!(stats.total_backends, 1);
    assert_eq!(stats.healthy_backends, 1);
    assert_eq!(stats.unhealthy_backends, 0);
    assert_eq!(stats.avg_response_time, 18);
    assert_eq!(stats.last_check, Some(5000));
}

#[test]
fn checker_stats_average_and_latest() {
    let config = web_config();
    let mut manager = RouterManager::new();
    manager.initialize(&config).unwrap();
    let mut checker = HealthChecker::new(HealthCheckConfig::default());
    checker.add_backend("web".to_string(), &config.rules[0].backends[0]);
    checker.add_backend("web".to_string(), &config.rules[0].backends[1]);
    let states = checker.states_to_check();
    assert_eq!(states[0].0, "web:b1");
    assert_eq!(states[1].0, "web:b2");
    checker.record_check(&mut manager, states[0].0.clone(), states[0].1.clone(), Some(10), 700);
    checker.record_check(&mut manager, states[1].0.clone(), states[1].1.clone(), Some(15), 500);
    let stats = checker.get_stats();
    assert_eq!(stats.avg_response_time, 12);
    assert_eq!(stats.last_check, Some(700));
    let all = checker.get_all_health_states();
    assert_eq!(all.get("web:b1"), Some(&true));
    checker.remove_backend("web", "b1");
    assert_eq!(checker.get_stats().total_backends, 1);
    assert_eq!(checker.get_stats().avg_response_time, 15);
}

#[test]
fn checker_start_and_stop() {
    let mut checker = HealthChecker::new(HealthCheckConfig::default());
    assert!(checker.start());
    assert!(!checker.start());
    assert!(checker.is_running());
    checker.stop();
    assert!(!checker.is_running());
    let mut disabled = HealthCheckConfig::default();
    disabled.enabled = false;
    let mut off = HealthChecker::new(disabled);
    assert!(!off.start());
    assert!(!off.is_running());
}

#[test]
fn shutdown_goes_through_its_states() {
    let mut s = GracefulShutdown::new();
    assert_eq!(s.get_state(), ShutdownState::Running);
    assert!(!s.is_shutting_down());
    assert_eq!(s.drain_timeout(), 10_000);
    assert_eq!(s.shutdown_timeout(), 30_000);
    assert!(s.trigger_shutdown(ShutdownSignal::Terminate));
    assert_eq!(s.get_state(), ShutdownState::ShuttingDown);
    assert!(!s.trigger_shutdown(ShutdownSignal::Interrupt));
    assert!(s.is_shutting_down());
    assert_eq!(s.plan(ShutdownSignal::Terminate), ShutdownPlan::Graceful);
    assert_eq!(s.plan(ShutdownSignal::Hangup), ShutdownPlan::Graceful);
    assert_eq!(s.plan(ShutdownSignal::Quit), ShutdownPlan::Force);
    s.begin_drain();
    assert_eq!(s.get_state(), ShutdownState::Draining);
    assert!(s.drain_finished(false));
    s.begin_force();
    assert_eq!(s.get_state(), ShutdownState::ForceShutdown);
    s.complete();
    assert_eq!(s.get_state(), ShutdownState::Shutdown);
}

#[test]
fn shutdown_without_forcing_ends_after_drain() {
    let mut s = GracefulShutdown::new().with_force_shutdown(false).with_drain_timeout(5).with_shutdown_timeout(7);
    assert_eq!(s.drain_timeout(), 5);
    assert_eq!(s.shutdown_timeout(), 7);
    s.begin_drain();
    assert!(!s.drain_finished(false));
    assert_eq!(s.get_state(), ShutdownState::Shutdown);
}

#[test]
fn shutdown_counts_connections_without_going_negative() {
    let mut s = GracefulShutdown::default();
    s.add_connection();
    s.add_connection();
    s.remove_connection();
    assert_eq!(s.get_active_connections(), 1);
    s.remove_connection();
    s.remove_connection();
    assert_eq!(s.get_active_connections(), 0);
}

#[test]
fn signal_names() {
    assert_eq!(ShutdownSignal::Interrupt.name(), "SIGINT");
    assert_eq!(ShutdownSignal::Terminate.name(), "SIGTERM");
    assert_eq!(ShutdownSignal::Quit.name(), "SIGQUIT");
    assert_eq!(ShutdownSignal::Hangup.name(), "SIGHUP");
    assert_eq!(ShutdownSignal::Internal.name(), "INTERNAL");
}

#[test]
fn reload_rejects_invalid_configuration() {
    let mut manager = RouterManager::new();
    manager.initialize(&web_config()).unwrap();
    let mut checker = HealthChecker::new(HealthCheckConfig::default());
    checker.start();
    let mut bad = web_config();
    bad.server.tcp_bind.port = 0;
    let (r, second) = apply_reload(&bad, &mut manager, &mut checker);
    match r {
        Err(e) => {
            assert!(matches!(e, ReloadError::Invalid(_)));
            assert_eq!(e.message(), "New configuration validation failed");
        },
        Ok(()) => panic!("an invalid configuration must be rejected"),
    }
    assert!(second.is_none());
    assert!(checker.is_running());
}

#[test]
fn reload_applies_valid_configuration() {
    let mut manager = RouterManager::new();
    manager.initialize(&web_config()).unwrap();
    let mut checker = HealthChecker::new(HealthCheckConfig::default());
    checker.start();
    let mut next = web_config();
    next.rules[0].backends.remove(0);
    let (r, second) = apply_reload(&next, &mut manager, &mut checker);
    assert!(r.is_ok());
    assert!(second.is_none());
    assert!(!checker.is_running());
    assert_eq!(manager.route(&ctx()).unwrap().unwrap().id, "b2");
}

#[test]
fn hot_reload_defaults() {
    let c = HotReloadConfig::default();
    assert!(c.enabled);
    assert!(c.watch_config_file);
    assert_eq!(c.reload_interval, None);
}

#[test]
fn probes_until_success_or_retries_run_out() {
    assert_eq!(next_probe(0, 3, None), ProbeStep::ProbeAgain);
    assert_eq!(next_probe(1, 3, Some(12)), ProbeStep::Record(Some(12)));
    assert_eq!(next_probe(2, 3, None), ProbeStep::ProbeAgain);
    assert_eq!(next_probe(3, 3, None), ProbeStep::Record(None));
    assert_eq!(next_probe(0, 0, None), ProbeStep::Record(None));
}
