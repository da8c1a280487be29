use vstd::prelude::*;
use crate::name_map::NameMap;
use crate::text::text_owned;

verus! {

/// Where the proxy listens (addresses as texts) and how much it takes on.
pub struct ServerConfig {
    pub tcp_bind: String,
    pub udp_bind: String,
    pub buffer_size: usize,
    pub max_connections: usize,
}

/// How the Redis backend is reached and cached.
pub struct RedisConfig {
    pub url: String,
    pub pool_size: u32,
    pub timeout_ms: u64,
    pub cache_ttl_secs: u64,
    pub max_retries: u32,
    pub retry_delay_ms: u64,
}

/// One certificate for one server name.
pub struct CertificateConfig {
    pub hostname: String,
    pub cert_path: String,
    pub key_path: String,
}

/// TLS: the default certificate, and more certificates by server name.
pub struct TlsConfig {
    pub cert_path: String,
    pub key_path: String,
    pub ca_path: Option<String>,
    pub sni_routing: bool,
    pub certificates: Option<Vec<CertificateConfig>>,
}

/// Metrics and logging.
pub struct MonitoringConfig {
    pub metrics_bind: String,
    pub log_level: String,
    pub enable_metrics: bool,
}

/// The routing plugins to enable, and their options as JSON texts by plugin name.
pub struct PluginConfig {
    pub enabled_plugins: Vec<String>,
    pub plugin_config: NameMap<String>,
}

/// The settings of the plugin-based proxy.
pub struct Settings {
    pub server: ServerConfig,
    pub redis: RedisConfig,
    pub tls: Option<TlsConfig>,
    pub monitoring: MonitoringConfig,
    pub plugins: PluginConfig,
}

impl Default for Settings {
    fn default() -> (r: Self)
        ensures
            r.server.tcp_bind@ == "0.0.0.0:8080"@,
            r.server.udp_bind@ == "0.0.0.0:8081"@,
            r.server.buffer_size == 8192,
            r.server.max_connections == 1000,
            r.redis.url@ == "redis://127.0.0.1:6379"@,
            r.redis.pool_size == 10,
            r.redis.timeout_ms == 5000,
            r.redis.cache_ttl_secs == 300,
            r.redis.max_retries == 3,
            r.redis.retry_delay_ms == 1000,
            r.tls matches Some(t) && {
                &&& t.cert_path@ == "certs/server.crt"@
                &&& t.key_path@ == "certs/server.key"@
                &&& t.ca_path is None
                &&& t.sni_routing
                &&& t.certificates matches Some(c) && {
                    &&& c@.len() == 2
                    &&& c@[0].hostname@ == "api.example.com"@
                    &&& c@[0].cert_path@ == "certs/api.crt"@
                    &&& c@[0].key_path@ == "certs/api.key"@
                    &&& c@[1].hostname@ == "*.example.com"@
                    &&& c@[1].cert_path@ == "certs/wildcard.crt"@
                    &&& c@[1].key_path@ == "certs/wildcard.key"@
                }
            },
            r.monitoring.metrics_bind@ == "0.0.0.0:9090"@,
            r.monitoring.log_level@ == "info"@,
            r.monitoring.enable_metrics,
            r.plugins.enabled_plugins@.len() == 2,
            r.plugins.enabled_plugins@[0]@ == "sni_router"@,
            r.plugins.enabled_plugins@[1]@ == "redis_backend"@,
            r.plugins.plugin_config.wf(),
            r.plugins.plugin_config@ == Map::<Seq<char>, String>::empty(),
    {
        let mut certificates: Vec<CertificateConfig> = Vec::new();
        certificates.push(
            CertificateConfig {
                hostname: text_owned("api.example.com"),
                cert_path: text_owned("certs/api.crt"),
                key_path: text_owned("certs/api.key"),
            },
        );
        certificates.push(
            CertificateConfig {
                hostname: text_owned("*.example.com"),
                cert_path: text_owned("certs/wildcard.crt"),
                key_path: text_owned("certs/wildcard.key"),
            },
        );
        let mut enabled_plugins: Vec<String> = Vec::new();
        enabled_plugins.push(text_owned("sni_router"));
        enabled_plugins.push(text_owned("redis_backend"));
        Settings {
            server: ServerConfig {
                tcp_bind: text_owned("0.0.0.0:8080"),
                udp_bind: text_owned("0.0.0.0:8081"),
                buffer_size: 8192,
                max_connections: 1000,
            },
            redis: RedisConfig {
                url: text_owned("redis://127.0.0.1:6379"),
                pool_size: 10,
                timeout_ms: 5000,
                cache_ttl_secs: 300,
                max_retries: 3,
                retry_delay_ms: 1000,
            },
            tls: Some(
                TlsConfig {
                    cert_path: text_owned("certs/server.crt"),
                    key_path: text_owned("certs/server.key"),
                    ca_path: None,
                    sni_routing: true,
                    certificates: Some(certificates),
                },
            ),
            monitoring: MonitoringConfig {
                metrics_bind: text_owned("0.0.0.0:9090"),
                log_level: text_owned("info"),
                enable_metrics: true,
            },
            plugins: PluginConfig { enabled_plugins, plugin_config: NameMap::new() },
        }
    }
}

} // verus!
