# dynamic_proxy

A TCP/UDP proxy with plugin-based routing, health checks and graceful
shutdown. The routing, health and shutdown logic is a library verified with
Verus; the program around it (sockets, timers, signals, files, Prometheus,
Redis, TLS) is ordinary Rust.

## Layout

- `src/` — the verified library.
  - `name_map.rs`: an insertion-ordered map keyed by text, viewed as a `Map`.
  - `text.rs`, `net.rs`: text helpers and socket addresses as plain values.
  - `router.rs`, `plugins.rs`: backends, routing contexts and the five
    routers (round robin, weighted, hash, least connections, random).
  - `config.rs`, `manager.rs`: the configuration, its validation, and the
    router manager that matches rules and routes connections.
  - `health.rs`: backend health states and their thresholds.
  - `proxy.rs`: connection bookkeeping of the TCP side and UDP sessions.
  - `sni.rs`, `tls.rs`: reading the server name of a TLS ClientHello and
    choosing a certificate for it.
  - `routing/`: rule-based routing, routing plugins and the Redis backend's
    cache and fallbacks.
  - `shutdown.rs`, `reload.rs`, `settings.rs`, `metrics.rs`.
- `tests/` — tests of the library.

The routers form a closed set (`PluginKind`): a new routing algorithm is
added as a variant with its verified selection, and registered under a name
with `RouterManager::register_router`.
- `app/` — the `dynamic-proxy` program.
