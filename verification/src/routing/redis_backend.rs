use vstd::prelude::*;
use crate::name_map::NameMap;
use crate::net::{Endpoint, IpAddress};
use crate::routing::rules::{ActionView, DecisionView, RoutingAction, RoutingDecision};
use crate::text::{covers_by_wildcard, is_prefix, join3, text_owned, text_strip_prefix, wildcard_covers};

verus! {

/// A backend as Redis records it.
pub struct BackendInfo {
    pub address: Endpoint,
    pub weight: u32,
    pub healthy: bool,
    /// Seconds since the Unix epoch.
    pub last_check: u64,
    pub metadata: NameMap<String>,
}

impl Clone for BackendInfo {
    fn clone(&self) -> (r: Self)
        ensures
            r.address == self.address,
            r.weight == self.weight,
            r.healthy == self.healthy,
            r.last_check == self.last_check,
            r.metadata@ == self.metadata@,
            r.metadata.pairs() == self.metadata.pairs(),
    {
        BackendInfo {
            address: self.address,
            weight: self.weight,
            healthy: self.healthy,
            last_check: self.last_check,
            metadata: self.metadata.clone_texts(),
        }
    }
}

/// Two stored backends agree in every field (their metadata by content).
pub open spec fn same_backend(a: BackendInfo, b: BackendInfo) -> bool {
    &&& a.address == b.address
    &&& a.weight == b.weight
    &&& a.healthy == b.healthy
    &&& a.last_check == b.last_check
    &&& a.metadata@ == b.metadata@
}

/// A backend kept in the local cache, with the time it was stored
/// (milliseconds since the Unix epoch).
pub struct CachedBackend {
    pub info: BackendInfo,
    pub cached_at: u64,
}

/// How a backend's health is probed.
#[derive(Clone, Copy, Debug, PartialEq, Eq, Structural)]
pub enum HealthProbe {
    Tcp,
    Http,
    Https,
}

/// The Redis key under which a backend is stored.
pub open spec fn backend_key_of(name: Seq<char>) -> Seq<char> {
    "proxy:backends:"@ + name
}

/// Whether an entry stored at `cached_at` is still fresh at `now` (both in
/// milliseconds) with a lifetime of `ttl` seconds: a time before the entry
/// counts as endlessly late.
pub open spec fn is_fresh(cached_at: u64, now: u64, ttl: u64) -> bool {
    cached_at <= now && (now - cached_at) < ttl * 1000
}

/// A decision to forward to `backend` at `address` under the rule id `rule_id`.
pub open spec fn forward_decision(backend: Seq<char>, address: Endpoint, rule_id: Seq<char>) -> DecisionView {
    DecisionView {
        action: ActionView::Forward { backend },
        backend_addr: Some(address),
        tls_terminate: false,
        rule_id,
    }
}

/// `i` is the first healthy stored backend whose wildcard name covers `sni`.
pub open spec fn first_wildcard_at(backends: Seq<(Seq<char>, bool)>, sni: Seq<char>, i: int) -> bool {
    &&& 0 <= i < backends.len()
    &&& wildcard_covers(backends[i].0, sni) && backends[i].1
    &&& forall|j: int| 0 <= j < i ==> !(wildcard_covers(#[trigger] backends[j].0, sni) && backends[j].1)
}

/// The names and health of listed backends.
pub open spec fn listing(backends: Seq<(String, BackendInfo)>) -> Seq<(Seq<char>, bool)> {
    backends.map_values(|e: (String, BackendInfo)| (e.0@, e.1.healthy))
}

/// The forward decision for a text naming a backend, at its address.
fn forward(backend: &str, address: Endpoint, rule_id: String) -> (r: RoutingDecision)
    ensures
        r@ == forward_decision(backend@, address, rule_id@),
{
    RoutingDecision {
        action: RoutingAction::Forward { backend: text_owned(backend) },
        backend_addr: Some(address),
        tls_terminate: false,
        rule_id,
    }
}

/// Routes by backends stored in Redis under server names, with a local cache
/// and fallback backends for when Redis cannot be reached.  The Redis
/// commands themselves are issued by the caller; this keeps the decisions.
pub struct RedisBackend {
    name: String,
    redis_url: String,
    cache: NameMap<CachedBackend>,
    /// Seconds.
    cache_ttl: u64,
    /// Seconds.
    connection_timeout: u64,
    max_retries: u32,
    fallback_backends: NameMap<BackendInfo>,
    redis_available: bool,
}

impl RedisBackend {
    pub closed spec fn wf(self) -> bool {
        self.cache.wf() && self.fallback_backends.wf()
    }

    pub closed spec fn spec_name(self) -> Seq<char> {
        self.name@
    }

    pub closed spec fn spec_redis_url(self) -> Seq<char> {
        self.redis_url@
    }

    pub closed spec fn spec_cache(self) -> Map<Seq<char>, CachedBackend> {
        self.cache@
    }

    pub closed spec fn spec_cache_ttl(self) -> u64 {
        self.cache_ttl
    }

    pub closed spec fn spec_connection_timeout(self) -> u64 {
        self.connection_timeout
    }

    pub closed spec fn spec_max_retries(self) -> u32 {
        self.max_retries
    }

    pub closed spec fn spec_fallbacks(self) -> Map<Seq<char>, BackendInfo> {
        self.fallback_backends@
    }

    pub closed spec fn spec_redis_available(self) -> bool {
        self.redis_available
    }

    /// Which fallback stands in for `name` while Redis cannot be reached: the
    /// one stored under that name, else the one under "default"; none while
    /// Redis is reachable.
    pub open spec fn fallback_choice(self, name: Seq<char>) -> Option<Seq<char>> {
        let f = self.spec_fallbacks();
        if self.spec_redis_available() {
            None
        } else if f.contains_key(name) {
            Some(name)
        } else if f.contains_key("default"@) {
            Some("default"@)
        } else {
            None
        }
    }

    /// A backend named "redis_backend" for Redis at redis://127.0.0.1:6379,
    /// with an empty cache kept 300 s, a 5 s connection timeout, 3 retries,
    /// Redis not yet reached, and one fallback backend, "default", at
    /// 127.0.0.1:8000 of weight 100, healthy, checked at `now` (seconds since
    /// the Unix epoch).
    pub fn new(now: u64) -> (r: Self)
        ensures
            r.wf(),
            r.spec_name() == "redis_backend"@,
            r.spec_redis_url() == "redis://127.0.0.1:6379"@,
            r.spec_cache() == Map::<Seq<char>, CachedBackend>::empty(),
            r.spec_cache_ttl() == 300,
            r.spec_connection_timeout() == 5,
            r.spec_max_retries() == 3,
            !r.spec_redis_available(),
            r.spec_fallbacks().dom() == set!["default"@],
            r.spec_fallbacks()["default"@].address == (Endpoint { ip: IpAddress::V4(0x7f00_0001), port: 8000 }),
            r.spec_fallbacks()["default"@].weight == 100,
            r.spec_fallbacks()["default"@].healthy,
            r.spec_fallbacks()["default"@].last_check == now,
            r.spec_fallbacks()["default"@].metadata@ == Map::<Seq<char>, String>::empty(),
    {
        let mut fallback_backends: NameMap<BackendInfo> = NameMap::new();
        fallback_backends.insert(
            text_owned("default"),
            BackendInfo {
                address: Endpoint { ip: IpAddress::V4(0x7f00_0001), port: 8000 },
                weight: 100,
                healthy: true,
                last_check: now,
                metadata: NameMap::new(),
            },
        );
        let r = RedisBackend {
            name: text_owned("redis_backend"),
            redis_url: text_owned("redis://127.0.0.1:6379"),
            cache: NameMap::new(),
            cache_ttl: 300,
            connection_timeout: 5,
            max_retries: 3,
            fallback_backends,
            redis_available: false,
        };
        assert(r.spec_fallbacks().dom() =~= set!["default"@]);
        r
    }

    pub fn name(&self) -> (r: &str)
        ensures
            r@ == self.spec_name(),
    {
        self.name.as_str()
    }

    pub fn redis_url(&self) -> (r: &str)
        ensures
            r@ == self.spec_redis_url(),
    {
        self.redis_url.as_str()
    }

    pub fn cache_ttl(&self) -> (r: u64)
        ensures
            r == self.spec_cache_ttl(),
    {
        self.cache_ttl
    }

    pub fn connection_timeout(&self) -> (r: u64)
        ensures
            r == self.spec_connection_timeout(),
    {
        self.connection_timeout
    }

    pub fn max_retries(&self) -> (r: u32)
        ensures
            r == self.spec_max_retries(),
    {
        self.max_retries
    }

    pub fn is_redis_available(&self) -> (r: bool)
        ensures
            r == self.spec_redis_available(),
    {
        self.redis_available
    }

    /// Records whether Redis answered.
    pub fn set_redis_available(&mut self, available: bool)
        ensures
            final(self).spec_redis_available() == available,
            final(self).wf() == old(self).wf(),
            final(self).spec_cache() == old(self).spec_cache(),
            final(self).spec_fallbacks() == old(self).spec_fallbacks(),
            final(self).spec_redis_url() == old(self).spec_redis_url(),
            final(self).spec_cache_ttl() == old(self).spec_cache_ttl(),
    {
        self.redis_available = available;
    }

    /// Takes the options that were given: the Redis URL, the cache lifetime
    /// and the connection timeout in seconds, and the number of retries (its
    /// low 32 bits).
    pub fn apply_options(
        &mut self,
        redis_url: Option<String>,
        cache_ttl: Option<u64>,
        connection_timeout: Option<u64>,
        max_retries: Option<u64>,
    )
        ensures
            final(self).wf() == old(self).wf(),
            final(self).spec_redis_url() == match redis_url {
                Some(u) => u@,
                None => old(self).spec_redis_url(),
            },
            final(self).spec_cache_ttl() == match cache_ttl {
                Some(t) => t,
                None => old(self).spec_cache_ttl(),
            },
            final(self).spec_connection_timeout() == match connection_timeout {
                Some(t) => t,
                None => old(self).spec_connection_timeout(),
            },
            final(self).spec_max_retries() == match max_retries {
                Some(n) => n as u32,
                None => old(self).spec_max_retries(),
            },
            final(self).spec_cache() == old(self).spec_cache(),
            final(self).spec_fallbacks() == old(self).spec_fallbacks(),
            final(self).spec_redis_available() == old(self).spec_redis_available(),
    {
        match redis_url {
            Some(u) => {
                self.redis_url = u;
            },
            None => {},
        }
        match cache_ttl {
            Some(t) => {
                self.cache_ttl = t;
            },
            None => {},
        }
        match connection_timeout {
            Some(t) => {
                self.connection_timeout = t;
            },
            None => {},
        }
        match max_retries {
            Some(n) => {
                self.max_retries = n as u32;
            },
            None => {},
        }
    }

    /// The Redis key of a backend.
    pub fn backend_key(name: &str) -> (r: String)
        ensures
            r@ == backend_key_of(name@),
    {
        let r = join3("proxy:backends", ":", name);
        proof {
            reveal_strlit("proxy:backends");
            reveal_strlit(":");
            reveal_strlit("proxy:backends:");
            assert(r@ =~= backend_key_of(name@));
        }
        r
    }

    /// The backend name a Redis key stands for, when it is a backend key.
    pub fn backend_name_of_key(key: &str) -> (r: Option<String>)
        ensures
            r is Some <==> is_prefix("proxy:backends:"@, key@),
            r matches Some(n) ==> backend_key_of(n@) == key@,
    {
        match text_strip_prefix(key, "proxy:backends:") {
            Some(rest) => {
                proof {
                    let p = "proxy:backends:"@;
                    assert(p + key@.subrange(p.len() as int, key@.len() as int) =~= key@);
                }
                Some(text_owned(rest))
            },
            None => None,
        }
    }

    /// The cached backend stored under `name`, if it is still fresh at `now`
    /// (milliseconds since the Unix epoch).
    pub fn cached_backend(&self, name: &str, now: u64) -> (r: Option<BackendInfo>)
        requires
            self.wf(),
        ensures
            r is Some <==> (self.spec_cache().contains_key(name@) && is_fresh(
                self.spec_cache()[name@].cached_at,
                now,
                self.spec_cache_ttl(),
            )),
            r matches Some(b) ==> same_backend(b, self.spec_cache()[name@].info),
    {
        match self.cache.get(name) {
            Some(c) => {
                if c.cached_at <= now && ((now - c.cached_at) as u128) < (self.cache_ttl as u128) * 1000 {
                    Some(c.info.clone())
                } else {
                    None
                }
            },
            None => None,
        }
    }

    /// Stores a backend in the cache at `now` (milliseconds since the Unix epoch).
    pub fn remember(&mut self, name: String, info: BackendInfo, now: u64)
        requires
            old(self).wf(),
        ensures
            final(self).wf(),
            final(self).spec_cache() == old(self).spec_cache().insert(name@, CachedBackend { info, cached_at: now }),
            final(self).spec_fallbacks() == old(self).spec_fallbacks(),
            final(self).spec_redis_available() == old(self).spec_redis_available(),
            final(self).spec_cache_ttl() == old(self).spec_cache_ttl(),
    {
        self.cache.insert(name, CachedBackend { info, cached_at: now });
    }

    /// Drops a backend from the cache.
    pub fn forget(&mut self, name: &str)
        requires
            old(self).wf(),
        ensures
            final(self).wf(),
            final(self).spec_cache() == old(self).spec_cache().remove(name@),
            final(self).spec_fallbacks() == old(self).spec_fallbacks(),
            final(self).spec_redis_available() == old(self).spec_redis_available(),
    {
        let _ = self.cache.remove(name);
    }

    /// Empties the cache.
    pub fn clear_cache(&mut self)
        requires
            old(self).wf(),
        ensures
            final(self).wf(),
            final(self).spec_cache() == Map::<Seq<char>, CachedBackend>::empty(),
            final(self).spec_fallbacks() == old(self).spec_fallbacks(),
            final(self).spec_redis_available() == old(self).spec_redis_available(),
    {
        self.cache.clear();
    }

    /// Adds or replaces a fallback backend.
    pub fn add_fallback_backend(&mut self, name: String, backend_info: BackendInfo)
        requires
            old(self).wf(),
        ensures
            final(self).wf(),
            final(self).spec_fallbacks() == old(self).spec_fallbacks().insert(name@, backend_info),
            final(self).spec_cache() == old(self).spec_cache(),
            final(self).spec_redis_available() == old(self).spec_redis_available(),
    {
        self.fallback_backends.insert(name, backend_info);
    }

    /// Removes a fallback backend.
    pub fn remove_fallback_backend(&mut self, name: &str)
        requires
            old(self).wf(),
        ensures
            final(self).wf(),
            final(self).spec_fallbacks() == old(self).spec_fallbacks().remove(name@),
            final(self).spec_cache() == old(self).spec_cache(),
            final(self).spec_redis_available() == old(self).spec_redis_available(),
    {
        let _ = self.fallback_backends.remove(name);
    }

    /// The fallback for `name` when Redis cannot be reached: the fallback
    /// stored under that name, else the one under "default"; none while Redis
    /// is reachable.
    pub fn get_default_backend(&self, name: &str) -> (r: Option<BackendInfo>)
        requires
            self.wf(),
        ensures
            r is Some <==> self.fallback_choice(name@) is Some,
            r matches Some(b) ==> same_backend(b, self.spec_fallbacks()[self.fallback_choice(name@)->0]),
    {
        if !self.redis_available {
            match self.fallback_backends.get(name) {
                Some(b) => {
                    return Some(b.clone());
                },
                None => {},
            }
            match self.fallback_backends.get("default") {
                Some(b) => {
                    return Some(b.clone());
                },
                None => {},
            }
        }
        None
    }

    /// What looking `name` up in Redis came to: a stored backend is cached at
    /// `now` (milliseconds since the Unix epoch) and is the answer; no stored
    /// backend gives none; a failed lookup (`Err`) gives the fallback (see
    /// `get_default_backend`).
    pub fn lookup_finished(&mut self, name: &str, fetched: Result<Option<BackendInfo>, ()>, now: u64) -> (r: Option<
        BackendInfo,
    >)
        requires
            old(self).wf(),
        ensures
            final(self).wf(),
            final(self).spec_fallbacks() == old(self).spec_fallbacks(),
            final(self).spec_redis_available() == old(self).spec_redis_available(),
            match fetched {
                Ok(Some(info)) => {
                    &&& r matches Some(b) && same_backend(b, info)
                    &&& final(self).spec_cache() == old(self).spec_cache().insert(
                        name@,
                        CachedBackend { info, cached_at: now },
                    )
                },
                Ok(None) => r is None && final(self).spec_cache() == old(self).spec_cache(),
                Err(_) => {
                    &&& final(self).spec_cache() == old(self).spec_cache()
                    &&& r is Some <==> old(self).fallback_choice(name@) is Some
                    &&& r matches Some(b) ==> same_backend(
                        b,
                        old(self).spec_fallbacks()[old(self).fallback_choice(name@)->0],
                    )
                },
            },
    {
        match fetched {
            Ok(Some(info)) => {
                let answer = info.clone();
                self.remember(text_owned(name), info, now);
                Some(answer)
            },
            Ok(None) => None,
            Err(_) => self.get_default_backend(name),
        }
    }

    /// The decision for a server name whose backend was looked up: forward
    /// to it when it was found and is healthy, under the rule id
    /// "redis_exact_" and the name.
    pub fn exact_decision(sni: &str, found: Option<&BackendInfo>) -> (r: Option<RoutingDecision>)
        ensures
            r is Some <==> (found matches Some(b) && b.healthy),
            r matches Some(d) ==> d@ == forward_decision(sni@, found->0.address, "redis_exact_"@ + sni@),
    {
        match found {
            Some(b) => {
                if b.healthy {
                    let id = join3("redis_exact", "_", sni);
                    proof {
                        reveal_strlit("redis_exact");
                        reveal_strlit("_");
                        reveal_strlit("redis_exact_");
                        assert(id@ =~= "redis_exact_"@ + sni@);
                    }
                    Some(forward(sni, b.address, id))
                } else {
                    None
                }
            },
            None => None,
        }
    }

    /// The decision without a server name, once "default" was looked up:
    /// forward to it when it was found and is healthy, under the rule id
    /// "redis_default".
    pub fn default_decision(found: Option<&BackendInfo>) -> (r: Option<RoutingDecision>)
        ensures
            r is Some <==> (found matches Some(b) && b.healthy),
            r matches Some(d) ==> d@ == forward_decision("default"@, found->0.address, "redis_default"@),
    {
        match found {
            Some(b) => {
                if b.healthy {
                    Some(forward("default", b.address, text_owned("redis_default")))
                } else {
                    None
                }
            },
            None => None,
        }
    }

    /// The wildcard decision for a server name among the listed backends: the
    /// first healthy one whose name covers it (see `wildcard_covers`), under
    /// the rule id "redis_wildcard_" and the server name.
    pub fn wildcard_route(sni: &str, backends: &Vec<(String, BackendInfo)>) -> (r: Option<RoutingDecision>)
        ensures
            r is Some <==> exists|i: int| first_wildcard_at(listing(backends@), sni@, i),
            forall|i: int|
                first_wildcard_at(listing(backends@), sni@, i) ==> (r matches Some(d) && d@ == forward_decision(
                    backends@[i].0@,
                    backends@[i].1.address,
                    "redis_wildcard_"@ + sni@,
                )),
    {
        let ghost l = listing(backends@);
        let mut i: usize = 0;
        while i < backends.len()
            invariant
                l == listing(backends@),
                i <= backends@.len(),
                forall|j: int| 0 <= j < i ==> !(wildcard_covers(#[trigger] l[j].0, sni@) && l[j].1),
            decreases backends.len() - i,
        {
            let name = backends[i].0.as_str();
            assert(l[i as int] == (name@, backends@[i as int].1.healthy));
            let covers = covers_by_wildcard(name, sni);
            if covers && backends[i].1.healthy {
                let id = join3("redis_wildcard", "_", sni);
                proof {
                    reveal_strlit("redis_wildcard");
                    reveal_strlit("_");
                    reveal_strlit("redis_wildcard_");
                    assert(id@ =~= "redis_wildcard_"@ + sni@);
                }
                proof {
                    assert(first_wildcard_at(l, sni@, i as int));
                    assert forall|k: int| first_wildcard_at(l, sni@, k) implies k == i by {
                        if k < i {
                            assert(!(wildcard_covers(l[k].0, sni@) && l[k].1));
                        } else if k > i {
                            assert(!(wildcard_covers(l[i as int].0, sni@) && l[i as int].1));
                        }
                    }
                }
                return Some(forward(name, backends[i].1.address, id));
            }
            i = i + 1;
        }
        proof {
            assert forall|k: int| !first_wildcard_at(l, sni@, k) by {
                if 0 <= k < l.len() {
                    assert(!(wildcard_covers(l[k].0, sni@) && l[k].1));
                }
            }
        }
        None
    }

    /// The names and addresses of listed backends.
    pub fn names_and_addresses(backends: &Vec<(String, BackendInfo)>) -> (r: Vec<(String, Endpoint)>)
        ensures
            r@.len() == backends@.len(),
            forall|i: int|
                0 <= i < r@.len() ==> (#[trigger] r@[i]).0@ == backends@[i].0@ && r@[i].1 == backends@[i].1.address,
    {
        let mut r: Vec<(String, Endpoint)> = Vec::new();
        let mut i: usize = 0;
        while i < backends.len()
            invariant
                i <= backends@.len(),
                r@.len() == i,
                forall|j: int|
                    0 <= j < i ==> (#[trigger] r@[j]).0@ == backends@[j].0@ && r@[j].1 == backends@[j].1.address,
            decreases backends.len() - i,
        {
            r.push((backends[i].0.clone(), backends[i].1.address));
            i = i + 1;
        }
        r
    }

    /// A backend recorded at `addr`: weight 100, healthy, checked at `now`
    /// (seconds since the Unix epoch), no metadata.
    pub fn simple_backend(addr: Endpoint, now: u64) -> (r: BackendInfo)
        ensures
            r.address == addr,
            r.weight == 100,
            r.healthy,
            r.last_check == now,
            r.metadata@ == Map::<Seq<char>, String>::empty(),
    {
        BackendInfo { address: addr, weight: 100, healthy: true, last_check: now, metadata: NameMap::new() }
    }

    /// A backend after a health check at `now` (seconds since the Unix epoch).
    pub fn after_health_check(info: BackendInfo, healthy: bool, now: u64) -> (r: BackendInfo)
        ensures
            r.address == info.address,
            r.weight == info.weight,
            r.healthy == healthy,
            r.last_check == now,
            r.metadata == info.metadata,
    {
        let mut r = info;
        r.healthy = healthy;
        r.last_check = now;
        r
    }

    /// How a backend is probed: its metadata "health_check_type" says "http"
    /// or "https"; anything else, or nothing, means a TCP connection.
    pub fn health_probe(info: &BackendInfo) -> (r: HealthProbe)
        requires
            info.metadata.wf(),
        ensures
            r == (if info.metadata@.contains_key("health_check_type"@) && info.metadata@["health_check_type"@]@
                == "http"@ {
                HealthProbe::Http
            } else if info.metadata@.contains_key("health_check_type"@) && info.metadata@["health_check_type"@]@
                == "https"@ {
                HealthProbe::Https
            } else {
                HealthProbe::Tcp
            }),
    {
        match info.metadata.get("health_check_type") {
            Some(t) => {
                if crate::text::text_eq(t.as_str(), "http") {
                    HealthProbe::Http
                } else if crate::text::text_eq(t.as_str(), "https") {
                    HealthProbe::Https
                } else {
                    HealthProbe::Tcp
                }
            },
            None => HealthProbe::Tcp,
        }
    }

    /// The path an HTTP(S) probe asks for: the metadata "health_check_path",
    /// else "/health".
    pub fn health_check_path(info: &BackendInfo) -> (r: String)
        requires
            info.metadata.wf(),
        ensures
            r@ == (if info.metadata@.contains_key("health_check_path"@) {
                info.metadata@["health_check_path"@]@
            } else {
                "/health"@
            }),
    {
        match info.metadata.get("health_check_path") {
            Some(p) => p.clone(),
            None => text_owned("/health"),
        }
    }
}

} // verus!
