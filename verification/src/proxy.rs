use vstd::prelude::*;
use crate::config::ServerConfig;
use crate::health::HealthCheckStats;
use crate::manager::{route_outcome, RouterManager};
use crate::metrics::RequestMetrics;
use crate::name_map::NameMap;
use crate::net::{displayed_endpoint, endpoint_to_text, Endpoint};
use crate::router::{opt_chars, BackendInfo, BackendView, Protocol, RouterError, RouterStats, RoutingContext};
use crate::text::{concat, text_owned};
use crate::routing::rules::{ActionView, RoutingAction, RoutingDecision};

verus! {

/// Why a connection could not be proxied.
#[derive(Debug)]
pub enum ProxyError {
    NoBackendAvailable,
    /// The backend could not be reached; the text is the I/O error's.
    BackendConnectionFailed(String),
    RoutingFailed(String),
    ConfigurationError(String),
    HealthCheckFailed(String),
    MetricsError(String),
}

impl ProxyError {
    /// The error's message.
    pub fn message(&self) -> (r: String)
        ensures
            r@ == match self {
                ProxyError::NoBackendAvailable => "No backend available"@,
                ProxyError::BackendConnectionFailed(e) => "Backend connection failed: "@ + e@,
                ProxyError::RoutingFailed(e) => "Routing failed: "@ + e@,
                ProxyError::ConfigurationError(e) => "Configuration error: "@ + e@,
                ProxyError::HealthCheckFailed(e) => "Health check failed: "@ + e@,
                ProxyError::MetricsError(e) => "Metrics error: "@ + e@,
            },
    {
        match self {
            ProxyError::NoBackendAvailable => text_owned("No backend available"),
            ProxyError::BackendConnectionFailed(e) => concat("Backend connection failed: ", e.as_str()),
            ProxyError::RoutingFailed(e) => concat("Routing failed: ", e.as_str()),
            ProxyError::ConfigurationError(e) => concat("Configuration error: ", e.as_str()),
            ProxyError::HealthCheckFailed(e) => concat("Health check failed: ", e.as_str()),
            ProxyError::MetricsError(e) => concat("Metrics error: ", e.as_str()),
        }
    }
}

/// A lowercase hexadecimal digit.
pub open spec fn lower_hex_digit(c: char) -> bool {
    ('0' <= c && c <= '9') || ('a' <= c && c <= 'f')
}

/// The text of a version 4 UUID in its hyphenated lowercase form: 36
/// characters, hyphens at positions 8, 13, 18 and 23, lowercase hexadecimal
/// digits elsewhere, the version digit '4' at position 14 and the variant
/// digit (8, 9, a or b) at position 19.
pub open spec fn is_uuid_v4_text(t: Seq<char>) -> bool {
    &&& t.len() == 36
    &&& forall|i: int|
        0 <= i < 36 ==> if i == 8 || i == 13 || i == 18 || i == 23 {
            #[trigger] t[i] == '-'
        } else {
            lower_hex_digit(t[i])
        }
    &&& t[14] == '4'
    &&& (t[19] == '8' || t[19] == '9' || t[19] == 'a' || t[19] == 'b')
}

/// A fresh connection id: `uuid::Uuid::new_v4`, which sets the version and
/// variant bits of random bits, written with its `Display` (lowercase
/// hyphenated).  Which id comes out is left to chance.
#[verifier::external_body]
fn new_connection_id() -> (r: String)
    ensures
        is_uuid_v4_text(r@),
{
    uuid::Uuid::new_v4().to_string()
}

/// What is known of one proxied connection.  Times are milliseconds on the
/// proxy's clock.
pub struct ConnectionInfo {
    pub id: String,
    pub protocol: Protocol,
    pub client_addr: Endpoint,
    pub target_addr: Endpoint,
    pub backend_addr: Option<Endpoint>,
    pub start_time: u64,
    pub bytes_sent: u64,
    pub bytes_received: u64,
    pub rule_name: Option<String>,
    pub router_name: Option<String>,
}

impl ConnectionInfo {
    /// A connection that began at `now`, with a fresh id, no backend yet and
    /// nothing transferred.
    pub fn new(protocol: Protocol, client_addr: Endpoint, target_addr: Endpoint, now: u64) -> (r: Self)
        ensures
            is_uuid_v4_text(r.id@),
            r.protocol == protocol,
            r.client_addr == client_addr,
            r.target_addr == target_addr,
            r.backend_addr is None,
            r.start_time == now,
            r.bytes_sent == 0,
            r.bytes_received == 0,
            r.rule_name is None,
            r.router_name is None,
    {
        ConnectionInfo {
            id: new_connection_id(),
            protocol,
            client_addr,
            target_addr,
            backend_addr: None,
            start_time: now,
            bytes_sent: 0,
            bytes_received: 0,
            rule_name: None,
            router_name: None,
        }
    }

    /// How long the connection has lasted at `now` (zero for a time before its start).
    pub fn duration(&self, now: u64) -> (r: u64)
        ensures
            r == (if now >= self.start_time {
                now - self.start_time
            } else {
                0
            }),
    {
        if now >= self.start_time {
            now - self.start_time
        } else {
            0
        }
    }

    /// The bytes transferred both ways.
    pub fn total_bytes(&self) -> (r: u64)
        requires
            self.bytes_sent + self.bytes_received <= u64::MAX,
        ensures
            r == self.bytes_sent + self.bytes_received,
    {
        self.bytes_sent + self.bytes_received
    }
}

/// Routing a new connection from `client_addr` to `target_addr` over
/// `protocol` (a context without server name, headers, metadata or session)
/// turned `pre` into `post` with the result `r`: the chosen backend, none
/// available when nothing was chosen, or a routing failure with the message
/// of the missing router.
pub open spec fn connection_routed(
    pre: RouterManager,
    post: RouterManager,
    client_addr: Endpoint,
    target_addr: Endpoint,
    protocol: Protocol,
    r: Result<BackendInfo, ProxyError>,
) -> bool {
    exists|ctx: RoutingContext|
        #![trigger ctx.is_plain(client_addr, target_addr, protocol)]
        ctx.is_plain(client_addr, target_addr, protocol) && match r {
            Ok(b) => route_outcome(pre, post, ctx, Ok(Some(b@))),
            Err(ProxyError::NoBackendAvailable) => route_outcome(pre, post, ctx, Ok(None)),
            Err(ProxyError::RoutingFailed(m)) => exists|n: Seq<char>|
                route_outcome(pre, post, ctx, Err(n)) && m@ == "Router '"@ + n + "' not found"@,
            _ => false,
        }
}

/// The backend that the router manager chooses for a new connection, or why
/// there is none: a routing error becomes `RoutingFailed` with its message,
/// and no choice `NoBackendAvailable`.
pub fn route_connection(
    manager: &mut RouterManager,
    client_addr: Endpoint,
    target_addr: Endpoint,
    protocol: Protocol,
) -> (r: Result<BackendInfo, ProxyError>)
    requires
        old(manager).wf(),
    ensures
        final(manager).wf(),
        final(manager).spec_rules() == old(manager).spec_rules(),
        final(manager).spec_cache() == old(manager).spec_cache(),
        connection_routed(*old(manager), *final(manager), client_addr, target_addr, protocol, r),
{
    let context = RoutingContext::new(client_addr, target_addr, protocol);
    match manager.route(&context) {
        Ok(Some(b)) => Ok(b),
        Ok(None) => Err(ProxyError::NoBackendAvailable),
        Err(e) => {
            let m = e.message();
            proof {
                match e {
                    RouterError::RouterNotFound(n) => {
                        assert(route_outcome(*old(manager), *manager, context, Err(n@)));
                    },
                    _ => {},
                }
            }
            Err(ProxyError::RoutingFailed(m))
        },
    }
}

/// The request record for a finished connection, when it is tied to a rule:
/// the backend is the text of its address ("unknown" when there is none), the
/// status "success" or "error".
pub fn connection_request_metrics(
    protocol: &str,
    info: &ConnectionInfo,
    success: bool,
    duration: core::time::Duration,
) -> (r: Option<RequestMetrics>)
    ensures
        r is Some <==> info.rule_name is Some,
        r matches Some(m) ==> {
            &&& m.protocol@ == protocol@
            &&& m.rule@ == info.rule_name->0@
            &&& m.backend@ == match info.backend_addr {
                Some(a) => displayed_endpoint(a),
                None => "unknown"@,
            }
            &&& m.status@ == (if success {
                "success"@
            } else {
                "error"@
            })
            &&& m.duration == duration
            &&& m.request_size == info.bytes_sent
            &&& m.response_size == info.bytes_received
        },
{
    match &info.rule_name {
        Some(rule) => {
            let backend = match &info.backend_addr {
                Some(a) => endpoint_to_text(a),
                None => text_owned("unknown"),
            };
            let status = if success {
                "success"
            } else {
                "error"
            };
            Some(
                RequestMetrics::new(
                    protocol,
                    rule.as_str(),
                    backend.as_str(),
                    status,
                    duration,
                    info.bytes_sent,
                    info.bytes_received,
                ),
            )
        },
        None => None,
    }
}

/// What the plugin-based TCP proxy does with a routing decision.
pub enum TcpPlan {
    /// Forward the connection to the named backend, at the decision's address
    /// (none when it was not resolved, which fails the connection).
    Forward { backend: String, address: Option<Endpoint> },
    /// Terminate TLS, then forward to the named backend at the decision's address.
    TerminateTls { backend: String, address: Option<Endpoint> },
    /// A balancing decision without backends: the connection is left alone.
    NoBackends,
    /// The connection is rejected for this reason.
    Reject { reason: String },
}

/// The plan for a decision of the plugin-based TCP proxy: forwarding goes to
/// the named backend, balancing to its first backend, both at the decision's
/// address.
pub fn tcp_plan(decision: &RoutingDecision) -> (r: TcpPlan)
    ensures
        match decision.action@ {
            ActionView::Forward { backend } => r matches TcpPlan::Forward { backend: b, address } && b@ == backend
                && address == decision.backend_addr,
            ActionView::LoadBalance { backends, .. } => if backends.len() == 0 {
                r is NoBackends
            } else {
                r matches TcpPlan::Forward { backend: b, address } && b@ == backends[0] && address
                    == decision.backend_addr
            },
            ActionView::Reject { reason } => r matches TcpPlan::Reject { reason: m } && m@ == reason,
            ActionView::TlsTerminate { backend } => r matches TcpPlan::TerminateTls { backend: b, address } && b@
                == backend && address == decision.backend_addr,
        },
{
    match &decision.action {
        RoutingAction::Forward { backend } => TcpPlan::Forward { backend: backend.clone(), address: decision.backend_addr },
        RoutingAction::LoadBalance { backends, .. } => {
            if backends.len() == 0 {
                TcpPlan::NoBackends
            } else {
                assert(crate::routing::rules::text_views(backends@)[0] == backends@[0]@);
                TcpPlan::Forward { backend: backends[0].clone(), address: decision.backend_addr }
            }
        },
        RoutingAction::Reject { reason } => TcpPlan::Reject { reason: reason.clone() },
        RoutingAction::TlsTerminate { backend } => TcpPlan::TerminateTls {
            backend: backend.clone(),
            address: decision.backend_addr,
        },
    }
}

/// Where the plugin-based UDP proxy sends a client's first packet: forwarding
/// and balancing go to the decision's address (an error when it was not
/// resolved); a rejection or TLS termination drops the packet (none).
pub fn udp_target(decision: &RoutingDecision) -> (r: Result<Option<Endpoint>, String>)
    ensures
        match decision.action@ {
            ActionView::Forward { .. } => match decision.backend_addr {
                Some(a) => r == Ok::<Option<Endpoint>, String>(Some(a)),
                None => r matches Err(m) && m@ == "Backend address not resolved"@,
            },
            ActionView::LoadBalance { .. } => match decision.backend_addr {
                Some(a) => r == Ok::<Option<Endpoint>, String>(Some(a)),
                None => r matches Err(m) && m@ == "No backend address for load balancing"@,
            },
            _ => r == Ok::<Option<Endpoint>, String>(None),
        },
{
    match &decision.action {
        RoutingAction::Forward { .. } => match decision.backend_addr {
            Some(a) => Ok(Some(a)),
            None => Err(text_owned("Backend address not resolved")),
        },
        RoutingAction::LoadBalance { .. } => match decision.backend_addr {
            Some(a) => Ok(Some(a)),
            None => Err(text_owned("No backend address for load balancing")),
        },
        _ => Ok(None),
    }
}

/// The state of the TCP side.
#[derive(Debug, Clone, Copy, PartialEq, Eq, Structural)]
pub struct TcpProxyStatus {
    pub running: bool,
    pub bind_address: Endpoint,
    pub active_connections: usize,
}

/// The state of the UDP side.
#[derive(Debug, Clone, Copy, PartialEq, Eq, Structural)]
pub struct UdpProxyStatus {
    pub running: bool,
    pub bind_address: Option<Endpoint>,
    pub active_sessions: usize,
}

/// The state of the whole proxy.
#[derive(Debug)]
pub struct ProxyServerStatus {
    pub running: bool,
    pub uptime: core::time::Duration,
    pub tcp_status: Option<TcpProxyStatus>,
    pub udp_status: Option<UdpProxyStatus>,
    pub health_stats: HealthCheckStats,
    pub active_connections: u64,
}

/// Detailed statistics of the proxy.
#[derive(Debug)]
pub struct ProxyServerStats {
    pub uptime: core::time::Duration,
    pub router_stats: NameMap<RouterStats>,
    pub health_stats: HealthCheckStats,
    pub metrics_output: String,
}

/// Whether stopping the TCP side waits one more second: at most 30 waits,
/// and only while connections remain.
pub open spec fn keeps_waiting(attempts: u32, active: usize) -> bool {
    attempts < 30 && active > 0
}

/// The TCP side: whether it accepts connections, and the connections in
/// progress, by id.
pub struct TcpProxy {
    config: ServerConfig,
    running: bool,
    connections: NameMap<ConnectionInfo>,
}

impl TcpProxy {
    pub closed spec fn wf(self) -> bool {
        self.connections.wf()
    }

    pub closed spec fn spec_running(self) -> bool {
        self.running
    }

    pub closed spec fn spec_bind(self) -> Endpoint {
        self.config.tcp_bind
    }

    /// The connections in progress, by id.
    pub closed spec fn spec_connections(self) -> Map<Seq<char>, ConnectionInfo> {
        self.connections@
    }

    /// A TCP side that is not running and has no connections.
    pub fn new(config: ServerConfig) -> (r: Self)
        ensures
            r.wf(),
            !r.spec_running(),
            r.spec_bind() == config.tcp_bind,
            r.spec_connections() == Map::<Seq<char>, ConnectionInfo>::empty(),
    {
        TcpProxy { config, running: false, connections: NameMap::new() }
    }

    /// Where the TCP side listens.
    pub fn bind_address(&self) -> (r: Endpoint)
        ensures
            r == self.spec_bind(),
    {
        self.config.tcp_bind
    }

    pub fn is_running(&self) -> (r: bool)
        ensures
            r == self.spec_running(),
    {
        self.running
    }

    /// Starts accepting: the answer says whether it was not running before
    /// (and listening is to begin); it runs afterwards in any case.
    pub fn start(&mut self) -> (r: bool)
        ensures
            r == !old(self).spec_running(),
            final(self).spec_running(),
            final(self).wf() == old(self).wf(),
            final(self).spec_connections() == old(self).spec_connections(),
            final(self).spec_bind() == old(self).spec_bind(),
    {
        if self.running {
            return false;
        }
        self.running = true;
        true
    }

    /// Stops accepting connections; those in progress go on.
    pub fn stop(&mut self)
        ensures
            !final(self).spec_running(),
            final(self).wf() == old(self).wf(),
            final(self).spec_connections() == old(self).spec_connections(),
            final(self).spec_bind() == old(self).spec_bind(),
    {
        self.running = false;
    }

    /// Whether stopping waits one more second (see `keeps_waiting`).
    pub fn keeps_waiting(&self, attempts: u32) -> (r: bool)
        requires
            self.wf(),
        ensures
            r == keeps_waiting(attempts, self.spec_connections().dom().len() as usize),
    {
        proof {
            crate::name_map::lemma_map_len(self.connections.pairs());
        }
        attempts < 30 && self.connections.len() > 0
    }

    /// Records a connection that began.
    pub fn connection_opened(&mut self, info: ConnectionInfo)
        requires
            old(self).wf(),
        ensures
            final(self).wf(),
            final(self).spec_connections() == old(self).spec_connections().insert(info.id@, info),
            final(self).spec_running() == old(self).spec_running(),
            final(self).spec_bind() == old(self).spec_bind(),
    {
        let id = info.id.clone();
        self.connections.insert(id, info);
    }

    /// Forgets a connection that ended.
    pub fn connection_closed(&mut self, id: &str)
        requires
            old(self).wf(),
        ensures
            final(self).wf(),
            final(self).spec_connections() == old(self).spec_connections().remove(id@),
            final(self).spec_running() == old(self).spec_running(),
            final(self).spec_bind() == old(self).spec_bind(),
    {
        let _ = self.connections.remove(id);
    }

    /// The TCP side's state.
    pub fn get_status(&self) -> (r: TcpProxyStatus)
        requires
            self.wf(),
        ensures
            r.running == self.spec_running(),
            r.bind_address == self.spec_bind(),
            r.active_connections == self.spec_connections().dom().len(),
    {
        proof {
            crate::name_map::lemma_map_len(self.connections.pairs());
        }
        TcpProxyStatus {
            running: self.running,
            bind_address: self.config.tcp_bind,
            active_connections: self.connections.len(),
        }
    }
}

/// A UDP client's session with a backend.  Times are milliseconds on the
/// proxy's clock.
pub struct UdpSession {
    pub client_addr: Endpoint,
    pub backend_addr: Endpoint,
    pub last_activity: u64,
    pub bytes_sent: u64,
    pub bytes_received: u64,
    pub rule_name: Option<String>,
    pub router_name: Option<String>,
}

/// Two sessions agree in every field (their names by content).
pub open spec fn same_session(a: UdpSession, b: UdpSession) -> bool {
    &&& a.client_addr == b.client_addr
    &&& a.backend_addr == b.backend_addr
    &&& a.last_activity == b.last_activity
    &&& a.bytes_sent == b.bytes_sent
    &&& a.bytes_received == b.bytes_received
    &&& opt_chars(a.rule_name) == opt_chars(b.rule_name)
    &&& opt_chars(a.router_name) == opt_chars(b.router_name)
}

fn clone_opt_text(o: &Option<String>) -> (r: Option<String>)
    ensures
        opt_chars(r) == opt_chars(*o),
{
    match o {
        Some(s) => Some(s.clone()),
        None => None,
    }
}

impl Clone for UdpSession {
    fn clone(&self) -> (r: Self)
        ensures
            same_session(r, *self),
    {
        UdpSession {
            client_addr: self.client_addr,
            backend_addr: self.backend_addr,
            last_activity: self.last_activity,
            bytes_sent: self.bytes_sent,
            bytes_received: self.bytes_received,
            rule_name: clone_opt_text(&self.rule_name),
            router_name: clone_opt_text(&self.router_name),
        }
    }
}

/// `a + b`, staying at the largest `u64`.
pub open spec fn add_capped(a: u64, b: u64) -> u64 {
    if a + b > u64::MAX {
        u64::MAX
    } else {
        (a + b) as u64
    }
}

fn add_capped_exec(a: u64, b: u64) -> (r: u64)
    ensures
        r == add_capped(a, b),
{
    if a > u64::MAX - b {
        u64::MAX
    } else {
        a + b
    }
}

impl UdpSession {
    /// A session opened at `now` with the first packet of `len` bytes sent.
    pub fn opened(client_addr: Endpoint, backend_addr: Endpoint, len: u64, now: u64) -> (r: Self)
        ensures
            r.client_addr == client_addr,
            r.backend_addr == backend_addr,
            r.last_activity == now,
            r.bytes_sent == len,
            r.bytes_received == 0,
            r.rule_name is None,
            r.router_name is None,
    {
        UdpSession {
            client_addr,
            backend_addr,
            last_activity: now,
            bytes_sent: len,
            bytes_received: 0,
            rule_name: None,
            router_name: None,
        }
    }

    /// The session after a response of `len` bytes went back to the client at
    /// `now`.  The byte counts stop at the largest `u64`.
    pub fn after_response(self, len: u64, now: u64) -> (r: Self)
        ensures
            r == (UdpSession { last_activity: now, bytes_received: add_capped(self.bytes_received, len), ..self }),
    {
        let mut r = self;
        r.last_activity = now;
        r.bytes_received = add_capped_exec(r.bytes_received, len);
        r
    }

    /// The request record for a session tied to a rule: protocol "udp", the
    /// backend's address as text, status "success", and the bytes so far.
    pub fn request_metrics(&self, duration: core::time::Duration) -> (r: Option<RequestMetrics>)
        ensures
            r is Some <==> self.rule_name is Some,
            r matches Some(m) ==> {
                &&& m.protocol@ == "udp"@
                &&& m.rule@ == self.rule_name->0@
                &&& m.backend@ == displayed_endpoint(self.backend_addr)
                &&& m.status@ == "success"@
                &&& m.duration == duration
                &&& m.request_size == self.bytes_sent
                &&& m.response_size == self.bytes_received
            },
    {
        match &self.rule_name {
            Some(rule) => {
                let backend = endpoint_to_text(&self.backend_addr);
                Some(
                    RequestMetrics::new(
                        "udp",
                        rule.as_str(),
                        backend.as_str(),
                        "success",
                        duration,
                        self.bytes_sent,
                        self.bytes_received,
                    ),
                )
            },
            None => None,
        }
    }
}

/// The clients of the sessions, in order.
pub open spec fn session_clients(s: Seq<UdpSession>) -> Seq<Endpoint> {
    s.map_values(|x: UdpSession| x.client_addr)
}

/// What to do with a packet from a client.
pub enum PacketPlan {
    /// Forward it to the backend of the client's session.
    Forward(Endpoint),
    /// Open a session with this backend and send the packet there.
    Open(BackendInfo),
}

/// The routing result within a packet plan that opens a session or fails.
pub open spec fn plan_as_route(r: Result<PacketPlan, ProxyError>) -> Result<BackendInfo, ProxyError> {
    match r {
        Ok(PacketPlan::Open(b)) => Ok(b),
        Ok(PacketPlan::Forward(_)) => arbitrary(),
        Err(e) => Err(e),
    }
}

/// Whether a session has been idle at `now` for longer than `timeout` (both
/// in milliseconds; a time before its last activity counts as no idling).
pub open spec fn session_expired(s: UdpSession, now: u64, timeout: u64) -> bool {
    now >= s.last_activity && now - s.last_activity > timeout
}

/// The UDP side: whether it receives packets, and one session per client.
pub struct UdpProxy {
    config: ServerConfig,
    running: bool,
    sessions: Vec<UdpSession>,
}

impl UdpProxy {
    /// No client has two sessions.
    pub closed spec fn wf(self) -> bool {
        forall|i: int, j: int|
            0 <= i < j < self.sessions@.len() ==> self.sessions@[i].client_addr != self.sessions@[j].client_addr
    }

    pub closed spec fn spec_running(self) -> bool {
        self.running
    }

    pub closed spec fn spec_bind(self) -> Endpoint {
        self.config.udp_bind
    }

    /// The configured buffer size, if any.
    pub closed spec fn spec_buffer_size(self) -> Option<usize> {
        self.config.buffer_size
    }

    /// The sessions, in the order they were opened.
    pub closed spec fn spec_sessions(self) -> Seq<UdpSession> {
        self.sessions@
    }

    /// A UDP side that is not running and has no sessions.
    pub fn new(config: ServerConfig) -> (r: Self)
        ensures
            r.wf(),
            !r.spec_running(),
            r.spec_bind() == config.udp_bind,
            r.spec_sessions() == Seq::<UdpSession>::empty(),
    {
        UdpProxy { config, running: false, sessions: Vec::new() }
    }

    /// Where the UDP side listens.
    pub fn bind_address(&self) -> (r: Endpoint)
        ensures
            r == self.spec_bind(),
    {
        self.config.udp_bind
    }

    pub fn is_running(&self) -> (r: bool)
        ensures
            r == self.spec_running(),
    {
        self.running
    }

    /// The buffer size for received packets: the configured one, else 8192.
    pub fn buffer_size(&self) -> (r: usize)
        ensures
            r == match self.spec_buffer_size() {
                Some(n) => n,
                None => 8192,
            },
    {
        match self.config.buffer_size {
            Some(n) => n,
            None => 8192,
        }
    }

    /// Starts receiving: the answer says whether it was not running before
    /// (and receiving is to begin); it runs afterwards in any case.
    pub fn start(&mut self) -> (r: bool)
        ensures
            r == !old(self).spec_running(),
            final(self).spec_running(),
            final(self).wf() == old(self).wf(),
            final(self).spec_sessions() == old(self).spec_sessions(),
            final(self).spec_bind() == old(self).spec_bind(),
    {
        if self.running {
            return false;
        }
        self.running = true;
        true
    }

    /// Stops receiving and drops every session.
    pub fn stop(&mut self)
        ensures
            final(self).wf(),
            !final(self).spec_running(),
            final(self).spec_sessions() == Seq::<UdpSession>::empty(),
            final(self).spec_bind() == old(self).spec_bind(),
    {
        self.running = false;
        self.sessions.clear();
    }

    /// The position of the client's session.
    fn find(&self, client: Endpoint) -> (r: Option<usize>)
        ensures
            r matches Some(i) ==> i < self.sessions@.len() && self.sessions@[i as int].client_addr == client,
            r is None ==> !session_clients(self.sessions@).contains(client),
    {
        let mut i: usize = 0;
        while i < self.sessions.len()
            invariant
                i <= self.sessions@.len(),
                forall|j: int| 0 <= j < i ==> self.sessions@[j].client_addr != client,
            decreases self.sessions.len() - i,
        {
            if self.sessions[i].client_addr == client {
                return Some(i);
            }
            i = i + 1;
        }
        proof {
            if session_clients(self.sessions@).contains(client) {
                let k = choose|k: int| 0 <= k < self.sessions@.len() && session_clients(self.sessions@)[k] == client;
                assert(self.sessions@[k].client_addr == client);
            }
        }
        None
    }

    /// What to do with a packet of `len` bytes from `client`.  A client with
    /// a session has its packet go to the session's backend; the session is
    /// touched only once the packet was sent (see `packet_sent`).  For another
    /// client the router manager chooses a backend for a UDP connection to the
    /// configured UDP address (see `route_connection`).  The sessions stay as
    /// they are either way.
    pub fn plan_packet(&mut self, manager: &mut RouterManager, client: Endpoint) -> (r: Result<
        PacketPlan,
        ProxyError,
    >)
        requires
            old(self).wf(),
            old(manager).wf(),
        ensures
            final(self).wf(),
            final(self).spec_running() == old(self).spec_running(),
            final(self).spec_bind() == old(self).spec_bind(),
            final(self).spec_sessions() == old(self).spec_sessions(),
            final(manager).wf(),
            ({
                let s = old(self).spec_sessions();
                if session_clients(s).contains(client) {
                    &&& r matches Ok(PacketPlan::Forward(a)) && a == s[session_clients(s).index_of(client)].backend_addr
                    &&& *final(manager) == *old(manager)
                } else {
                    &&& connection_routed(
                        *old(manager),
                        *final(manager),
                        client,
                        old(self).spec_bind(),
                        Protocol::Udp,
                        plan_as_route(r),
                    )
                    &&& !(r matches Ok(PacketPlan::Forward(_)))
                }
            }),
    {
        match self.find(client) {
            Some(i) => {
                proof {
                    lemma_index_of_client(self.sessions@, i as int, client);
                }
                Ok(PacketPlan::Forward(self.sessions[i].backend_addr))
            },
            None => {
                let target = self.config.udp_bind;
                match route_connection(manager, client, target, Protocol::Udp) {
                    Ok(b) => Ok(PacketPlan::Open(b)),
                    Err(e) => Err(e),
                }
            },
        }
    }

    /// A packet of `len` bytes from `client` was sent to its session's
    /// backend at `now`: the session's last activity is now and the bytes are
    /// counted (stopping at the largest `u64`).  Without a session nothing
    /// changes.
    pub fn packet_sent(&mut self, client: Endpoint, len: u64, now: u64)
        requires
            old(self).wf(),
        ensures
            final(self).wf(),
            final(self).spec_running() == old(self).spec_running(),
            final(self).spec_bind() == old(self).spec_bind(),
            ({
                let s = old(self).spec_sessions();
                if session_clients(s).contains(client) {
                    let i = session_clients(s).index_of(client);
                    final(self).spec_sessions() == s.update(
                        i,
                        UdpSession { last_activity: now, bytes_sent: add_capped(s[i].bytes_sent, len), ..s[i] },
                    )
                } else {
                    final(self).spec_sessions() == s
                }
            }),
    {
        let ghost s = self.sessions@;
        match self.find(client) {
            Some(i) => {
                let session = UdpSession {
                    client_addr: self.sessions[i].client_addr,
                    backend_addr: self.sessions[i].backend_addr,
                    last_activity: now,
                    bytes_sent: add_capped_exec(self.sessions[i].bytes_sent, len),
                    bytes_received: self.sessions[i].bytes_received,
                    rule_name: self.sessions[i].rule_name.clone(),
                    router_name: self.sessions[i].router_name.clone(),
                };
                proof {
                    lemma_index_of_client(s, i as int, client);
                }
                self.sessions.set(i, session);
            },
            None => {},
        }
    }

    /// The client's session, if it has one.
    pub fn get_session(&self, client: Endpoint) -> (r: Option<&UdpSession>)
        requires
            self.wf(),
        ensures
            r is Some <==> session_clients(self.spec_sessions()).contains(client),
            r matches Some(s) ==> *s == self.spec_sessions()[session_clients(self.spec_sessions()).index_of(client)],
    {
        match self.find(client) {
            Some(i) => {
                proof {
                    let s = self.sessions@;
                    assert(session_clients(s)[i as int] == client);
                    let k = session_clients(s).index_of(client);
                    assert(session_clients(s)[k] == client);
                    if k != i {
                        if k < i {
                            assert(s[k].client_addr != s[i as int].client_addr);
                        } else {
                            assert(s[i as int].client_addr != s[k].client_addr);
                        }
                    }
                }
                Some(&self.sessions[i])
            },
            None => None,
        }
    }

    /// Stores a session (replacing the client's earlier one, if any).
    pub fn store_session(&mut self, session: UdpSession)
        requires
            old(self).wf(),
        ensures
            final(self).wf(),
            final(self).spec_running() == old(self).spec_running(),
            final(self).spec_bind() == old(self).spec_bind(),
            ({
                let s = old(self).spec_sessions();
                if session_clients(s).contains(session.client_addr) {
                    final(self).spec_sessions() == s.update(session_clients(s).index_of(session.client_addr), session)
                } else {
                    final(self).spec_sessions() == s.push(session)
                }
            }),
    {
        let ghost s = self.sessions@;
        let client = session.client_addr;
        match self.find(client) {
            Some(i) => {
                self.sessions.set(i, session);
                proof {
                    assert(session_clients(s)[i as int] == client);
                    let k = session_clients(s).index_of(client);
                    assert(session_clients(s)[k] == client);
                    if k != i {
                        if k < i {
                            assert(s[k].client_addr != s[i as int].client_addr);
                        } else {
                            assert(s[i as int].client_addr != s[k].client_addr);
                        }
                    }
                }
            },
            None => {
                self.sessions.push(session);
                proof {
                    assert forall|j: int| 0 <= j < s.len() implies s[j].client_addr != client by {
                        if s[j].client_addr == client {
                            assert(session_clients(s)[j] == client);
                        }
                    }
                }
            },
        }
    }

    /// Ends the client's session, if it has one.
    pub fn end_session(&mut self, client: Endpoint)
        requires
            old(self).wf(),
        ensures
            final(self).wf(),
            final(self).spec_running() == old(self).spec_running(),
            final(self).spec_bind() == old(self).spec_bind(),
            ({
                let s = old(self).spec_sessions();
                if session_clients(s).contains(client) {
                    final(self).spec_sessions() == s.remove(session_clients(s).index_of(client))
                } else {
                    final(self).spec_sessions() == s
                }
            }),
    {
        let ghost s = self.sessions@;
        match self.find(client) {
            Some(i) => {
                let _ = self.sessions.remove(i);
                proof {
                    let k = session_clients(s).index_of(client);
                    assert(session_clients(s)[i as int] == client);
                    assert(session_clients(s)[k] == client);
                    if k != i {
                        if k < i {
                            assert(s[k].client_addr != s[i as int].client_addr);
                        } else {
                            assert(s[i as int].client_addr != s[k].client_addr);
                        }
                    }
                    let t = self.sessions@;
                    assert forall|a: int, b: int| 0 <= a < b < t.len() implies t[a].client_addr != t[b].client_addr by {
                        let a0 = if a < i { a } else { a + 1 };
                        let b0 = if b < i { b } else { b + 1 };
                        assert(t[a] == s[a0]);
                        assert(t[b] == s[b0]);
                    }
                }
            },
            None => {},
        }
    }

    /// Drops the sessions idle for longer than `timeout` at `now` (see
    /// `session_expired`), keeping the others in order, and gives back the
    /// clients whose sessions were dropped, in order.
    pub fn remove_expired(&mut self, now: u64, timeout: u64) -> (r: Vec<Endpoint>)
        requires
            old(self).wf(),
        ensures
            final(self).wf(),
            final(self).spec_running() == old(self).spec_running(),
            final(self).spec_bind() == old(self).spec_bind(),
            final(self).spec_sessions() == old(self).spec_sessions().filter(
                |x: UdpSession| !session_expired(x, now, timeout),
            ),
            r@ == session_clients(old(self).spec_sessions().filter(|x: UdpSession| session_expired(x, now, timeout))),
    {
        let ghost s = self.sessions@;
        let mut kept: Vec<UdpSession> = Vec::new();
        let mut dropped: Vec<Endpoint> = Vec::new();
        let mut old_sessions: Vec<UdpSession> = Vec::new();
        std::mem::swap(&mut old_sessions, &mut self.sessions);
        let n = old_sessions.len();
        let mut i: usize = 0;
        while i < n
            invariant
                n == s.len(),
                old_sessions@ == s,
                i <= n,
                kept@ == s.take(i as int).filter(|x: UdpSession| !session_expired(x, now, timeout)),
                dropped@ == session_clients(s.take(i as int).filter(|x: UdpSession| session_expired(x, now, timeout))),
            decreases n - i,
        {
            let x = &old_sessions[i];
            proof {
                assert(s.take(i + 1).drop_last() =~= s.take(i as int));
                reveal(Seq::filter);
            }
            if now >= x.last_activity && now - x.last_activity > timeout {
                dropped.push(x.client_addr);
                proof {
                    assert(dropped@ =~= session_clients(
                        s.take(i + 1).filter(|x: UdpSession| session_expired(x, now, timeout)),
                    ));
                }
            } else {
                let copy = UdpSession {
                    client_addr: x.client_addr,
                    backend_addr: x.backend_addr,
                    last_activity: x.last_activity,
                    bytes_sent: x.bytes_sent,
                    bytes_received: x.bytes_received,
                    rule_name: x.rule_name.clone(),
                    router_name: x.router_name.clone(),
                };
                assert(copy == *x);
                kept.push(copy);
                proof {
                    assert(dropped@ =~= session_clients(
                        s.take(i + 1).filter(|x: UdpSession| session_expired(x, now, timeout)),
                    ));
                }
            }
            i = i + 1;
        }
        proof {
            assert(s.take(n as int) =~= s);
            lemma_filter_keeps_distinct(s, now, timeout);
        }
        self.sessions = kept;
        dropped
    }

    /// The number of sessions.
    pub fn get_active_sessions_count(&self) -> (r: usize)
        ensures
            r == self.spec_sessions().len(),
    {
        self.sessions.len()
    }

    /// A copy of every session, in the order they were opened.
    pub fn get_session_stats(&self) -> (r: Vec<UdpSession>)
        ensures
            r@.len() == self.spec_sessions().len(),
            forall|i: int| 0 <= i < r@.len() ==> same_session(#[trigger] r@[i], self.spec_sessions()[i]),
    {
        let mut r: Vec<UdpSession> = Vec::new();
        let mut i: usize = 0;
        while i < self.sessions.len()
            invariant
                i <= self.sessions@.len(),
                r@.len() == i,
                forall|j: int| 0 <= j < i ==> same_session(#[trigger] r@[j], self.sessions@[j]),
            decreases self.sessions@.len() - i,
        {
            r.push(self.sessions[i].clone());
            i = i + 1;
        }
        r
    }

    /// The UDP side's state.
    pub fn get_status(&self) -> (r: UdpProxyStatus)
        ensures
            r.running == self.spec_running(),
            r.bind_address == Some(self.spec_bind()),
            r.active_sessions == self.spec_sessions().len(),
    {
        UdpProxyStatus {
            running: self.running,
            bind_address: Some(self.config.udp_bind),
            active_sessions: self.sessions.len(),
        }
    }
}

/// In a list of sessions with distinct clients, the session at `i` is the
/// first (and only) one of its client.
proof fn lemma_index_of_client(s: Seq<UdpSession>, i: int, client: Endpoint)
    requires
        forall|a: int, b: int| 0 <= a < b < s.len() ==> s[a].client_addr != s[b].client_addr,
        0 <= i < s.len(),
        s[i].client_addr == client,
    ensures
        session_clients(s).contains(client),
        session_clients(s).index_of(client) == i,
{
    assert(session_clients(s)[i] == client);
    let k = session_clients(s).index_of(client);
    assert(session_clients(s)[k] == client);
    if k < i {
        assert(s[k].client_addr != s[i].client_addr);
    } else if k > i {
        assert(s[i].client_addr != s[k].client_addr);
    }
}

/// Keeping some sessions of a list whose clients are distinct keeps the clients distinct.
proof fn lemma_filter_keeps_distinct(s: Seq<UdpSession>, now: u64, timeout: u64)
    requires
        forall|i: int, j: int| 0 <= i < j < s.len() ==> s[i].client_addr != s[j].client_addr,
    ensures
        ({
            let t = s.filter(|x: UdpSession| !session_expired(x, now, timeout));
            forall|i: int, j: int| 0 <= i < j < t.len() ==> t[i].client_addr != t[j].client_addr
        }),
    decreases s.len(),
{
    let f = |x: UdpSession| !session_expired(x, now, timeout);
    reveal(Seq::filter);
    if s.len() > 0 {
        let p = s.drop_last();
        lemma_filter_keeps_distinct(p, now, timeout);
        let tp = p.filter(f);
        let t = s.filter(f);
        if f(s.last()) {
            assert(t == tp.push(s.last()));
            assert forall|i: int, j: int| 0 <= i < j < t.len() implies t[i].client_addr != t[j].client_addr by {
                if j == t.len() - 1 {
                    crate::router::lemma_filter_members(p, f);
                    assert(t[i] == tp[i]);
                    assert(p.contains(tp[i]));
                    let k = choose|k: int| 0 <= k < p.len() && p[k] == t[i];
                    assert(s[k] == t[i]);
                    assert(s[s.len() - 1] == s.last());
                }
            }
        } else {
            assert(t == tp);
        }
    }
}

} // verus!
