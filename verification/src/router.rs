use vstd::prelude::*;
use crate::name_map::NameMap;
use crate::net::{Endpoint, IpAddress};
use crate::text::{join3, text_eq};
use vstd::string::*;

verus! {

/// The transport protocol of a connection.
#[derive(Clone, Copy, Debug, PartialEq, Eq, Structural)]
pub enum Protocol {
    Tcp,
    Udp,
}

/// A backend server that routers choose among.
pub struct BackendInfo {
    pub id: String,
    pub address: Endpoint,
    /// Weight for weighted routing.
    pub weight: u32,
    pub enabled: bool,
    pub healthy: bool,
    pub current_connections: u32,
    pub max_connections: Option<u32>,
    /// Response time in milliseconds.
    pub response_time: Option<u64>,
    pub metadata: NameMap<String>,
}

/// The mathematical value of a backend.
pub struct BackendView {
    pub id: Seq<char>,
    pub address: Endpoint,
    pub weight: u32,
    pub enabled: bool,
    pub healthy: bool,
    pub current_connections: u32,
    pub max_connections: Option<u32>,
    pub response_time: Option<u64>,
    pub metadata: Map<Seq<char>, String>,
}

impl View for BackendInfo {
    type V = BackendView;

    open spec fn view(&self) -> BackendView {
        BackendView {
            id: self.id@,
            address: self.address,
            weight: self.weight,
            enabled: self.enabled,
            healthy: self.healthy,
            current_connections: self.current_connections,
            max_connections: self.max_connections,
            response_time: self.response_time,
            metadata: self.metadata@,
        }
    }
}

/// A backend is available when it is enabled and healthy.
pub open spec fn backend_available(b: BackendView) -> bool {
    b.enabled && b.healthy
}

/// A backend accepts a new connection when it is available and below its
/// connection limit, if it has one.
pub open spec fn backend_accepts(b: BackendView) -> bool {
    backend_available(b) && match b.max_connections {
        Some(m) => b.current_connections < m,
        None => true,
    }
}

/// The views of a sequence of backends.
pub open spec fn backend_views(s: Seq<BackendInfo>) -> Seq<BackendView> {
    s.map_values(|b: BackendInfo| b@)
}

/// The test for an available backend, as a function.
pub open spec fn available_pred() -> spec_fn(BackendView) -> bool {
    |b: BackendView| backend_available(b)
}

/// The test for a backend that accepts connections, as a function.
pub open spec fn accepting_pred() -> spec_fn(BackendView) -> bool {
    |b: BackendView| backend_accepts(b)
}

/// The test for a healthy backend, as a function.
pub open spec fn healthy_pred() -> spec_fn(BackendView) -> bool {
    |b: BackendView| b.healthy
}

/// The available backends, in order.
pub open spec fn available_views(s: Seq<BackendView>) -> Seq<BackendView> {
    s.filter(available_pred())
}

/// The backends that accept a new connection, in order.
pub open spec fn accepting_views(s: Seq<BackendView>) -> Seq<BackendView> {
    s.filter(accepting_pred())
}

/// The number of healthy backends.
pub open spec fn healthy_count(s: Seq<BackendView>) -> nat {
    s.filter(healthy_pred()).len()
}

/// Filtering a prefix one element longer.
pub proof fn lemma_filter_take_step<A>(s: Seq<A>, p: spec_fn(A) -> bool, i: int)
    requires
        0 <= i < s.len(),
    ensures
        s.take(i + 1).filter(p) == (if p(s[i]) {
            s.take(i).filter(p).push(s[i])
        } else {
            s.take(i).filter(p)
        }),
{
    reveal(Seq::filter);
    assert(s.take(i + 1).drop_last() =~= s.take(i));
    assert(s.take(i + 1).last() == s[i]);
}

/// Filtered elements pass the test and come from the sequence.
pub proof fn lemma_filter_members<A>(s: Seq<A>, p: spec_fn(A) -> bool)
    ensures
        forall|i: int| 0 <= i < s.filter(p).len() ==> p(#[trigger] s.filter(p)[i]) && s.contains(s.filter(p)[i]),
    decreases s.len(),
{
    reveal(Seq::filter);
    if s.len() > 0 {
        lemma_filter_members(s.drop_last(), p);
        let sub = s.drop_last().filter(p);
        assert forall|i: int| 0 <= i < s.filter(p).len() implies p(#[trigger] s.filter(p)[i]) && s.contains(s.filter(p)[i]) by {
            if i < sub.len() {
                assert(s.filter(p)[i] == sub[i]);
                let j = choose|j: int| 0 <= j < s.drop_last().len() && s.drop_last()[j] == sub[i];
                assert(s[j] == sub[i]);
            } else {
                assert(s.filter(p)[i] == s.last());
                assert(s[s.len() - 1] == s.last());
            }
        }
    }
}

/// Every backend that accepts a connection is available.
pub proof fn lemma_accepting_are_available(s: Seq<BackendView>)
    ensures
        available_views(accepting_views(s)) == accepting_views(s),
    decreases s.len(),
{
    reveal(Seq::filter);
    if s.len() > 0 {
        lemma_accepting_are_available(s.drop_last());
        let sub = accepting_views(s.drop_last());
        if accepting_pred()(s.last()) {
            assert(accepting_views(s) == sub.push(s.last()));
            assert(sub.push(s.last()).drop_last() == sub);
        } else {
            assert(accepting_views(s) == sub);
        }
    }
}

impl Clone for BackendInfo {
    fn clone(&self) -> (r: Self)
        ensures
            r@ == self@,
    {
        BackendInfo {
            id: self.id.clone(),
            address: self.address,
            weight: self.weight,
            enabled: self.enabled,
            healthy: self.healthy,
            current_connections: self.current_connections,
            max_connections: self.max_connections,
            response_time: self.response_time,
            metadata: self.metadata.clone_texts(),
        }
    }
}

impl BackendInfo {
    /// A backend with weight 1, enabled and healthy, with no connections, no
    /// connection limit, no response time and no metadata.
    pub fn new(id: String, address: Endpoint) -> (r: Self)
        ensures
            r@ == (BackendView {
                id: id@,
                address,
                weight: 1,
                enabled: true,
                healthy: true,
                current_connections: 0,
                max_connections: None,
                response_time: None,
                metadata: Map::empty(),
            }),
    {
        BackendInfo {
            id,
            address,
            weight: 1,
            enabled: true,
            healthy: true,
            current_connections: 0,
            max_connections: None,
            response_time: None,
            metadata: NameMap::new(),
        }
    }

    /// The same backend with another weight.
    pub fn with_weight(self, weight: u32) -> (r: Self)
        ensures
            r@ == (BackendView { weight, ..self@ }),
    {
        let mut b = self;
        b.weight = weight;
        b
    }

    /// The same backend with other metadata.
    pub fn with_metadata(self, metadata: NameMap<String>) -> (r: Self)
        ensures
            r@ == (BackendView { metadata: metadata@, ..self@ }),
    {
        let mut b = self;
        b.metadata = metadata;
        b
    }

    /// Whether the backend is enabled and healthy.
    pub fn is_available(&self) -> (r: bool)
        ensures
            r == backend_available(self@),
    {
        self.enabled && self.healthy
    }

    /// Whether the backend is available and below its connection limit.
    pub fn can_accept_connection(&self) -> (r: bool)
        ensures
            r == backend_accepts(self@),
    {
        if !self.is_available() {
            return false;
        }
        match self.max_connections {
            Some(max_conn) => self.current_connections < max_conn,
            None => true,
        }
    }
}

/// The information a routing decision is made from.
pub struct RoutingContext {
    pub client_addr: Endpoint,
    pub target_addr: Endpoint,
    pub protocol: Protocol,
    /// The server name requested in a TLS handshake.
    pub sni: Option<String>,
    pub headers: NameMap<String>,
    pub metadata: NameMap<String>,
    /// Identifies a session that should stay on one backend.
    pub session_id: Option<String>,
}

/// The characters of an optional string.
pub open spec fn opt_chars(o: Option<String>) -> Option<Seq<char>> {
    match o {
        Some(s) => Some(s@),
        None => None,
    }
}

/// `p` with every '*' written as the regular expression ".*".
pub open spec fn wildcard_regex(p: Seq<char>) -> Seq<char>
    decreases p.len(),
{
    if p.len() == 0 {
        Seq::empty()
    } else if p[0] == '*' {
        seq!['.', '*'] + wildcard_regex(p.drop_first())
    } else {
        seq![p[0]] + wildcard_regex(p.drop_first())
    }
}

/// Whether the `regex` crate finds a match of `pattern` anywhere in `text`
/// (`None` when it does not accept the pattern).
pub uninterp spec fn regex_search(pattern: Seq<char>, text: Seq<char>) -> Option<bool>;

/// Whether a server name matches an SNI pattern: a pattern with '*' is read as a
/// regular expression in which '*' stands for ".*" and may match anywhere in the
/// name; when that expression is not accepted, or the pattern has no '*', the
/// name must equal the pattern.
pub open spec fn sni_matches(sni: Option<Seq<char>>, pattern: Seq<char>) -> bool {
    match sni {
        None => false,
        Some(s) => if pattern.contains('*') && regex_search(wildcard_regex(pattern), s) is Some {
            regex_search(wildcard_regex(pattern), s)->0
        } else {
            s == pattern
        },
    }
}

/// Rewrites every '*' of `pattern` as ".*".
fn star_to_regex(pattern: &str) -> (r: String)
    ensures
        r@ == wildcard_regex(pattern@),
{
    let n = pattern.unicode_len();
    let mut r = String::new();
    let mut i: usize = 0;
    proof {
        reveal_strlit(".*");
        assert(pattern@.skip(0) =~= pattern@);
        assert(r@ + wildcard_regex(pattern@.skip(0)) =~= wildcard_regex(pattern@));
    }
    while i < n
        invariant
            n == pattern@.len(),
            i <= n,
            r@ + wildcard_regex(pattern@.skip(i as int)) == wildcard_regex(pattern@),
        decreases n - i,
    {
        let ghost before = r@;
        let ghost rest = pattern@.skip(i as int);
        assert(rest.drop_first() =~= pattern@.skip(i + 1));
        assert(rest[0] == pattern@[i as int]);
        let c = pattern.get_char(i);
        if c == '*' {
            r.append(".*");
            proof {
                reveal_strlit(".*");
                assert(".*"@ =~= seq!['.', '*']);
                assert(r@ + wildcard_regex(pattern@.skip(i + 1)) =~= before + wildcard_regex(rest));
            }
        } else {
            let piece = pattern.substring_char(i, i + 1);
            r.append(piece);
            proof {
                assert(piece@ =~= seq![c]);
                assert(r@ + wildcard_regex(pattern@.skip(i + 1)) =~= before + wildcard_regex(rest));
            }
        }
        i = i + 1;
    }
    proof {
        assert(pattern@.skip(n as int) =~= Seq::<char>::empty());
        assert(r@ =~= r@ + wildcard_regex(pattern@.skip(n as int)));
    }
    r
}

/// Compiles `pattern` with `regex::Regex::new` and, when that succeeds, asks
/// `Regex::is_match` whether it matches anywhere in `text`.  Both calls are made
/// here so that the outcome can be named as a function of the two texts.
#[verifier::external_body]
fn regex_find(pattern: &str, text: &str) -> (r: Option<bool>)
    ensures
        r == regex_search(pattern@, text@),
{
    match regex::Regex::new(pattern) {
        Ok(re) => Some(re.is_match(text)),
        Err(_) => None,
    }
}

/// Whether `s` holds the character '*'.
fn has_star(s: &str) -> (r: bool)
    ensures
        r == s@.contains('*'),
{
    let n = s.unicode_len();
    let mut i: usize = 0;
    while i < n
        invariant
            n == s@.len(),
            i <= n,
            forall|j: int| 0 <= j < i ==> s@[j] != '*',
        decreases n - i,
    {
        if s.get_char(i) == '*' {
            return true;
        }
        i = i + 1;
    }
    false
}

impl RoutingContext {
    /// The context's maps are well-formed.
    pub open spec fn wf(self) -> bool {
        self.headers.wf() && self.metadata.wf()
    }

    /// `self` is a context for a connection from `client_addr` to
    /// `target_addr` over `protocol`, with no server name, headers, metadata
    /// or session.
    pub open spec fn is_plain(self, client_addr: Endpoint, target_addr: Endpoint, protocol: Protocol) -> bool {
        &&& self.client_addr == client_addr
        &&& self.target_addr == target_addr
        &&& self.protocol == protocol
        &&& self.wf()
        &&& self.sni is None
        &&& self.headers@ == Map::<Seq<char>, String>::empty()
        &&& self.metadata@ == Map::<Seq<char>, String>::empty()
        &&& self.session_id is None
    }

    /// A context with no server name, headers, metadata or session.
    pub fn new(client_addr: Endpoint, target_addr: Endpoint, protocol: Protocol) -> (r: Self)
        ensures
            r.is_plain(client_addr, target_addr, protocol),
    {
        RoutingContext {
            client_addr,
            target_addr,
            protocol,
            sni: None,
            headers: NameMap::new(),
            metadata: NameMap::new(),
            session_id: None,
        }
    }

    /// The same context with a server name.
    pub fn with_sni(self, sni: String) -> (r: Self)
        ensures
            r == (RoutingContext { sni: Some(sni), ..self }),
    {
        let mut c = self;
        c.sni = Some(sni);
        c
    }

    /// The same context with other headers.
    pub fn with_headers(self, headers: NameMap<String>) -> (r: Self)
        ensures
            r == (RoutingContext { headers, ..self }),
    {
        let mut c = self;
        c.headers = headers;
        c
    }

    /// The same context with other metadata.
    pub fn with_metadata(self, metadata: NameMap<String>) -> (r: Self)
        ensures
            r == (RoutingContext { metadata, ..self }),
    {
        let mut c = self;
        c.metadata = metadata;
        c
    }

    /// The same context with a session id.
    pub fn with_session_id(self, session_id: String) -> (r: Self)
        ensures
            r == (RoutingContext { session_id: Some(session_id), ..self }),
    {
        let mut c = self;
        c.session_id = Some(session_id);
        c
    }

    /// The client's IP address.
    pub fn client_ip(&self) -> (r: IpAddress)
        ensures
            r == self.client_addr.ip,
    {
        self.client_addr.ip
    }

    /// The port the client connected to.
    pub fn target_port(&self) -> (r: u16)
        ensures
            r == self.target_addr.port,
    {
        self.target_addr.port
    }

    /// Whether the context's server name matches `pattern` (see `sni_matches`).
    pub fn matches_sni(&self, pattern: &str) -> (r: bool)
        ensures
            r == sni_matches(opt_chars(self.sni), pattern@),
    {
        match &self.sni {
            Some(sni) => {
                if has_star(pattern) {
                    let regex_text = star_to_regex(pattern);
                    match regex_find(regex_text.as_str(), sni.as_str()) {
                        Some(found) => {
                            return found;
                        },
                        None => {},
                    }
                }
                text_eq(sni.as_str(), pattern)
            },
            None => false,
        }
    }

    /// Whether the client's address lies in the CIDR block `cidr`.  CIDR blocks
    /// are not interpreted: no address lies in any block.
    pub fn client_in_cidr(&self, cidr: &str) -> (r: bool)
        ensures
            !r,
    {
        false
    }
}

/// Counters a router keeps about its work.
#[derive(Debug)]
pub struct RouterStats {
    pub name: String,
    pub total_requests: u64,
    pub successful_requests: u64,
    pub failed_requests: u64,
    pub active_connections: u32,
    pub backend_count: u32,
    pub healthy_backend_count: u32,
}

impl Default for RouterStats {
    fn default() -> (r: Self)
        ensures
            r.name@ == Seq::<char>::empty(),
            r.total_requests == 0,
            r.successful_requests == 0,
            r.failed_requests == 0,
            r.active_connections == 0,
            r.backend_count == 0,
            r.healthy_backend_count == 0,
    {
        RouterStats {
            name: String::new(),
            total_requests: 0,
            successful_requests: 0,
            failed_requests: 0,
            active_connections: 0,
            backend_count: 0,
            healthy_backend_count: 0,
        }
    }
}

impl Clone for RouterStats {
    fn clone(&self) -> (r: Self)
        ensures
            r == *self,
    {
        RouterStats {
            name: self.name.clone(),
            total_requests: self.total_requests,
            successful_requests: self.successful_requests,
            failed_requests: self.failed_requests,
            active_connections: self.active_connections,
            backend_count: self.backend_count,
            healthy_backend_count: self.healthy_backend_count,
        }
    }
}

/// A value in a router's configuration.
pub enum OptionValue {
    Bool(bool),
    Text(String),
    /// A number, a list, an object or null.
    Other,
}

/// What went wrong while routing.
#[derive(Debug)]
pub enum RouterError {
    /// No router (or router plugin) has this name.
    RouterNotFound(String),
    /// The router (first field) could not be made: its plugin (second field) is unknown.
    CreateFailed(String, String),
    /// On a reload, the new router (first field) could not be made: its plugin
    /// (second field) is unknown.
    CreateNewFailed(String, String),
}

impl RouterError {
    /// The error's message.
    pub fn message(&self) -> (r: String)
        ensures
            match self {
                RouterError::RouterNotFound(name) => r@ == "Router '"@ + name@ + "' not found"@,
                RouterError::CreateFailed(name, _) => r@ == "Failed to create router '"@ + name@ + "'"@,
                RouterError::CreateNewFailed(name, _) => r@ == "Failed to create new router '"@ + name@ + "'"@,
            },
    {
        match self {
            RouterError::RouterNotFound(name) => join3("Router '", name.as_str(), "' not found"),
            RouterError::CreateFailed(name, _) => join3("Failed to create router '", name.as_str(), "'"),
            RouterError::CreateNewFailed(name, _) => join3("Failed to create new router '", name.as_str(), "'"),
        }
    }
}

} // verus!
