use std::hash::BuildHasher;
use vstd::prelude::*;

verus! {

/// An IP address: version 4 as its 32-bit number, version 6 as its 128-bit number.
#[derive(Clone, Copy, Debug, PartialEq, Eq, Structural, Hash)]
pub enum IpAddress {
    V4(u32),
    V6(u128),
}

/// A socket address: an IP address and a port.
#[derive(Clone, Copy, Debug, PartialEq, Eq, Structural, Hash)]
pub struct Endpoint {
    pub ip: IpAddress,
    pub port: u16,
}

/// What std's parser for socket addresses makes of a text (`None` when it rejects it).
pub uninterp spec fn parsed_socket_addr(text: Seq<char>) -> Option<Endpoint>;

impl Endpoint {
    /// The socket address a text names, as std reads it (`None` when it does not).
    pub fn parse(text: &str) -> (r: Option<Endpoint>)
        ensures
            r == parsed_socket_addr(text@),
    {
        parse_socket_addr(text)
    }

    /// The text std writes for the address.
    pub fn to_text(&self) -> (r: String)
        ensures
            r@ == displayed_endpoint(*self),
    {
        endpoint_to_text(self)
    }
}

/// The text std writes for an IP address.
pub uninterp spec fn displayed_ip(ip: IpAddress) -> Seq<char>;

/// The text std writes for a socket address.
pub uninterp spec fn displayed_endpoint(e: Endpoint) -> Seq<char>;

/// The digest that std's `DefaultHasher` gives for an IP address.  The three
/// digests are fixed within one build for one target: std leaves the hashing
/// algorithm open across releases and writes integers in the machine's byte
/// order, so the library relies on no particular digest value, only on the
/// same input giving the same digest.
pub uninterp spec fn ip_digest(ip: IpAddress) -> u64;

/// The digest that std's `DefaultHasher` gives for a port number.
pub uninterp spec fn port_digest(port: u16) -> u64;

/// The digest that std's `DefaultHasher` gives for a text.
pub uninterp spec fn text_digest(text: Seq<char>) -> u64;

/// Parses a socket address with std's `FromStr` for `SocketAddr`.  The contract
/// names the outcome: it depends on the text alone.  (The flow label and scope
/// id of a version 6 address are not kept.)
#[verifier::external_body]
pub(crate) fn parse_socket_addr(text: &str) -> (r: Option<Endpoint>)
    ensures
        r == parsed_socket_addr(text@),
{
    match text.parse::<core::net::SocketAddr>() {
        Ok(core::net::SocketAddr::V4(a)) => Some(Endpoint { ip: IpAddress::V4(u32::from(*a.ip())), port: a.port() }),
        Ok(core::net::SocketAddr::V6(a)) => Some(Endpoint { ip: IpAddress::V6(u128::from(*a.ip())), port: a.port() }),
        Err(_) => None,
    }
}

/// Writes an IP address with std's `Display` for `IpAddr`; the text depends on
/// the address alone.
#[verifier::external_body]
pub(crate) fn ip_to_text(ip: &IpAddress) -> (r: String)
    ensures
        r@ == displayed_ip(*ip),
{
    match ip {
        IpAddress::V4(n) => core::net::IpAddr::V4(core::net::Ipv4Addr::from(*n)).to_string(),
        IpAddress::V6(n) => core::net::IpAddr::V6(core::net::Ipv6Addr::from(*n)).to_string(),
    }
}

/// Writes a socket address with std's `Display` for `SocketAddr`; the text
/// depends on the address alone.
#[verifier::external_body]
pub(crate) fn endpoint_to_text(e: &Endpoint) -> (r: String)
    ensures
        r@ == displayed_endpoint(*e),
{
    match e.ip {
        IpAddress::V4(n) => core::net::SocketAddr::new(core::net::IpAddr::V4(core::net::Ipv4Addr::from(n)), e.port).to_string(),
        IpAddress::V6(n) => core::net::SocketAddr::new(core::net::IpAddr::V6(core::net::Ipv6Addr::from(n)), e.port).to_string(),
    }
}

/// Hashes an IP address (as std's `IpAddr`) with a fresh `DefaultHasher`, through
/// `BuildHasher::hash_one`.  std documents that every `DefaultHasher` made by
/// `new` or `default` starts in the same state, so the digest depends on the
/// address alone.
#[verifier::external_body]
pub(crate) fn hash_ip(ip: &IpAddress) -> (r: u64)
    ensures
        r == ip_digest(*ip),
{
    let build = std::hash::BuildHasherDefault::<std::collections::hash_map::DefaultHasher>::default();
    match ip {
        IpAddress::V4(n) => build.hash_one(core::net::IpAddr::V4(core::net::Ipv4Addr::from(*n))),
        IpAddress::V6(n) => build.hash_one(core::net::IpAddr::V6(core::net::Ipv6Addr::from(*n))),
    }
}

/// Hashes a port number with a fresh `DefaultHasher` (see `hash_ip`).
#[verifier::external_body]
pub(crate) fn hash_port(port: u16) -> (r: u64)
    ensures
        r == port_digest(port),
{
    std::hash::BuildHasherDefault::<std::collections::hash_map::DefaultHasher>::default().hash_one(port)
}

/// Hashes a text with a fresh `DefaultHasher` (see `hash_ip`).
#[verifier::external_body]
pub(crate) fn hash_text(text: &str) -> (r: u64)
    ensures
        r == text_digest(text@),
{
    std::hash::BuildHasherDefault::<std::collections::hash_map::DefaultHasher>::default().hash_one(text)
}

} // verus!
