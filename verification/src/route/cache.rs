//! Routes that were found before.

use std::sync::Arc;

use vstd::prelude::*;

use super::routes::RouteMatch;
use crate::primitives::net::{SocketDestination, SocketDestinationHost};
use crate::sniff::SniffedProtocol;

verus! {

/// A cache of `moka`.
#[verifier::external_type_specification]
#[verifier::external_body]
#[verifier::reject_recursive_types(K)]
#[verifier::reject_recursive_types(V)]
#[verifier::reject_recursive_types(S)]
pub struct ExCache<K, V, S>(moka::sync::Cache<K, V, S>);

/// What a route is found for: the name of the host, else the octets of its address, the port, the
/// domain that was found out, and the number of the protocol.
pub type RouteKey = (Option<String>, Vec<u8>, u16, Option<String>, u8);

/// A `RouteKey` in mathematical form.
pub type RouteKeyModel = (Option<Seq<char>>, Seq<u8>, u16, Option<Seq<char>>, u8);

pub type RouteCache = moka::sync::Cache<RouteKey, Arc<Vec<RouteMatch>>>;

/// Routes by what they were found for.
pub type RouteTable = Map<RouteKeyModel, Seq<RouteMatch>>;

/// An empty table.
pub open spec fn no_routes() -> RouteTable {
    Map::empty()
}

/// The characters of a text that may be missing.
pub open spec fn text_of(text: Option<String>) -> Option<Seq<char>> {
    match text {
        Some(text) => Some(text@),
        None => None,
    }
}

pub open spec fn key_view(key: RouteKey) -> RouteKeyModel {
    (text_of(key.0), key.1@, key.2, text_of(key.3), key.4)
}

/// What a cache was given since it was last emptied. It may forget any of it at any time.
pub uninterp spec fn cache_contents(
    cache: moka::sync::Cache<RouteKey, Arc<Vec<RouteMatch>>>,
) -> Map<RouteKeyModel, Seq<RouteMatch>>;

/// The longest time to live that a cache can be built with, in seconds: a thousand years.
pub const MAX_TIME_TO_LIVE_SECS: u64 = 31_536_000_000;

/// `moka::sync::CacheBuilder::build` with a time to live: an empty cache. It panics where the time
/// to live is longer than a thousand years.
#[verifier::external_body]
pub(crate) fn new_cache(time_to_live_secs: u64) -> (cache: RouteCache)
    requires
        time_to_live_secs <= MAX_TIME_TO_LIVE_SECS,
    ensures
        cache_contents(cache) == no_routes(),
{
    moka::sync::Cache::builder()
        .time_to_live(std::time::Duration::from_secs(time_to_live_secs))
        .build()
}

/// `moka::sync::Cache::get`: what was last inserted for the key since the cache was emptied, or
/// nothing. When the cache forgets is not stated.
#[verifier::external_body]
pub(crate) fn cache_get(cache: &RouteCache, key: &RouteKey) -> (routes: Option<
    Arc<Vec<RouteMatch>>,
>)
    ensures
        routes matches Some(routes) ==> cache_contents(*cache).contains_key(key_view(*key))
            && routes@ == cache_contents(*cache)[key_view(*key)],
{
    cache.get(key)
}

/// `moka::sync::Cache::insert`: sets the value of the key.
#[verifier::external_body]
pub(crate) fn cache_insert(cache: &mut RouteCache, key: RouteKey, routes: Arc<Vec<RouteMatch>>)
    ensures
        cache_contents(*final(cache)) == cache_contents(*old(cache)).insert(key_view(key), routes@),
{
    cache.insert(key, routes);
}

/// `moka::sync::Cache::invalidate_all`: nothing that was inserted before is returned any more.
#[verifier::external_body]
pub(crate) fn cache_clear(cache: &mut RouteCache)
    ensures
        cache_contents(*final(cache)) == no_routes(),
{
    cache.invalidate_all();
}

/// The number of a protocol that may be missing.
pub open spec fn protocol_number(protocol: Option<SniffedProtocol>) -> u8 {
    match protocol {
        None => 0,
        Some(SniffedProtocol::Tls) => 1,
        Some(SniffedProtocol::Http) => 2,
        Some(SniffedProtocol::Quic) => 3,
        Some(SniffedProtocol::Ssh) => 4,
    }
}

/// What the routes of a destination are kept for.
pub open spec fn destination_key(destination: SocketDestination) -> RouteKeyModel {
    (
        destination.host.domain_text(),
        match destination.host {
            SocketDestinationHost::DomainName(_) => Seq::empty(),
            SocketDestinationHost::IpAddress(ip) => ip@,
        },
        destination.port,
        text_of(destination.routing_domain),
        protocol_number(destination.routing_protocol),
    )
}

/// What the routes of a name to resolve are kept for.
pub open spec fn name_key(domain: Seq<char>) -> RouteKeyModel {
    (Some(domain), Seq::empty(), 0, None, 0)
}

pub(crate) fn key_of_destination(destination: &SocketDestination) -> (key: RouteKey)
    ensures
        key_view(key) == destination_key(*destination),
{
    let octets: Vec<u8> = match &destination.host {
        SocketDestinationHost::DomainName(_) => Vec::new(),
        SocketDestinationHost::IpAddress(ip) => vstd::slice::slice_to_vec(ip.octets()),
    };
    let protocol: u8 = match destination.routing_protocol {
        None => 0,
        Some(SniffedProtocol::Tls) => 1,
        Some(SniffedProtocol::Http) => 2,
        Some(SniffedProtocol::Quic) => 3,
        Some(SniffedProtocol::Ssh) => 4,
    };
    let routing_domain = match &destination.routing_domain {
        Some(domain) => Some(domain.clone()),
        None => None,
    };
    let host = destination.host.as_domain_name();
    (host, octets, destination.port, routing_domain, protocol)
}

pub(crate) fn key_of_name(domain: &str) -> (key: RouteKey)
    ensures
        key_view(key) == name_key(domain@),
{
    (Some(domain.to_owned()), Vec::new(), 0, None, 0)
}

/// Destinations that differ in what routing goes by are kept apart.
pub proof fn law_destinations_are_kept_apart(a: SocketDestination, b: SocketDestination)
    requires
        destination_key(a) == destination_key(b),
    ensures
        a.host.text() == b.host.text(),
        a.host is DomainName <==> b.host is DomainName,
        a.port == b.port,
        a.routing_domain_text() == b.routing_domain_text(),
        a.routing_protocol == b.routing_protocol,
{
    assert(a.host.domain_text() == b.host.domain_text());
    assert(protocol_number(a.routing_protocol) == protocol_number(b.routing_protocol));
}

} // verus!
