//! The target of a relayed TCP connection.

use vstd::prelude::*;
use vstd::string::*;
use vstd::utf8::*;

use crate::address::{ip_text, socket_address_text, IpAddress, SocketAddress};
use crate::text::{decimal_text, number_text};

verus! {

/// How TCP relays appear in the log.
#[derive(Clone, Copy, Debug)]
pub struct TcpRelayLogConfig {
    pub prefix: &'static str,
}

impl Default for TcpRelayLogConfig {
    fn default() -> (config: Self)
        ensures
            config.prefix@ == "TCP"@,
    {
        TcpRelayLogConfig { prefix: "TCP" }
    }
}

impl TcpRelayLogConfig {
    pub fn with_prefix(self, prefix: &'static str) -> (config: Self)
        ensures
            config.prefix@ == prefix@,
    {
        TcpRelayLogConfig { prefix }
    }
}

#[derive(Clone, Debug, PartialEq, Eq)]
pub enum TcpRelayError {
    /// An I/O error, by its operating system code where it has one.
    Io(Option<i32>),
    Connect(String),
    Relay(String),
}

/// What is known of an address that stands for another one.
#[derive(Clone, Debug, PartialEq, Eq)]
pub struct FakeIpEntry {
    pub real_ip: IpAddress,
    pub hostname: Option<String>,
}

/// Where a connection goes.
#[derive(Clone, Debug, PartialEq, Eq)]
pub struct ResolvedTarget {
    /// `hostname:port` or `ip:port`.
    pub target: String,
    /// The address, where it is known without asking a name server.
    pub resolved_ip: Option<IpAddress>,
}

/// A destination as a SOCKS5 client names it.
#[derive(Clone, Debug, PartialEq, Eq)]
pub enum Socks5Address {
    SocketAddress(SocketAddress),
    DomainAddress(Vec<u8>, u16),
}

/// A name or address with a port behind it.
pub open spec fn with_port(host: Seq<char>, port: u16) -> Seq<char> {
    host + ":"@ + decimal_text(port as nat)
}

/// The target for an original destination: by name where the address stands for one, since TLS
/// needs it, else by address.
pub open spec fn target_for(entry: Option<FakeIpEntry>, destination: SocketAddress) -> (
    Seq<char>,
    IpAddress,
) {
    match entry {
        Some(entry) => match entry.hostname {
            Some(hostname) => (with_port(hostname@, destination@.port), entry.real_ip),
            None => (with_port(ip_text(entry.real_ip@), destination@.port), entry.real_ip),
        },
        None => (socket_address_text(destination@), destination.ip()),
    }
}

fn text_with_port(host: &str, port: u16) -> (text: String)
    ensures
        text@ == with_port(host@, port),
{
    let mut text = host.to_owned();
    text.append(":");
    text.append(number_text(port as u128).as_str());
    text
}

/// The target for an original destination, `entry` being what is known of its address.
pub fn resolve_target(entry: Option<FakeIpEntry>, original_dst: SocketAddress) -> (resolved:
    ResolvedTarget)
    ensures
        resolved.target@ == target_for(entry, original_dst).0,
        resolved.resolved_ip == Some(target_for(entry, original_dst).1),
{
    match entry {
        Some(entry) => match &entry.hostname {
            Some(hostname) => ResolvedTarget {
                target: text_with_port(hostname.as_str(), original_dst.port()),
                resolved_ip: Some(entry.real_ip),
            },
            None => ResolvedTarget {
                target: text_with_port(entry.real_ip.to_text().as_str(), original_dst.port()),
                resolved_ip: Some(entry.real_ip),
            },
        },
        None => ResolvedTarget {
            target: original_dst.to_text(),
            resolved_ip: Some(original_dst.ip()),
        },
    }
}

/// The text that bytes stand for, with a replacement for what is no UTF-8.
pub uninterp spec fn lossy_text(bytes: Seq<u8>) -> Seq<char>;

/// `String::from_utf8_lossy`: the text of valid UTF-8, and for other bytes one that depends on
/// them alone.
#[verifier::external_body]
pub(crate) fn string_from_utf8_lossy(bytes: &[u8]) -> (text: String)
    ensures
        text@ == lossy_text(bytes@),
        valid_utf8(bytes@) ==> encode_utf8(text@) == bytes@,
{
    String::from_utf8_lossy(bytes).into_owned()
}

/// The target for a destination that a SOCKS5 client names, `entry` being what is known of its
/// address. A name stays a name, without an address.
pub fn resolve_target_from_socks5_address(addr: &Socks5Address, entry: Option<FakeIpEntry>) -> (
    resolved: ResolvedTarget)
    ensures
        match *addr {
            Socks5Address::SocketAddress(address) => resolved.target@ == target_for(
                entry,
                address,
            ).0 && resolved.resolved_ip == Some(target_for(entry, address).1),
            Socks5Address::DomainAddress(domain, port) => resolved.target@ == with_port(
                lossy_text(domain@),
                port,
            ) && resolved.resolved_ip is None,
        },
{
    match addr {
        Socks5Address::SocketAddress(address) => resolve_target(entry, *address),
        Socks5Address::DomainAddress(domain, port) => {
            let name = string_from_utf8_lossy(domain.as_slice());
            domain_target(name.as_str(), *port)
        },
    }
}

/// The target for a name.
pub fn domain_target(name: &str, port: u16) -> (resolved: ResolvedTarget)
    ensures
        resolved.target@ == with_port(name@, port),
        resolved.resolved_ip is None,
{
    ResolvedTarget { target: text_with_port(name, port), resolved_ip: None }
}

/// A destination that stands for a name is reached by the name, one that stands for an address by
/// that address, any other by itself, always at its own port. What is known of the address is
/// passed on.
pub proof fn law_targets_stand_for_their_destination(
    entry: Option<FakeIpEntry>,
    destination: SocketAddress,
    resolved: ResolvedTarget,
)
    requires
        call_ensures(resolve_target, (entry, destination), resolved),
    ensures
        entry matches Some(known) ==> resolved.resolved_ip == Some(known.real_ip) && (
        match known.hostname {
            Some(hostname) => resolved.target@ == hostname@ + seq![':'] + decimal_text(
                destination@.port as nat,
            ),
            None => resolved.target@ == ip_text(known.real_ip@) + seq![':'] + decimal_text(
                destination@.port as nat,
            ),
        }),
        entry is None ==> resolved.target@ == socket_address_text(destination@)
            && resolved.resolved_ip == Some(destination.ip()),
{
    reveal_strlit(":");
    assert(":"@ =~= seq![':']);
}

/// A name that a SOCKS5 client gives stays a name, with its port behind it; an address is treated
/// as a destination is.
pub proof fn law_client_names_stay_names(
    domain: Vec<u8>,
    port: u16,
    entry: Option<FakeIpEntry>,
    named: ResolvedTarget,
    address: SocketAddress,
    addressed: ResolvedTarget,
)
    requires
        call_ensures(
            resolve_target_from_socks5_address,
            (&Socks5Address::DomainAddress(domain, port), entry),
            named,
        ),
        call_ensures(
            resolve_target_from_socks5_address,
            (&Socks5Address::SocketAddress(address), entry),
            addressed,
        ),
    ensures
        named.resolved_ip is None,
        named.target@ == lossy_text(domain@) + seq![':'] + decimal_text(port as nat),
        addressed.target@ == target_for(entry, address).0,
        addressed.resolved_ip == Some(target_for(entry, address).1),
{
    reveal_strlit(":");
    assert(":"@ =~= seq![':']);
}

/// A name is handed on with its port, to be resolved by whoever connects.
pub proof fn law_names_are_handed_on(name: &str, port: u16, resolved: ResolvedTarget)
    requires
        call_ensures(domain_target, (name, port), resolved),
    ensures
        resolved.target@ == name@ + ":"@ + decimal_text(port as nat),
        resolved.resolved_ip is None,
{
}

} // verus!
