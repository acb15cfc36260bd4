//! Connections from a chosen address or interface.

use vstd::prelude::*;
use vstd::string::*;

use super::error::{OutputError, OutputFault};
use crate::address::{IpAddress, SocketAddress};
use crate::text::same_text;

verus! {

/// One address of a network interface of this machine.
#[derive(Clone, Debug, PartialEq, Eq)]
pub struct InterfaceAddress {
    pub name: String,
    pub ip: IpAddress,
}

/// The first IPv4 address of the interface with that name.
pub open spec fn interface_ip(interfaces: Seq<InterfaceAddress>, name: Seq<char>) -> Option<
    IpAddress,
>
    decreases interfaces.len(),
{
    if interfaces.len() == 0 {
        None
    } else if interfaces[0].name@ == name && interfaces[0].ip is V4 {
        Some(interfaces[0].ip)
    } else {
        interface_ip(interfaces.skip(1), name)
    }
}

/// The first IPv4 address of the interface with that name.
pub fn resolve_interface_ip(iface: &str, interfaces: &Vec<InterfaceAddress>) -> (ip: Option<
    IpAddress,
>)
    ensures
        ip == interface_ip(interfaces@, iface@),
{
    let mut index: usize = 0;
    assert(interfaces@.skip(0) =~= interfaces@);
    while index < interfaces.len()
        invariant
            index <= interfaces@.len(),
            interface_ip(interfaces@, iface@) == interface_ip(
                interfaces@.skip(index as int),
                iface@,
            ),
        decreases interfaces@.len() - index,
    {
        proof {
            assert(interfaces@.skip(index as int)[0] == interfaces@[index as int]);
            assert(interfaces@.skip(index as int).skip(1) =~= interfaces@.skip(index + 1));
        }
        if same_text(interfaces[index].name.as_str(), iface) && interfaces[index].ip.is_ipv4() {
            return Some(interfaces[index].ip);
        }
        index += 1;
    }
    None
}

/// An IP address, or an interface by its name.
#[derive(Clone, Debug, PartialEq, Eq)]
pub enum LocalIpOrInterface {
    Ip(IpAddress),
    Interface(String),
}

impl LocalIpOrInterface {
    pub open spec fn resolved(&self, interfaces: Seq<InterfaceAddress>) -> Option<IpAddress> {
        match self {
            LocalIpOrInterface::Ip(ip) => Some(*ip),
            LocalIpOrInterface::Interface(name) => interface_ip(interfaces, name@),
        }
    }

    /// The address to use, on a machine with these interfaces.
    pub fn resolve(&self, interfaces: &Vec<InterfaceAddress>) -> (ip: Option<IpAddress>)
        ensures
            ip == self.resolved(interfaces@),
    {
        match self {
            LocalIpOrInterface::Ip(ip) => Some(*ip),
            LocalIpOrInterface::Interface(name) => resolve_interface_ip(name.as_str(), interfaces),
        }
    }
}

/// How a connection is made.
#[derive(Clone, Copy, Debug, PartialEq, Eq)]
pub enum LocalConnect {
    /// From any address.
    Unbound,
    /// From this address, over a socket for IPv6 or IPv4.
    Bound { from: SocketAddress, ipv6: bool },
}

/// An output that may be bound to an address.
#[derive(Clone, Copy, Debug, PartialEq, Eq)]
pub struct LocalOutput {
    pub bind_addr: Option<IpAddress>,
}

impl LocalOutput {
    /// The address that `bind` resolves to.
    pub open spec fn bound_to(
        bind: Option<LocalIpOrInterface>,
        interfaces: Seq<InterfaceAddress>,
    ) -> Option<IpAddress> {
        match bind {
            Some(bind) => bind.resolved(interfaces),
            None => None,
        }
    }

    pub fn new(bind: Option<LocalIpOrInterface>, interfaces: &Vec<InterfaceAddress>) -> (output:
        Self)
        ensures
            output.bind_addr == Self::bound_to(bind, interfaces@),
    {
        let bind_addr = match bind {
            Some(bind) => bind.resolve(interfaces),
            None => None,
        };
        LocalOutput { bind_addr }
    }

    /// How a connection to `target` is made: with any port of the bound address, over a socket of
    /// the target's kind.
    pub fn plan(&self, target: &SocketAddress) -> (plan: LocalConnect)
        ensures
            plan == match self.bind_addr {
                Some(ip) => LocalConnect::Bound {
                    from: SocketAddress::new(ip, 0),
                    ipv6: *target is V6,
                },
                None => LocalConnect::Unbound,
            },
    {
        match self.bind_addr {
            Some(ip) => LocalConnect::Bound {
                from: SocketAddress::new(ip, 0),
                ipv6: !target.is_ipv4(),
            },
            None => LocalConnect::Unbound,
        }
    }
}

/// The address to connect to: `parsed`, where the target is an address, else the first that was
/// looked up.
pub fn resolve_target(
    target: &str,
    parsed: Option<SocketAddress>,
    looked_up: &Vec<SocketAddress>,
) -> (result: Result<SocketAddress, OutputError>)
    ensures
        match result {
            Ok(address) => match parsed {
                Some(parsed) => address == parsed,
                None => looked_up@.len() > 0 && address == looked_up@[0],
            },
            Err(error) => parsed is None && looked_up@.len() == 0 && error@
                == OutputFault::InvalidTarget("no addresses found for "@ + target@),
        },
{
    if let Some(address) = parsed {
        return Ok(address);
    }
    if looked_up.len() > 0 {
        return Ok(looked_up[0]);
    }
    let mut message = "no addresses found for ".to_owned();
    message.append(target);
    Err(OutputError::InvalidTarget(message))
}

/// An interface stands for its first IPv4 address: every one of the same name before it is none.
pub proof fn law_interfaces_stand_for_their_first_ipv4_address(
    interfaces: Seq<InterfaceAddress>,
    name: Seq<char>,
    index: int,
)
    ensures
        0 <= index < interfaces.len() && interfaces[index].name@ == name && interfaces[index].ip
            is V4 && (forall|i: int|
            0 <= i < index ==> (#[trigger] interfaces[i]).name@ != name || interfaces[i].ip is V6)
            ==> interface_ip(interfaces, name) == Some(interfaces[index].ip),
        (forall|i: int|
            0 <= i < interfaces.len() ==> (#[trigger] interfaces[i]).name@ != name
                || interfaces[i].ip is V6) ==> interface_ip(interfaces, name) is None,
    decreases interfaces.len(),
{
    if interfaces.len() > 0 {
        let rest = interfaces.skip(1);
        law_interfaces_stand_for_their_first_ipv4_address(rest, name, index - 1);
        if 0 < index < interfaces.len() && forall|i: int|
            0 <= i < index ==> (#[trigger] interfaces[i]).name@ != name || interfaces[i].ip is V6 {
            assert(interfaces[0].name@ != name || interfaces[0].ip is V6);
            assert forall|i: int| 0 <= i < index - 1 implies (#[trigger] rest[i]).name@ != name
                || rest[i].ip is V6 by {
                assert(rest[i] == interfaces[i + 1]);
            }
        }
        if forall|i: int|
            0 <= i < interfaces.len() ==> (#[trigger] interfaces[i]).name@ != name
                || interfaces[i].ip is V6 {
            assert(interfaces[0].name@ != name || interfaces[0].ip is V6);
            assert forall|i: int| 0 <= i < rest.len() implies (#[trigger] rest[i]).name@ != name
                || rest[i].ip is V6 by {
                assert(rest[i] == interfaces[i + 1]);
            }
        }
    }
}

/// A connection of a bound output leaves from any port of the bound address, over a socket of the
/// target's kind; without a binding it leaves from anywhere.
pub proof fn law_bound_outputs_connect_from_their_address(
    bind: Option<LocalIpOrInterface>,
    interfaces: &Vec<InterfaceAddress>,
    output: LocalOutput,
    target: &SocketAddress,
    plan: LocalConnect,
)
    requires
        call_ensures(LocalOutput::new, (bind, interfaces), output),
        call_ensures(LocalOutput::plan, (&output, target), plan),
    ensures
        bind is None ==> plan is Unbound,
        bind matches Some(LocalIpOrInterface::Ip(ip)) ==> plan matches LocalConnect::Bound {
            from,
            ipv6,
        } && from@.ip == ip@ && from@.port == 0 && from@.scope_id == 0 && (ipv6 <==> target@.ip.len()
            == 16),
        bind matches Some(LocalIpOrInterface::Interface(name)) ==> (plan is Unbound
            <==> interface_ip(interfaces@, name@) is None),
{
}

/// A target that is an address is connected to as it is; any other at the first address that was
/// looked up, and without one it is refused.
pub proof fn law_first_looked_up_address_is_taken(
    target: &str,
    parsed: Option<SocketAddress>,
    looked_up: &Vec<SocketAddress>,
    result: Result<SocketAddress, OutputError>,
)
    requires
        call_ensures(resolve_target, (target, parsed, looked_up), result),
    ensures
        parsed matches Some(address) ==> result == Ok::<_, OutputError>(address),
        parsed is None && looked_up@.len() > 0 ==> result == Ok::<_, OutputError>(looked_up@[0]),
        result is Err <==> parsed is None && looked_up@.len() == 0,
{
}

/// A target that is an address is taken as it is; else the first address that was found counts, and
/// without one the target is refused.
pub proof fn law_targets_are_resolved(
    target: &str,
    parsed: Option<SocketAddress>,
    looked_up: Vec<SocketAddress>,
    result: Result<SocketAddress, OutputError>,
)
    requires
        call_ensures(resolve_target, (target, parsed, &looked_up), result),
    ensures
        parsed matches Some(address) ==> result == Ok::<_, OutputError>(address),
        parsed is None && looked_up@.len() > 0 ==> result == Ok::<_, OutputError>(looked_up@[0]),
        parsed is None && looked_up@.len() == 0 ==> (result matches Err(error) && error@
            == OutputFault::InvalidTarget("no addresses found for "@ + target@)),
{
}

} // verus!
