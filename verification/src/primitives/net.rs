//! Destinations of connections.

use vstd::prelude::*;
use vstd::string::*;

use crate::address::{ip_text, IpAddress, SocketAddress};
use crate::sniff::SniffedProtocol;
use crate::text::{decimal_text, number_text};

verus! {

/// A host, by name or by address.
#[derive(Debug, PartialEq, Eq)]
pub enum SocketDestinationHost {
    DomainName(String),
    IpAddress(IpAddress),
}

impl Clone for SocketDestinationHost {
    fn clone(&self) -> (host: Self)
        ensures
            host == *self,
    {
        match self {
            SocketDestinationHost::DomainName(domain) => SocketDestinationHost::DomainName(
                domain.clone(),
            ),
            SocketDestinationHost::IpAddress(ip) => SocketDestinationHost::IpAddress(*ip),
        }
    }
}

impl SocketDestinationHost {
    /// The name, where the host is given by one.
    pub open spec fn domain_text(&self) -> Option<Seq<char>> {
        match self {
            SocketDestinationHost::DomainName(domain) => Some(domain@),
            SocketDestinationHost::IpAddress(_) => None,
        }
    }

    /// The host in text form.
    pub open spec fn text(&self) -> Seq<char> {
        match self {
            SocketDestinationHost::DomainName(domain) => domain@,
            SocketDestinationHost::IpAddress(ip) => ip_text(ip@),
        }
    }

    pub fn as_domain_name(&self) -> (domain: Option<String>)
        ensures
            match domain {
                Some(domain) => self.domain_text() == Some(domain@),
                None => self.domain_text() is None,
            },
    {
        match self {
            SocketDestinationHost::DomainName(domain) => Some(domain.clone()),
            SocketDestinationHost::IpAddress(_) => None,
        }
    }

    pub fn to_text(&self) -> (text: String)
        ensures
            text@ == self.text(),
    {
        match self {
            SocketDestinationHost::DomainName(domain) => domain.clone(),
            SocketDestinationHost::IpAddress(ip) => ip.to_text(),
        }
    }
}

/// Where a connection goes, and what routing knows of it besides.
#[derive(Debug, PartialEq, Eq)]
pub struct SocketDestination {
    pub host: SocketDestinationHost,
    pub port: u16,
    /// The domain that routing goes by. It never changes where the connection goes.
    pub routing_domain: Option<String>,
    /// The protocol that the connection was recognised as.
    pub routing_protocol: Option<SniffedProtocol>,
}

impl Clone for SocketDestination {
    fn clone(&self) -> (destination: Self)
        ensures
            destination == *self,
    {
        SocketDestination {
            host: self.host.clone(),
            port: self.port,
            routing_domain: match &self.routing_domain {
                Some(domain) => Some(domain.clone()),
                None => None,
            },
            routing_protocol: self.routing_protocol,
        }
    }
}

impl SocketDestination {
    /// The domain that routing goes by: the one that was found out, else the host's name.
    pub open spec fn routing_domain_text(&self) -> Option<Seq<char>> {
        match self.routing_domain {
            Some(domain) => Some(domain@),
            None => self.host.domain_text(),
        }
    }

    /// Host and port in text form.
    pub open spec fn text(&self) -> Seq<char> {
        self.host.text() + ":"@ + decimal_text(self.port as nat)
    }

    pub fn routing_domain(&self) -> (domain: Option<String>)
        ensures
            match domain {
                Some(domain) => self.routing_domain_text() == Some(domain@),
                None => self.routing_domain_text() is None,
            },
    {
        match &self.routing_domain {
            Some(domain) => Some(domain.clone()),
            None => self.host.as_domain_name(),
        }
    }

    pub fn routing_protocol(&self) -> (protocol: Option<SniffedProtocol>)
        ensures
            protocol == self.routing_protocol,
    {
        self.routing_protocol
    }

    pub fn set_routing_domain(&mut self, domain: Option<String>)
        ensures
            *final(self) == (SocketDestination { routing_domain: domain, ..*old(self) }),
    {
        self.routing_domain = domain;
    }

    pub fn to_text(&self) -> (text: String)
        ensures
            text@ == self.text(),
    {
        let mut text = self.host.to_text();
        text.append(":");
        text.append(number_text(self.port as u128).as_str());
        text
    }

    /// The destination as log lines show it: an address with the domain that was found out for
    /// it in parentheses.
    pub fn route_label(&self) -> (label: String)
        ensures
            label@ == match (self.host, self.routing_domain) {
                (SocketDestinationHost::IpAddress(_), Some(domain)) => self.text() + " ("@ + domain@
                    + ")"@,
                _ => self.text(),
            },
    {
        let mut label = self.to_text();
        match (&self.host, &self.routing_domain) {
            (SocketDestinationHost::IpAddress(_), Some(domain)) => {
                label.append(" (");
                label.append(domain.as_str());
                label.append(")");
            },
            _ => {},
        }
        label
    }

    /// The addresses to connect to, `looked_up` being what a name server says of a name.
    pub open spec fn resolved(&self, looked_up: Seq<SocketAddress>) -> Seq<SocketAddress> {
        match self.host {
            SocketDestinationHost::DomainName(_) => looked_up,
            SocketDestinationHost::IpAddress(ip) => seq![SocketAddress::new(ip, self.port)],
        }
    }

    /// The addresses to connect to, `looked_up` being what a name server says of a name.
    pub fn resolve(&self, looked_up: Vec<SocketAddress>) -> (addresses: Vec<SocketAddress>)
        ensures
            addresses@ == self.resolved(looked_up@),
    {
        match &self.host {
            SocketDestinationHost::DomainName(_) => looked_up,
            SocketDestinationHost::IpAddress(ip) => {
                let addresses = vec![SocketAddress::new(*ip, self.port)];
                assert(addresses@ =~= self.resolved(looked_up@));
                addresses
            },
        }
    }

    /// The addresses to connect to that a socket at `source` can reach.
    pub fn resolve_to_socket_addresses_for_source(
        &self,
        looked_up: Vec<SocketAddress>,
        source: &SocketAddress,
    ) -> (addresses: Vec<SocketAddress>)
        ensures
            addresses@ == reachable(self.resolved(looked_up@), *source),
    {
        addresses_for_source(&self.resolve(looked_up), source)
    }

    /// The next step in the search for an address that can be connected to. `tested` says of the
    /// first addresses, in their order, whether a connection could be made.
    pub fn resolve_connectable(&self, looked_up: Vec<SocketAddress>, tested: &[bool]) -> (step:
        ConnectableStep)
        requires
            tested@.len() <= self.resolved(looked_up@).len(),
        ensures
            step == connectable_step(self.resolved(looked_up@), tested@),
    {
        let addresses = self.resolve(looked_up);
        let mut index: usize = 0;
        while index < tested.len()
            invariant
                index <= tested@.len() <= addresses@.len(),
                addresses@ == self.resolved(looked_up@),
                forall|at: int| 0 <= at < index ==> !#[trigger] tested@[at],
            decreases tested@.len() - index,
        {
            if tested[index] {
                proof {
                    lemma_first_true(tested@, index as int);
                }
                return ConnectableStep::Found(addresses[index]);
            }
            index += 1;
        }
        assert(!tested@.contains(true));
        if tested.len() < addresses.len() {
            ConnectableStep::Test(addresses[tested.len()])
        } else {
            ConnectableStep::NotFound
        }
    }
}

/// What the search for an address that can be connected to does next.
#[derive(Clone, Copy, Debug, PartialEq, Eq)]
pub enum ConnectableStep {
    /// Try to connect to this address.
    Test(SocketAddress),
    /// This is the first address that could be connected to.
    Found(SocketAddress),
    NotFound,
}

/// The step that follows once the first addresses are tested: the first good one is taken, else
/// the next one is tested.
pub open spec fn connectable_step(
    addresses: Seq<SocketAddress>,
    tested: Seq<bool>,
) -> ConnectableStep {
    if tested.contains(true) {
        ConnectableStep::Found(addresses[tested.index_of_first(true)->Some_0])
    } else if tested.len() < addresses.len() {
        ConnectableStep::Test(addresses[tested.len() as int])
    } else {
        ConnectableStep::NotFound
    }
}

proof fn lemma_first_true(tested: Seq<bool>, at: int)
    requires
        0 <= at < tested.len(),
        tested[at],
        forall|before: int| 0 <= before < at ==> !#[trigger] tested[before],
    ensures
        tested.contains(true),
        tested.index_of_first(true) == Some(at),
{
    assert(tested.contains(tested[at]));
    tested.index_of_first_ensures(true);
}

/// Finding out a routing domain does not change where the connection goes.
pub proof fn law_routing_domain_keeps_the_target(
    destination: SocketDestination,
    domain: Option<String>,
)
    ensures
        ({
            let routed = SocketDestination { routing_domain: domain, ..destination };
            &&& routed.host == destination.host
            &&& routed.port == destination.port
            &&& routed.text() == destination.text()
            &&& domain is Some ==> routed.routing_domain_text() == Some(domain->Some_0@)
        }),
{
}

/// The version of the addresses of a socket.
pub open spec fn ip_version(address: SocketAddress) -> int {
    if address is V4 {
        4
    } else {
        6
    }
}

pub fn get_ip_version(address: &SocketAddress) -> (version: u8)
    ensures
        version == ip_version(*address),
{
    if address.is_ipv4() {
        4
    } else {
        6
    }
}

/// The addresses that a socket at `source` can reach: those of its own version, in their order.
pub open spec fn reachable(addresses: Seq<SocketAddress>, source: SocketAddress) -> Seq<
    SocketAddress,
> {
    addresses.filter(|address: SocketAddress| ip_version(address) == ip_version(source))
}

/// The addresses that a socket at `source` can reach.
pub fn addresses_for_source(addresses: &Vec<SocketAddress>, source: &SocketAddress) -> (kept: Vec<
    SocketAddress,
>)
    ensures
        kept@ == reachable(addresses@, *source),
{
    let mut kept: Vec<SocketAddress> = Vec::new();
    let version: u8 = get_ip_version(source);
    let mut index: usize = 0;
    proof {
        reveal(Seq::filter);
        assert(addresses@.take(0) =~= Seq::empty());
    }
    while index < addresses.len()
        invariant
            index <= addresses@.len(),
            version == ip_version(*source),
            kept@ == reachable(addresses@.take(index as int), *source),
        decreases addresses@.len() - index,
    {
        proof {
            reveal(Seq::filter);
            assert(addresses@.take(index + 1).drop_last() =~= addresses@.take(index as int));
        }
        if get_ip_version(&addresses[index]) == version {
            kept.push(addresses[index]);
        }
        index += 1;
    }
    assert(addresses@.take(addresses@.len() as int) =~= addresses@);
    kept
}

/// A destination by address is that address at its port; one by name is what was looked up.
pub proof fn law_addresses_need_no_lookup(
    destination: SocketDestination,
    looked_up: Vec<SocketAddress>,
    addresses: Vec<SocketAddress>,
)
    requires
        call_ensures(SocketDestination::resolve, (&destination, looked_up), addresses),
    ensures
        destination.host matches SocketDestinationHost::IpAddress(ip) ==> addresses@.len() == 1
            && addresses@[0]@.ip == ip@ && addresses@[0]@.port == destination.port,
        destination.host is DomainName ==> addresses@ == looked_up@,
{
}

/// The routing domain is the one that was found out, else the host's own name.
pub proof fn law_found_domains_come_first(
    destination: SocketDestination,
    domain: Option<String>,
)
    requires
        call_ensures(SocketDestination::routing_domain, (&destination,), domain),
    ensures
        destination.routing_domain matches Some(found) ==> domain is Some && domain->Some_0@
            == found@,
        destination.routing_domain is None && destination.host is DomainName ==> domain is Some
            && domain->Some_0@ == destination.host->DomainName_0@,
        destination.routing_domain is None && destination.host is IpAddress ==> domain is None,
{
}

/// The first address that a connection could be made to is taken; while none could, the addresses
/// are tested one after the other.
pub proof fn law_addresses_are_tested_in_order(
    addresses: Seq<SocketAddress>,
    tested: Seq<bool>,
    index: int,
)
    requires
        tested.len() <= addresses.len(),
    ensures
        0 <= index < tested.len() && tested[index] && (forall|i: int|
            0 <= i < index ==> !#[trigger] tested[i]) ==> connectable_step(addresses, tested)
            == ConnectableStep::Found(addresses[index]),
        (forall|i: int| 0 <= i < tested.len() ==> !#[trigger] tested[i]) && tested.len()
            < addresses.len() ==> connectable_step(addresses, tested) == ConnectableStep::Test(
            addresses[tested.len() as int],
        ),
        (forall|i: int| 0 <= i < tested.len() ==> !#[trigger] tested[i]) && tested.len()
            == addresses.len() ==> connectable_step(addresses, tested) is NotFound,
{
    if 0 <= index < tested.len() && tested[index] && forall|i: int|
        0 <= i < index ==> !#[trigger] tested[i] {
        lemma_first_true(tested, index);
    }
}

/// A socket reaches exactly the addresses of its own version.
pub proof fn law_sockets_reach_their_own_version(
    addresses: Seq<SocketAddress>,
    source: SocketAddress,
    address: SocketAddress,
)
    ensures
        reachable(addresses, source).contains(address) <==> addresses.contains(address)
            && address@.ip.len() == source@.ip.len(),
{
    let same = |address: SocketAddress| ip_version(address) == ip_version(source);
    assert(same(address) <==> address@.ip.len() == source@.ip.len());
    if addresses.contains(address) && same(address) {
        let i = choose|i: int| 0 <= i < addresses.len() && addresses[i] == address;
        addresses.lemma_filter_contains(same, i);
    }
    if reachable(addresses, source).contains(address) {
        addresses.lemma_filter_contains_rev(same, address);
        let kept = reachable(addresses, source);
        let i = choose|i: int| 0 <= i < kept.len() && kept[i] == address;
        addresses.lemma_filter_pred(same, i);
    }
}

/// The version of an address is 4 or 6.
pub proof fn law_addresses_have_a_version(address: SocketAddress, version: u8)
    requires
        call_ensures(get_ip_version, (&address,), version),
    ensures
        version == 4 <==> address@.ip.len() == 4,
        version == 6 <==> address@.ip.len() == 16,
{
}

} // verus!
