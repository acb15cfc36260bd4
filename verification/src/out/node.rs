//! The identity and the exits of an OUT node.

use vstd::prelude::*;

use super::config::dispatcher_views;
use super::dispatcher::{DispatcherModel, LocalOutDispatcher};
use crate::address::{unscoped, IpAddress, SocketAddress};
use crate::primitives::route::{
    advertised, exit_views, law_advertised_exits_are_the_proxied_ones,
    law_normal_form_keeps_the_named_exits, normalized, tags_have_proxy, Exit, OutExit, OutExits,
};
use crate::primitives::node::NodeId;

verus! {

/// How long a node waits before it connects to the hub again.
pub const HUB_RECONNECT_MILLIS: u64 = 5_000;

/// How the node reaches the hub.
#[derive(Debug, PartialEq, Eq)]
pub struct OutHubOptions {
    pub address: SocketAddress,
    pub connections: usize,
}

impl OutHubOptions {
    /// The number of connections to the hub: at least one.
    pub fn connection_count(&self) -> (count: usize)
        ensures
            count == if self.connections == 0 {
                1
            } else {
                self.connections
            },
    {
        if self.connections == 0 {
            1
        } else {
            self.connections
        }
    }
}

/// What an OUT node is made from.
pub struct OutOptions {
    pub local_out_dispatchers: Vec<LocalOutDispatcher>,
    pub listen: Option<SocketAddress>,
    pub advertise: Option<SocketAddress>,
    pub hub: OutHubOptions,
    pub context_dir: String,
}

impl OutOptions {
    /// An address is advertised only where the node listens, and with a port.
    pub open spec fn usable(&self) -> bool {
        (self.advertise is Some ==> self.listen is Some) && (self.advertise is Some
            ==> self.advertise->Some_0@.port != 0)
    }

    /// Whether a node can be made from the options.
    pub fn check(&self) -> (result: bool)
        ensures
            result == self.usable(),
    {
        match self.advertise {
            Some(address) => self.listen.is_some() && address.port() != 0,
            None => true,
        }
    }
}

/// A node through which traffic leaves.
pub struct Out {
    pub id: NodeId,
    pub exits: OutExits,
    pub local_out_dispatchers: Vec<LocalOutDispatcher>,
    pub listen: Option<SocketAddress>,
    pub advertise: Option<SocketAddress>,
    pub hub_options: OutHubOptions,
    pub context_dir: String,
}

/// The exits of all dispatchers, one after the other.
pub open spec fn all_exits(dispatchers: Seq<DispatcherModel>) -> Seq<Exit>
    decreases dispatchers.len(),
{
    if dispatchers.len() == 0 {
        Seq::empty()
    } else {
        all_exits(dispatchers.drop_last()) + dispatchers.last().exits
    }
}

proof fn lemma_joined_tags_have_proxy(front: Seq<Exit>, back: Seq<Exit>)
    requires
        tags_have_proxy(front),
        tags_have_proxy(back),
    ensures
        tags_have_proxy(front + back),
{
    let all = front + back;
    if exists|i: int| 0 <= i < all.len() && (#[trigger] all[i]) is Tag {
        let i = choose|i: int| 0 <= i < all.len() && (#[trigger] all[i]) is Tag;
        if i < front.len() {
            assert(front[i] is Tag);
            let k = choose|k: int| 0 <= k < front.len() && front[k] == Exit::Proxy;
            assert(all[k] == Exit::Proxy);
        } else {
            assert(back[i - front.len()] is Tag);
            let k = choose|k: int| 0 <= k < back.len() && back[k] == Exit::Proxy;
            assert(all[front.len() + k] == Exit::Proxy);
        }
    }
}

fn collect_exits(dispatchers: &Vec<LocalOutDispatcher>) -> (exits: Vec<OutExit>)
    ensures
        exit_views(exits@) == all_exits(dispatcher_views(dispatchers@)),
        tags_have_proxy(exit_views(exits@)),
{
    let mut exits: Vec<OutExit> = Vec::new();
    let ghost models = dispatcher_views(dispatchers@);
    let mut index: usize = 0;
    assert(exit_views(exits@) =~= all_exits(models.take(0)));
    while index < dispatchers.len()
        invariant
            index <= dispatchers@.len(),
            models == dispatcher_views(dispatchers@),
            exit_views(exits@) == all_exits(models.take(index as int)),
            tags_have_proxy(exit_views(exits@)),
        decreases dispatchers@.len() - index,
    {
        let ghost before = exit_views(exits@);
        let offered = dispatchers[index].exits().as_slice();
        let ghost own = exit_views(offered@);
        let mut inner: usize = 0;
        assert(before + own.take(0) =~= before);
        while inner < offered.len()
            invariant
                inner <= offered@.len(),
                own == exit_views(offered@),
                exit_views(exits@) == before + own.take(inner as int),
            decreases offered@.len() - inner,
        {
            let ghost held = exit_views(exits@);
            exits.push(offered[inner].clone());
            proof {
                assert(exit_views(exits@) =~= held.push(own[inner as int]));
                assert(own.take(inner + 1) =~= own.take(inner as int).push(own[inner as int]));
                assert(exit_views(exits@) =~= before + own.take(inner + 1));
            }
            inner += 1;
        }
        proof {
            assert(own.take(own.len() as int) =~= own);
            assert(models.take(index + 1).drop_last() =~= models.take(index as int));
            assert(models.take(index + 1).last() == dispatchers@[index as int]@);
            lemma_joined_tags_have_proxy(before, own);
        }
        index += 1;
    }
    assert(models.take(models.len() as int) =~= models);
    exits
}

impl Out {
    /// A node from usable options. It tells others of the exits of all its dispatchers.
    pub fn new(options: OutOptions) -> (out: Self)
        requires
            options.usable(),
        ensures
            out.id@[6] / 16 == 4,
            out.id@[8] / 64 == 2,
            out.exits@ == advertised(
                normalized(all_exits(dispatcher_views(options.local_out_dispatchers@))),
            ),
            out.local_out_dispatchers == options.local_out_dispatchers,
            out.listen == options.listen,
            out.advertise == options.advertise,
            out.hub_options == options.hub,
            out.context_dir == options.context_dir,
    {
        let exits = OutExits::new(collect_exits(&options.local_out_dispatchers)).for_advertising();
        Out {
            id: NodeId::new(),
            exits,
            local_out_dispatchers: options.local_out_dispatchers,
            listen: options.listen,
            advertise: options.advertise,
            hub_options: options.hub,
            context_dir: options.context_dir,
        }
    }
}

/// The address that other nodes are told to connect to: the configured one, else every address
/// with the port that the node listens on.
pub fn advertised_peer_endpoint(
    listen_address: SocketAddress,
    configured_advertise: Option<SocketAddress>,
) -> (address: SocketAddress)
    ensures
        match configured_advertise {
            Some(configured) => address == configured,
            None => address@ == unscoped((seq![0u8, 0u8, 0u8, 0u8], listen_address@.port)),
        },
{
    match configured_advertise {
        Some(configured) => configured,
        None => {
            let address = SocketAddress::new(IpAddress::V4([0; 4]), listen_address.port());
            assert(address@.ip =~= seq![0u8, 0u8, 0u8, 0u8]);
            address
        },
    }
}

/// An OUT node that another node can reach directly.
#[derive(Debug, PartialEq, Eq)]
pub struct PeerOut {
    /// The id that the node must give when it is connected to.
    pub provider_id: NodeId,
    pub exits: OutExits,
    pub address: SocketAddress,
}

/// A node advertises the proxy and the tags of its dispatchers where one of them is a proxy, and
/// never a direct exit.
pub proof fn law_nodes_advertise_their_proxied_exits(options: OutOptions, out: Out, exit: Exit)
    requires
        options.usable(),
        call_ensures(Out::new, (options,), out),
    ensures
        ({
            let offered = all_exits(dispatcher_views(options.local_out_dispatchers@));
            out.exits@.contains(exit) <==> offered.contains(Exit::Proxy) && offered.contains(exit)
                && (exit is Proxy || exit is Tag)
        }),
        out.listen == options.listen && out.advertise == options.advertise,
{
    let offered = all_exits(dispatcher_views(options.local_out_dispatchers@));
    law_normal_form_keeps_the_named_exits(offered);
    law_advertised_exits_are_the_proxied_ones(normalized(offered), exit);
    assert(normalized(offered).contains(Exit::Proxy) <==> offered.contains(Exit::Proxy));
    assert(normalized(offered).contains(exit) <==> offered.contains(exit) && exit !is Any);
}

/// A node is told where it is advertised, at its own port of every address where nothing is
/// configured; and options advertise an address only where the node listens, with a port.
pub proof fn law_advertised_addresses_are_reachable(
    listen: SocketAddress,
    configured: Option<SocketAddress>,
    address: SocketAddress,
    options: OutOptions,
    usable: bool,
    hub: OutHubOptions,
    count: usize,
)
    requires
        call_ensures(advertised_peer_endpoint, (listen, configured), address),
        call_ensures(OutOptions::check, (&options,), usable),
        call_ensures(OutHubOptions::connection_count, (&hub,), count),
    ensures
        configured matches Some(given) ==> address == given,
        configured is None ==> address@.ip == seq![0u8, 0u8, 0u8, 0u8] && address@.port
            == listen@.port,
        usable <==> options.advertise is None || (options.listen is Some
            && options.advertise->Some_0@.port != 0),
        count > 0,
        hub.connections > 0 ==> count == hub.connections,
{
}

} // verus!
