//! The decisions of the SOCKS5 server.

use vstd::prelude::*;

use crate::address::{unscoped, IpAddress, SocketAddress};

verus! {

/// The largest UDP packet that the server relays.
pub const MAX_UDP_PACKET: usize = 65_535;

/// How often the server looks whether the hub is still there.
pub const HEALTH_CHECK_MILLIS: u64 = 1_000;

/// What a client asks for.
#[derive(Clone, Copy, Debug, PartialEq, Eq, Structural)]
pub enum Socks5Command {
    Connect,
    Bind,
    Associate,
}

#[derive(Clone, Debug, PartialEq, Eq)]
pub enum Socks5Error {
    /// An I/O error, by its operating system code where it has one.
    IoError(Option<i32>),
    ProtocolError(String),
    UnsupportedCommand,
    ConnectFailed(String),
    RelayError(String),
}

/// Whether the server serves a command: `BIND` is not supported.
pub fn check_command(command: Socks5Command) -> (result: Result<(), Socks5Error>)
    ensures
        match result {
            Ok(_) => command != Socks5Command::Bind,
            Err(error) => command == Socks5Command::Bind && error
                == Socks5Error::UnsupportedCommand,
        },
{
    match command {
        Socks5Command::Bind => Err(Socks5Error::UnsupportedCommand),
        Socks5Command::Connect | Socks5Command::Associate => Ok(()),
    }
}

/// The address that the UDP socket of an association is bound to: any port of every address of
/// the server's kind.
pub fn relay_bind_address(server: &SocketAddress) -> (address: SocketAddress)
    ensures
        address@ == unscoped((Seq::new(server@.ip.len(), |i: int| 0u8), 0)),
{
    if server.is_ipv4() {
        let address = SocketAddress::new(IpAddress::V4([0; 4]), 0);
        assert(address@.ip =~= Seq::new(4, |i: int| 0u8));
        address
    } else {
        let address = SocketAddress::new(IpAddress::V6([0; 16]), 0);
        assert(address@.ip =~= Seq::new(16, |i: int| 0u8));
        address
    }
}

/// The octets of the loopback address of a kind.
pub open spec fn localhost(octets: nat) -> Seq<u8> {
    if octets == 4 {
        seq![127u8, 0u8, 0u8, 1u8]
    } else {
        Seq::new(15, |i: int| 0u8).push(1u8)
    }
}

/// The address that a client of an association is told to send to: the server's, with the port of
/// the association's socket. A loopback address is given in its usual form. Flow label and scope of
/// the server's address are left out.
pub fn associate_reply_address(server: &SocketAddress, relay_port: u16) -> (address: SocketAddress)
    ensures
        address@ == unscoped(
            (
                if server.ip().loopback() {
                    localhost(server@.ip.len())
                } else {
                    server@.ip
                },
                relay_port,
            ),
        ),
{
    let ip = server.ip();
    if !ip.is_loopback() {
        return SocketAddress::new(ip, relay_port);
    }
    match ip {
        IpAddress::V4(_) => {
            let address = SocketAddress::new(IpAddress::V4([127, 0, 0, 1]), relay_port);
            assert(address@.ip =~= localhost(4));
            address
        },
        IpAddress::V6(_) => {
            let octets: [u8; 16] = [0, 0, 0, 0, 0, 0, 0, 0, 0, 0, 0, 0, 0, 0, 0, 1];
            let address = SocketAddress::new(IpAddress::V6(octets), relay_port);
            assert(address@.ip =~= localhost(16));
            address
        },
    }
}

/// Connections and associations are served, bindings are not.
pub proof fn law_bindings_are_not_served(
    command: Socks5Command,
    result: Result<(), Socks5Error>,
)
    requires
        call_ensures(check_command, (command,), result),
    ensures
        result is Ok <==> command is Connect || command is Associate,
        result matches Err(error) ==> error is UnsupportedCommand,
{
}

/// The socket of an association is bound to any port of every address of the server's version, and
/// its client is told the server's address with the port of that socket; a loopback address in its
/// usual form.
pub proof fn law_associations_are_reached_at_the_server(
    server: SocketAddress,
    bound: SocketAddress,
    port: u16,
    reply: SocketAddress,
)
    requires
        call_ensures(relay_bind_address, (&server,), bound),
        call_ensures(associate_reply_address, (&server, port), reply),
    ensures
        bound@.ip.len() == server@.ip.len(),
        forall|i: int| 0 <= i < bound@.ip.len() ==> #[trigger] bound@.ip[i] == 0,
        bound@.port == 0,
        reply@.port == port,
        reply@.ip.len() == server@.ip.len(),
        server@.ip.len() == 4 && server@.ip[0] != 127 ==> reply@.ip == server@.ip,
        server@.ip.len() == 4 && server@.ip[0] == 127 ==> reply@.ip == seq![
            127u8,
            0u8,
            0u8,
            1u8,
        ],
        server@.ip.len() == 16 ==> reply@.ip == server@.ip,
{
    if server@.ip.len() == 16 && server.ip().loopback() {
        assert(localhost(16) =~= server@.ip);
    }
}

/// Packets are as large as UDP allows, and the server looks every second whether it still runs.
pub proof fn law_limits_of_the_server()
    ensures
        MAX_UDP_PACKET == 65_535,
        HEALTH_CHECK_MILLIS == 1_000,
{
}

} // verus!
