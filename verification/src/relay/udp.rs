//! Relaying of UDP datagrams: who sent to whom, and where answers go.

use vstd::prelude::*;
use vstd::string::*;

use super::datagram::{
    datagram_bytes, datagram_in, law_datagram_round_trip, Datagram, DatagramError,
};
use super::tcp::{lossy_text, string_from_utf8_lossy, with_port, Socks5Address};
use crate::address::{unscoped, SocketAddress, SocketAddressModel};
use crate::assoc::AssocMap;
use crate::buffers::{bytes_contents, bytes_slice, into_bytes};
use crate::framing::{
    encode_frame, frame, frame_finding, law_frame_round_trip, read_frame, FrameFinding, FrameRead,
    FRAME_HEADER_SIZE,
};
use crate::text::{decimal_text, number_text};

verus! {

/// The longest datagram in a tunnel.
pub const MAX_TUNNEL_DATAGRAM: usize = 65_535;

/// The datagrams from the tunnel that wait for the client.
pub const TUNNEL_QUEUE_CAPACITY: usize = 256;

/// How UDP relays appear in the log.
#[derive(Clone, Copy, Debug)]
pub struct UdpRelayLogConfig {
    pub log_sessions: bool,
    pub log_packets: bool,
    pub prefix: &'static str,
}

impl Default for UdpRelayLogConfig {
    fn default() -> (config: Self)
        ensures
            config.log_sessions,
            config.log_packets,
            config.prefix@ == "UDP"@,
    {
        UdpRelayLogConfig { log_sessions: true, log_packets: true, prefix: "UDP" }
    }
}

impl UdpRelayLogConfig {
    pub fn with_prefix(self, prefix: &'static str) -> (config: Self)
        ensures
            config.prefix@ == prefix@,
            config.log_sessions == self.log_sessions,
            config.log_packets == self.log_packets,
    {
        UdpRelayLogConfig {
            log_sessions: self.log_sessions,
            log_packets: self.log_packets,
            prefix,
        }
    }
}

#[derive(Clone, Debug, PartialEq, Eq)]
pub enum UdpRelayError {
    /// An I/O error, by its operating system code where it has one.
    Io(Option<i32>),
    Tunnel(String),
    NatExhausted,
    Protocol(String),
}

/// A datagram that a client sent.
#[derive(Clone, Debug, PartialEq, Eq)]
pub struct UdpClientDatagram {
    pub source: SocketAddress,
    pub dest: SocketAddress,
    pub data: Vec<u8>,
}

impl UdpClientDatagram {
    pub fn new(source: SocketAddress, dest: SocketAddress, data: Vec<u8>) -> (datagram: Self)
        ensures
            datagram.source == source,
            datagram.dest == dest,
            datagram.data == data,
    {
        UdpClientDatagram { source, dest, data }
    }
}

/// A datagram of a SOCKS5 client. A destination given by name is refused.
pub fn socks5_client_datagram(source: SocketAddress, dest: &Socks5Address, data: Vec<u8>) -> (result:
    Result<UdpClientDatagram, UdpRelayError>)
    ensures
        match *dest {
            Socks5Address::SocketAddress(address) => result matches Ok(datagram)
                && datagram.source == source && datagram.dest == address && datagram.data == data,
            Socks5Address::DomainAddress(domain, port) => result matches Err(
                UdpRelayError::Protocol(message),
            ) && message@ == "domain addresses not supported: "@ + with_port(
                lossy_text(domain@),
                port,
            ),
        },
{
    match dest {
        Socks5Address::SocketAddress(address) => Ok(
            UdpClientDatagram { source, dest: *address, data },
        ),
        Socks5Address::DomainAddress(domain, port) => {
            let name = string_from_utf8_lossy(domain.as_slice());
            Err(unsupported_domain(name.as_str(), *port))
        },
    }
}

/// The error for a destination given by name.
pub fn unsupported_domain(name: &str, port: u16) -> (error: UdpRelayError)
    ensures
        error matches UdpRelayError::Protocol(message) && message@
            == "domain addresses not supported: "@ + with_port(name@, port),
{
    let mut message = "domain addresses not supported: ".to_owned();
    let ghost start = message@;
    message.append(name);
    message.append(":");
    message.append(number_text(port as u128).as_str());
    assert(message@ =~= start + with_port(name@, port));
    UdpRelayError::Protocol(message)
}

/// The clients that wait for answers, by the destinations they sent to.
pub struct SessionTracker {
    sessions: AssocMap<SocketAddress, SocketAddress>,
    log_config: UdpRelayLogConfig,
}

impl View for SessionTracker {
    type V = Map<SocketAddressModel, SocketAddress>;

    closed spec fn view(&self) -> Map<SocketAddressModel, SocketAddress> {
        self.sessions@
    }
}

impl SessionTracker {
    pub closed spec fn wf(&self) -> bool {
        self.sessions.wf()
    }

    pub closed spec fn config(&self) -> UdpRelayLogConfig {
        self.log_config
    }

    pub fn new(log_config: UdpRelayLogConfig) -> (tracker: Self)
        ensures
            tracker.wf(),
            tracker@ == Map::<SocketAddressModel, SocketAddress>::empty(),
            tracker.config() == log_config,
    {
        SessionTracker { sessions: AssocMap::new(), log_config }
    }

    pub fn log_config(&self) -> (config: UdpRelayLogConfig)
        ensures
            config == self.config(),
    {
        self.log_config
    }

    /// Remembers that `source` sent to `dest`. Returns whether nobody did before.
    pub fn track(&mut self, source: SocketAddress, dest: SocketAddress) -> (is_new: bool)
        requires
            old(self).wf(),
        ensures
            final(self).wf(),
            final(self).config() == old(self).config(),
            final(self)@ == old(self)@.insert(dest@, source),
            is_new == !old(self)@.contains_key(dest@),
    {
        self.sessions.insert(dest, source)
    }

    /// The client that an answer from `dest` is for.
    pub fn lookup(&self, dest: &SocketAddress) -> (client: Option<SocketAddress>)
        requires
            self.wf(),
        ensures
            client == if self@.contains_key(dest@) {
                Some(self@[dest@])
            } else {
                None
            },
    {
        match self.sessions.get(dest) {
            Some(client) => Some(*client),
            None => None,
        }
    }

    /// A client sent a datagram: the bytes that carry it through the tunnel, and whether the
    /// session is new.
    pub fn to_tunnel(&mut self, datagram: UdpClientDatagram) -> (result: (Vec<u8>, bool))
        requires
            old(self).wf(),
        ensures
            final(self).wf(),
            final(self).config() == old(self).config(),
            final(self)@ == old(self)@.insert(datagram.dest@, datagram.source),
            result.0@ == frame(
                datagram_bytes(
                    datagram.source.endpoint(),
                    datagram.dest.endpoint(),
                    datagram.data@,
                ),
            ),
            result.1 == !old(self)@.contains_key(datagram.dest@),
    {
        let is_new = self.track(datagram.source, datagram.dest);
        let inner = Datagram::new(datagram.source, datagram.dest, into_bytes(datagram.data));
        let serialized = inner.serialize();
        (encode_frame(bytes_slice(&serialized)), is_new)
    }

    /// A datagram came out of the tunnel: the client it is for, if one waits for it.
    pub fn from_tunnel(&self, datagram: &Datagram) -> (client: Option<SocketAddress>)
        requires
            self.wf(),
        ensures
            client == if self@.contains_key(datagram.source@) {
                Some(self@[datagram.source@])
            } else {
                None
            },
    {
        self.lookup(&datagram.source)
    }
}

/// An answer from where the client last sent to is for that client.
pub proof fn law_answers_go_to_the_last_sender(
    sessions: Map<SocketAddressModel, SocketAddress>,
    source: SocketAddress,
    dest: SocketAddress,
    other: SocketAddress,
)
    ensures
        sessions.insert(dest@, source)[dest@] == source,
        other@ != dest@ && sessions.contains_key(other@) ==> sessions.insert(
            dest@,
            source,
        )[other@] == sessions[other@],
{
}

/// What the front of a tunnel holds.
pub enum TunnelRead {
    NeedMoreData,
    /// A datagram, and the number of bytes to go on behind.
    Datagram(Datagram, usize),
    /// Bytes that are no datagram: they are skipped.
    Malformed(DatagramError, usize),
    /// The tunnel is over.
    Closed,
    /// A length that no datagram has: the tunnel cannot be read on.
    InvalidLength(usize),
}

/// Reads the front of a tunnel whose unread bytes are `buffer`.
pub fn read_tunnel(buffer: &[u8], ended: bool) -> (read: TunnelRead)
    ensures
        match frame_finding(buffer@, ended, MAX_TUNNEL_DATAGRAM as int) {
            FrameFinding::NeedMoreData => read is NeedMoreData,
            FrameFinding::End | FrameFinding::Truncated => read is Closed,
            FrameFinding::TooLarge(length) => read matches TunnelRead::InvalidLength(found)
                && found == length,
            FrameFinding::Packet(packet) => if packet.len() == 0 {
                read == TunnelRead::InvalidLength(0)
            } else {
                match datagram_in(packet) {
                    Ok((source, dest, data)) => read matches TunnelRead::Datagram(datagram, used)
                        && datagram.source@ == unscoped(source) && datagram.dest@ == unscoped(dest)
                        && bytes_contents(datagram.data) == data && used == FRAME_HEADER_SIZE + packet.len(),
                    Err(error) => read matches TunnelRead::Malformed(found, used) && found == error
                        && used == FRAME_HEADER_SIZE + packet.len(),
                }
            },
        },
{
    match read_frame(buffer, ended, MAX_TUNNEL_DATAGRAM) {
        FrameRead::NeedMoreData => TunnelRead::NeedMoreData,
        FrameRead::End | FrameRead::Truncated => TunnelRead::Closed,
        FrameRead::TooLarge(length) => TunnelRead::InvalidLength(length),
        FrameRead::Packet(packet) => {
            if packet.len() == 0 {
                return TunnelRead::InvalidLength(0);
            }
            let used: usize = FRAME_HEADER_SIZE + packet.len();
            match Datagram::deserialize(&into_bytes(packet)) {
                Ok(datagram) => TunnelRead::Datagram(datagram, used),
                Err(error) => TunnelRead::Malformed(error, used),
            }
        },
    }
}

/// What one end sends into a tunnel, the other end reads out of it, with what follows it left to
/// be read: every datagram that the length limit lets through.
pub proof fn law_tunnels_carry_datagrams(
    source: SocketAddress,
    dest: SocketAddress,
    data: Seq<u8>,
    rest: Seq<u8>,
    ended: bool,
)
    requires
        datagram_bytes(source.endpoint(), dest.endpoint(), data).len() <= MAX_TUNNEL_DATAGRAM,
    ensures
        ({
            let bytes = datagram_bytes(source.endpoint(), dest.endpoint(), data);
            &&& frame_finding(frame(bytes) + rest, ended, MAX_TUNNEL_DATAGRAM as int)
                == FrameFinding::Packet(bytes)
            &&& bytes.len() > 0
            &&& datagram_in(bytes) == Ok::<_, DatagramError>(
                (source.endpoint(), dest.endpoint(), data),
            )
            &&& (frame(bytes) + rest).skip(FRAME_HEADER_SIZE + bytes.len() as int) == rest
        }),
{
    let bytes = datagram_bytes(source.endpoint(), dest.endpoint(), data);
    law_frame_round_trip(bytes, rest, ended, MAX_TUNNEL_DATAGRAM as int);
    law_datagram_round_trip(source.endpoint(), dest.endpoint(), data);
}

/// Where answers to directly sent datagrams go.
pub struct DirectUdpForwarder {
    reverse_index: AssocMap<SocketAddress, SocketAddress>,
}

impl View for DirectUdpForwarder {
    type V = Map<SocketAddressModel, SocketAddress>;

    closed spec fn view(&self) -> Map<SocketAddressModel, SocketAddress> {
        self.reverse_index@
    }
}

impl DirectUdpForwarder {
    pub closed spec fn wf(&self) -> bool {
        self.reverse_index.wf()
    }

    pub fn new() -> (forwarder: Self)
        ensures
            forwarder.wf(),
            forwarder@ == Map::<SocketAddressModel, SocketAddress>::empty(),
    {
        DirectUdpForwarder { reverse_index: AssocMap::new() }
    }

    /// A datagram is about to be sent, `nat_port` being the port that was mapped for it. Without
    /// one it is not sent.
    pub fn send(&mut self, source: SocketAddress, dest: SocketAddress, nat_port: Option<u16>) -> (
        result: Result<(), UdpRelayError>)
        requires
            old(self).wf(),
        ensures
            final(self).wf(),
            match nat_port {
                Some(_) => result is Ok && final(self)@ == old(self)@.insert(dest@, source),
                None => result == Err::<(), _>(UdpRelayError::NatExhausted) && final(self)@
                    == old(self)@,
            },
    {
        if nat_port.is_none() {
            return Err(UdpRelayError::NatExhausted);
        }
        self.reverse_index.insert(dest, source);
        Ok(())
    }

    /// An answer came from `src`. It is for the client that last sent there, or for `src` itself
    /// where none did.
    pub fn recv(&self, src: SocketAddress, data: Vec<u8>) -> (datagram: Datagram)
        requires
            self.wf(),
        ensures
            datagram.source == src,
            datagram.dest == if self@.contains_key(src@) {
                self@[src@]
            } else {
                src
            },
            bytes_contents(datagram.data) == data@,
    {
        let dest = match self.reverse_index.get(&src) {
            Some(client) => *client,
            None => src,
        };
        Datagram::new(src, dest, into_bytes(data))
    }
}

/// A client's datagram that goes into a tunnel comes out of it with the same addresses and data,
/// and an answer from where it was sent finds the client.
pub proof fn law_datagrams_pass_the_tunnel(
    tracker: &mut SessionTracker,
    datagram: UdpClientDatagram,
    sent: (Vec<u8>, bool),
    buffer: &[u8],
    rest: Seq<u8>,
    ended: bool,
    read: TunnelRead,
    answer: Datagram,
    client: Option<SocketAddress>,
)
    requires
        old(tracker).wf(),
        call_ensures(SessionTracker::to_tunnel, (tracker, datagram), sent),
        datagram_bytes(datagram.source.endpoint(), datagram.dest.endpoint(), datagram.data@).len()
            <= MAX_TUNNEL_DATAGRAM,
        buffer@ == sent.0@ + rest,
        call_ensures(read_tunnel, (buffer, ended), read),
        answer.source@ == datagram.dest@,
        call_ensures(SessionTracker::from_tunnel, (final(tracker), &answer), client),
    ensures
        read matches TunnelRead::Datagram(found, used) && found.source.endpoint()
            == datagram.source.endpoint() && found.dest.endpoint() == datagram.dest.endpoint()
            && bytes_contents(found.data) == datagram.data@ && buffer@.skip(used as int) == rest,
        client == Some(datagram.source),
        sent.1 <==> !old(tracker)@.contains_key(datagram.dest@),
{
    law_tunnels_carry_datagrams(datagram.source, datagram.dest, datagram.data@, rest, ended);
}

/// An answer from where nobody sent to finds no client, and what one client does leaves the
/// destinations of the others alone.
pub proof fn law_strange_answers_find_no_client(
    fresh: SessionTracker,
    config: UdpRelayLogConfig,
    dest: SocketAddress,
    nobody: Option<SocketAddress>,
    tracker: &mut SessionTracker,
    source: SocketAddress,
    other: SocketAddress,
    is_new: bool,
    before: Option<SocketAddress>,
    after: Option<SocketAddress>,
)
    requires
        call_ensures(SessionTracker::new, (config,), fresh),
        call_ensures(SessionTracker::lookup, (&fresh, &dest), nobody),
        old(tracker).wf(),
        call_ensures(SessionTracker::lookup, (old(tracker), &other), before),
        call_ensures(SessionTracker::track, (tracker, source, dest), is_new),
        call_ensures(SessionTracker::lookup, (final(tracker), &other), after),
    ensures
        nobody is None,
        other@ != dest@ ==> after == before,
        other@ == dest@ ==> after == Some(source),
        other@ == dest@ ==> (is_new <==> before is None),
{
}

/// A direct answer goes to the client that last sent there, or back to where it came from; it is
/// passed on as it is. Without a mapped port nothing is sent and nothing remembered.
pub proof fn law_direct_answers_go_back(
    forwarder: &mut DirectUdpForwarder,
    source: SocketAddress,
    dest: SocketAddress,
    nat_port: Option<u16>,
    result: Result<(), UdpRelayError>,
    from: SocketAddress,
    data: Vec<u8>,
    answer: Datagram,
)
    requires
        old(forwarder).wf(),
        call_ensures(DirectUdpForwarder::send, (forwarder, source, dest, nat_port), result),
        call_ensures(DirectUdpForwarder::recv, (final(forwarder), from, data), answer),
    ensures
        result is Ok <==> nat_port is Some,
        result matches Err(error) ==> error is NatExhausted,
        nat_port is Some && from@ == dest@ ==> answer.dest == source,
        nat_port is None && !old(forwarder)@.contains_key(from@) ==> answer.dest == from,
        from@ != dest@ && old(forwarder)@.contains_key(from@) ==> answer.dest == old(
            forwarder)@[from@],
        answer.source == from,
        bytes_contents(answer.data) == data@,
{
}

/// A client's datagram goes to the address that it names; one for a name is refused with the name
/// and the port.
pub proof fn law_client_datagrams_need_an_address(
    source: SocketAddress,
    dest: Socks5Address,
    data: Vec<u8>,
    result: Result<UdpClientDatagram, UdpRelayError>,
)
    requires
        call_ensures(socks5_client_datagram, (source, &dest, data), result),
    ensures
        result is Ok <==> dest is SocketAddress,
        result matches Ok(datagram) ==> datagram.source == source && Socks5Address::SocketAddress(
            datagram.dest,
        ) == dest && datagram.data@ == data@,
        dest matches Socks5Address::DomainAddress(domain, port) ==> (result matches Err(
            UdpRelayError::Protocol(message),
        ) && message@ == "domain addresses not supported: "@ + (lossy_text(domain@) + ":"@
            + decimal_text(port as nat))),
{
}

/// A frame of a tunnel holds between 1 and 65,535 bytes; another is refused with its length, and a
/// tunnel that ends, in a frame or not, is closed.
pub proof fn law_tunnel_frames_are_limited(buffer: &[u8], ended: bool, read: TunnelRead)
    requires
        call_ensures(read_tunnel, (buffer, ended), read),
    ensures
        ({
            let length = buffer@[0] * 0x100_0000 + buffer@[1] * 0x1_0000 + buffer@[2] * 0x100
                + buffer@[3];
            &&& buffer@.len() < 4 ==> if ended {
                read is Closed
            } else {
                read is NeedMoreData
            }
            &&& buffer@.len() >= 4 && (length == 0 || length > 65_535) ==> (read matches
                TunnelRead::InvalidLength(found) && found == length)
            &&& buffer@.len() >= 4 && 1 <= length <= 65_535 && buffer@.len() < 4 + length ==> if ended {
                read is Closed
            } else {
                read is NeedMoreData
            }
            &&& buffer@.len() >= 4 && 1 <= length <= 65_535 && buffer@.len() >= 4 + length
                ==> read is Datagram || read is Malformed
            &&& read matches TunnelRead::Datagram(_, used) ==> used == 4 + length
            &&& read matches TunnelRead::Malformed(_, used) ==> used == 4 + length
        }),
{
}

/// As many datagrams wait for a client at most.
pub proof fn law_waiting_datagrams_are_limited()
    ensures
        TUNNEL_QUEUE_CAPACITY == 256,
{
}

} // verus!
