//! Limits and outcome of sniffing a QUIC flow.

use vstd::prelude::*;

use super::outcome::{domain_finding, Finding, SniffOutcome, SniffedProtocol};

verus! {

pub const MAX_QUIC_DATAGRAMS: usize = 16;

pub const MAX_QUIC_BYTES: usize = 131_072;

/// What to do with a datagram.
#[derive(Clone, Copy, Debug, PartialEq, Eq, Structural)]
pub enum QuicSniffStep {
    /// Sniffing is over: the datagram is not looked at.
    Refuse,
    /// Open a connection from the datagram's header, then feed the datagram to it.
    OpenAndFeed,
    /// Feed the datagram to the open connection.
    Feed,
}

/// Counts what a flow has shown and remembers when it is settled.
pub struct QuicSniffer {
    connected: bool,
    datagrams: usize,
    bytes: usize,
    finished: bool,
}

/// The state of a `QuicSniffer`: connection open, datagrams and bytes seen, settled.
pub struct QuicSniffState {
    pub connected: bool,
    pub datagrams: int,
    pub bytes: int,
    pub finished: bool,
}

impl View for QuicSniffer {
    type V = QuicSniffState;

    closed spec fn view(&self) -> QuicSniffState {
        QuicSniffState {
            connected: self.connected,
            datagrams: self.datagrams as int,
            bytes: self.bytes as int,
            finished: self.finished,
        }
    }
}

impl QuicSniffState {
    /// A datagram of `length` bytes is still within the limits of the flow.
    pub open spec fn admits(&self, length: int) -> bool {
        !self.finished && self.datagrams < MAX_QUIC_DATAGRAMS && self.bytes + length
            <= MAX_QUIC_BYTES
    }
}

impl Default for QuicSniffer {
    fn default() -> (sniffer: Self)
        ensures
            sniffer@ == (QuicSniffState {
                connected: false,
                datagrams: 0,
                bytes: 0,
                finished: false,
            }),
    {
        QuicSniffer::new()
    }
}

impl QuicSniffer {
    pub fn new() -> (sniffer: Self)
        ensures
            sniffer@ == (QuicSniffState {
                connected: false,
                datagrams: 0,
                bytes: 0,
                finished: false,
            }),
    {
        QuicSniffer { connected: false, datagrams: 0, bytes: 0, finished: false }
    }

    /// A long header packet with the fixed bit set.
    pub fn looks_like_initial(datagram: &[u8]) -> (result: bool)
        ensures
            result == (datagram@.len() > 0 && datagram@[0] >= 192),
    {
        datagram.len() > 0 && datagram[0] >= 192
    }

    pub fn is_finished(&self) -> (result: bool)
        ensures
            result == self@.finished,
    {
        self.finished
    }

    /// Takes a datagram in, or settles the flow where it is over a limit.
    pub fn take_in(&mut self, datagram: &[u8]) -> (step: QuicSniffStep)
        ensures
            if old(self)@.admits(datagram@.len() as int) {
                &&& final(self)@ == (QuicSniffState {
                    datagrams: old(self)@.datagrams + 1,
                    bytes: old(self)@.bytes + datagram@.len(),
                    ..old(self)@
                })
                &&& step == if old(self)@.connected {
                    QuicSniffStep::Feed
                } else {
                    QuicSniffStep::OpenAndFeed
                }
            } else {
                &&& final(self)@ == (QuicSniffState { finished: true, ..old(self)@ })
                &&& step == QuicSniffStep::Refuse
            },
    {
        if self.finished || self.datagrams >= MAX_QUIC_DATAGRAMS || self.bytes > MAX_QUIC_BYTES
            || datagram.len() > MAX_QUIC_BYTES - self.bytes {
            self.finished = true;
            return QuicSniffStep::Refuse;
        }
        self.datagrams = self.datagrams + 1;
        self.bytes = self.bytes + datagram.len();
        if self.connected {
            QuicSniffStep::Feed
        } else {
            QuicSniffStep::OpenAndFeed
        }
    }

    /// The header opened a connection.
    pub fn connection_opened(&mut self)
        ensures
            final(self)@ == (QuicSniffState { connected: true, ..old(self)@ }),
    {
        self.connected = true;
    }

    /// The datagram is not the initial packet of a supported version.
    pub fn connection_refused(&mut self) -> (outcome: SniffOutcome)
        ensures
            final(self)@ == (QuicSniffState { finished: true, ..old(self)@ }),
            outcome@ == Finding::NoDomain,
    {
        self.finished = true;
        SniffOutcome::NoDomain
    }

    /// What the flow gives once the datagram was fed: the server name settles it, and so does a
    /// closed connection.
    pub fn fed(&mut self, server_name: Option<&[u8]>, closed: bool) -> (outcome: SniffOutcome)
        ensures
            final(self)@ == (QuicSniffState {
                finished: old(self)@.finished || server_name is Some || closed,
                ..old(self)@
            }),
            outcome@ == match server_name {
                Some(name) => domain_finding(SniffedProtocol::Quic, name@),
                None => if closed {
                    Finding::NoDomain
                } else {
                    Finding::NeedMoreData
                },
            },
    {
        if let Some(name) = server_name {
            self.finished = true;
            return SniffOutcome::domain(SniffedProtocol::Quic, name);
        }
        if closed {
            self.finished = true;
            SniffOutcome::NoDomain
        } else {
            SniffOutcome::NeedMoreData
        }
    }
}

/// A flow is looked at for 16 datagrams and 131072 bytes at most, and never again once it is
/// settled.
pub proof fn law_flows_are_looked_at_within_limits(
    sniffer: &mut QuicSniffer,
    datagram: &[u8],
    step: QuicSniffStep,
)
    requires
        call_ensures(QuicSniffer::take_in, (sniffer, datagram), step),
    ensures
        step == QuicSniffStep::Refuse <==> old(sniffer)@.finished || old(sniffer)@.datagrams >= 16
            || old(sniffer)@.bytes + datagram@.len() > 131_072,
        step == QuicSniffStep::Feed <==> step != QuicSniffStep::Refuse && old(
            sniffer)@.connected,
        step == QuicSniffStep::Refuse ==> final(sniffer)@.finished,
        step != QuicSniffStep::Refuse ==> final(sniffer)@.datagrams == old(sniffer)@.datagrams + 1
            && final(sniffer)@.bytes == old(sniffer)@.bytes + datagram@.len() && !final(
            sniffer)@.finished,
{
}

/// The server name settles a flow, and so does the end of its connection; until then more data is
/// asked for. What is found is what the name stands for.
pub proof fn law_server_name_settles_a_flow(
    sniffer: &mut QuicSniffer,
    server_name: Option<&[u8]>,
    closed: bool,
    outcome: SniffOutcome,
)
    requires
        !old(sniffer)@.finished,
        call_ensures(QuicSniffer::fed, (sniffer, server_name, closed), outcome),
    ensures
        server_name matches Some(name) ==> outcome@ == domain_finding(SniffedProtocol::Quic, name@),
        server_name is None && closed ==> outcome is NoDomain,
        outcome is NeedMoreData <==> server_name is None && !closed,
        final(sniffer)@.finished <==> outcome !is NeedMoreData,
{
}

/// A long header with the fixed bit set: the two highest bits of the first byte.
pub proof fn law_initial_packets_have_a_long_header(datagram: &[u8], result: bool)
    requires
        call_ensures(QuicSniffer::looks_like_initial, (datagram,), result),
    ensures
        result <==> datagram@.len() > 0 && datagram@[0] / 64 == 3,
{
}

/// A new flow has not been looked at.
pub proof fn law_new_flows_are_not_looked_at(new: QuicSniffer, default: QuicSniffer)
    requires
        call_ensures(QuicSniffer::new, (), new),
        call_ensures(<QuicSniffer as Default>::default, (), default),
    ensures
        new@ == default@,
        new@.datagrams == 0 && new@.bytes == 0 && !new@.finished && !new@.connected,
{
}

} // verus!
