//! Plain packets on a TCP connection.

use vstd::prelude::*;

use crate::framing::{
    encode_frame, frame, frame_finding, law_frame_round_trip, law_partial_frame_is_never_a_packet,
    read_frame, FrameFinding, FrameRead,
};

verus! {

/// The packets that wait between the tunnel and its TCP connections, in each direction.
pub const PACKET_CHANNEL_CAPACITY: usize = 1024;

/// A packet of any length that its length field holds.
#[derive(Clone, Debug, PartialEq, Eq)]
pub struct BytesPacket(pub Vec<u8>);

/// What the front of a TCP connection holds.
#[derive(Clone, Debug, PartialEq, Eq)]
pub enum BytesPacketRead {
    NeedMoreData,
    Packet(BytesPacket),
    /// The connection is over. A packet that was cut short is lost.
    End,
}

impl From<Vec<u8>> for BytesPacket {
    fn from(value: Vec<u8>) -> (packet: Self) {
        BytesPacket(value)
    }
}

impl vstd::std_specs::convert::FromSpecImpl<Vec<u8>> for BytesPacket {
    open spec fn obeys_from_spec() -> bool {
        true
    }

    open spec fn from_spec(value: Vec<u8>) -> BytesPacket {
        BytesPacket(value)
    }
}

impl BytesPacket {
    /// The bytes that carry the packet on a stream.
    pub fn write_packet(packet: BytesPacket) -> (bytes: Vec<u8>)
        ensures
            bytes@ == frame(packet.0@),
    {
        encode_frame(packet.0.as_slice())
    }

    /// The packet at the front of a stream whose unread bytes are `buffer`.
    pub fn read_next_packet(buffer: &[u8], ended: bool) -> (read: BytesPacketRead)
        ensures
            match frame_finding(buffer@, ended, u32::MAX as int) {
                FrameFinding::NeedMoreData => read == BytesPacketRead::NeedMoreData,
                FrameFinding::Packet(bytes) => read matches BytesPacketRead::Packet(packet)
                    && packet.0@ == bytes,
                _ => read == BytesPacketRead::End,
            },
    {
        match read_frame(buffer, ended, u32::MAX as usize) {
            FrameRead::NeedMoreData => BytesPacketRead::NeedMoreData,
            FrameRead::Packet(bytes) => BytesPacketRead::Packet(BytesPacket(bytes)),
            FrameRead::End | FrameRead::Truncated | FrameRead::TooLarge(_) => BytesPacketRead::End,
        }
    }
}

/// What is written as a packet is read as the same packet, and the end of the stream is seen as
/// such.
pub proof fn law_packets_are_read_back(
    packet: BytesPacket,
    written: Vec<u8>,
    buffer: &[u8],
    rest: Seq<u8>,
    ended: bool,
    read: BytesPacketRead,
)
    requires
        packet.0@.len() <= u32::MAX,
        call_ensures(BytesPacket::write_packet, (packet,), written),
        buffer@ == written@ + rest,
        call_ensures(BytesPacket::read_next_packet, (buffer, ended), read),
    ensures
        read matches BytesPacketRead::Packet(found) && found.0@ == packet.0@,
{
    law_frame_round_trip(packet.0@, rest, ended, u32::MAX as int);
}

/// While a packet is not complete, more data is asked for, or the stream is over where no more
/// comes.
pub proof fn law_incomplete_packets_wait(
    packet: Seq<u8>,
    buffer: &[u8],
    length: int,
    ended: bool,
    read: BytesPacketRead,
)
    requires
        packet.len() <= u32::MAX,
        0 <= length < packet.len() + 4,
        buffer@ == frame(packet).take(length),
        call_ensures(BytesPacket::read_next_packet, (buffer, ended), read),
    ensures
        read == (if ended {
            BytesPacketRead::End
        } else {
            BytesPacketRead::NeedMoreData
        }),
{
    law_partial_frame_is_never_a_packet(packet, length, u32::MAX as int);
}

/// As many packets wait between two tasks at most.
pub proof fn law_waiting_packets_are_limited()
    ensures
        PACKET_CHANNEL_CAPACITY == 1_024,
{
}

} // verus!
