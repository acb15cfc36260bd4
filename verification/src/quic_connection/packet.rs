//! QUIC packets on a byte stream.

use vstd::prelude::*;

use super::config::MAX_DATAGRAM_SIZE;
use crate::framing::{
    be64, encode_frame, frame, frame_finding, law_frame_round_trip, leading_be64, lemma_be64,
    read_frame, FrameFinding, FrameRead,
};

verus! {

/// The size of the sequence number in front of a packet that has one.
pub const SEQUENCE_SIZE: usize = 8;

/// Whether packets on a stream are numbered.
#[derive(Clone, Copy, Debug, PartialEq, Eq, Structural)]
pub enum MtConnectionsPacketMode {
    Legacy,
    Sequenced,
}

/// Why a packet cannot be written or read.
#[derive(Clone, Copy, Debug, PartialEq, Eq, Structural)]
pub enum PacketError {
    /// The packet to write is longer than a packet may be.
    InvalidInput,
    /// The packet to read is longer than a packet may be, or too short for its number.
    InvalidData,
    /// The stream ended inside a packet.
    UnexpectedEof,
}

/// A packet, or the news that none is there.
#[derive(Clone, Debug, PartialEq, Eq)]
pub enum PacketRead {
    NeedMoreData,
    /// A packet and its number.
    Packet(Option<u64>, QuicBytesPacket),
    End,
}

/// A packet behind its number.
pub open spec fn numbered(sequence: Option<u64>, packet: Seq<u8>) -> Seq<u8> {
    match sequence {
        Some(number) => be64(number) + packet,
        None => packet,
    }
}

/// One QUIC packet.
#[derive(Clone, Debug, PartialEq, Eq)]
pub struct QuicBytesPacket {
    pub bytes: Vec<u8>,
}

impl From<Vec<u8>> for QuicBytesPacket {
    fn from(value: Vec<u8>) -> (packet: Self) {
        QuicBytesPacket { bytes: value }
    }
}

impl vstd::std_specs::convert::FromSpecImpl<Vec<u8>> for QuicBytesPacket {
    open spec fn obeys_from_spec() -> bool {
        true
    }

    open spec fn from_spec(value: Vec<u8>) -> QuicBytesPacket {
        QuicBytesPacket { bytes: value }
    }
}

impl QuicBytesPacket {
    pub fn len(&self) -> (length: usize)
        ensures
            length == self.bytes@.len(),
    {
        self.bytes.len()
    }

    /// The bytes that carry the packet on a stream.
    pub fn write_packet(sequence: Option<u64>, packet: QuicBytesPacket) -> (result: Result<
        Vec<u8>,
        PacketError,
    >)
        ensures
            match result {
                Ok(bytes) => numbered(sequence, packet.bytes@).len() <= MAX_DATAGRAM_SIZE && bytes@
                    == frame(numbered(sequence, packet.bytes@)),
                Err(error) => numbered(sequence, packet.bytes@).len() > MAX_DATAGRAM_SIZE && error
                    == PacketError::InvalidInput,
            },
    {
        match sequence {
            None => {
                if packet.bytes.len() > MAX_DATAGRAM_SIZE {
                    Err(PacketError::InvalidInput)
                } else {
                    Ok(encode_frame(packet.bytes.as_slice()))
                }
            },
            Some(number) => {
                if packet.bytes.len() > MAX_DATAGRAM_SIZE - SEQUENCE_SIZE {
                    return Err(PacketError::InvalidInput);
                }
                let mut bytes: Vec<u8> = vec![
                    (number / 0x100_0000_0000_0000) as u8,
                    (number / 0x1_0000_0000_0000 % 256) as u8,
                    (number / 0x100_0000_0000 % 256) as u8,
                    (number / 0x1_0000_0000 % 256) as u8,
                    (number / 0x100_0000 % 256) as u8,
                    (number / 0x1_0000 % 256) as u8,
                    (number / 0x100 % 256) as u8,
                    (number % 256) as u8,
                ];
                bytes.extend_from_slice(packet.bytes.as_slice());
                assert(bytes@ =~= numbered(sequence, packet.bytes@));
                Ok(encode_frame(bytes.as_slice()))
            },
        }
    }

    /// The packet at the front of a stream whose unread bytes are `buffer`.
    pub fn read_next_packet(buffer: &[u8], ended: bool, mode: MtConnectionsPacketMode) -> (result:
        Result<PacketRead, PacketError>)
        ensures
            match frame_finding(buffer@, ended, MAX_DATAGRAM_SIZE as int) {
                FrameFinding::NeedMoreData => result == Ok::<_, PacketError>(
                    PacketRead::NeedMoreData,
                ),
                FrameFinding::Packet(bytes) => match mode {
                    MtConnectionsPacketMode::Legacy => result matches Ok(
                        PacketRead::Packet(sequence, packet),
                    ) && sequence is None && packet.bytes@ == bytes,
                    MtConnectionsPacketMode::Sequenced => if bytes.len() < SEQUENCE_SIZE {
                        result == Err::<PacketRead, _>(PacketError::InvalidData)
                    } else {
                        result matches Ok(PacketRead::Packet(sequence, packet)) && sequence == Some(
                            leading_be64(bytes) as u64,
                        ) && packet.bytes@ == bytes.skip(SEQUENCE_SIZE as int)
                    },
                },
                FrameFinding::End => result == Ok::<_, PacketError>(PacketRead::End),
                FrameFinding::Truncated => result == Err::<PacketRead, _>(
                    PacketError::UnexpectedEof,
                ),
                FrameFinding::TooLarge(_) => result == Err::<PacketRead, _>(
                    PacketError::InvalidData,
                ),
            },
    {
        match read_frame(buffer, ended, MAX_DATAGRAM_SIZE) {
            FrameRead::NeedMoreData => Ok(PacketRead::NeedMoreData),
            FrameRead::Packet(bytes) => match mode {
                MtConnectionsPacketMode::Legacy => Ok(
                    PacketRead::Packet(None, QuicBytesPacket { bytes }),
                ),
                MtConnectionsPacketMode::Sequenced => {
                    let length: usize = bytes.len();
                    if length < SEQUENCE_SIZE {
                        return Err(PacketError::InvalidData);
                    }
                    let number: u64 = bytes[0] as u64 * 0x100_0000_0000_0000 + bytes[1] as u64
                        * 0x1_0000_0000_0000 + bytes[2] as u64 * 0x100_0000_0000 + bytes[3] as u64
                        * 0x1_0000_0000 + bytes[4] as u64 * 0x100_0000 + bytes[5] as u64 * 0x1_0000
                        + bytes[6] as u64 * 0x100 + bytes[7] as u64;
                    let packet = vstd::slice::slice_to_vec(
                        vstd::slice::slice_subrange(bytes.as_slice(), SEQUENCE_SIZE, length),
                    );
                    assert(packet@ =~= bytes@.skip(SEQUENCE_SIZE as int));
                    Ok(PacketRead::Packet(Some(number), QuicBytesPacket { bytes: packet }))
                },
            },
            FrameRead::End => Ok(PacketRead::End),
            FrameRead::Truncated => Err(PacketError::UnexpectedEof),
            FrameRead::TooLarge(_) => Err(PacketError::InvalidData),
        }
    }
}

/// Reading gives back the packet and the number that were written.
pub proof fn law_packet_round_trip(
    sequence: Option<u64>,
    packet: Seq<u8>,
    rest: Seq<u8>,
    ended: bool,
)
    requires
        numbered(sequence, packet).len() <= MAX_DATAGRAM_SIZE,
    ensures
        frame_finding(
            frame(numbered(sequence, packet)) + rest,
            ended,
            MAX_DATAGRAM_SIZE as int,
        ) == FrameFinding::Packet(numbered(sequence, packet)),
        sequence matches Some(number) ==> leading_be64(numbered(sequence, packet)) == number
            && numbered(sequence, packet).skip(SEQUENCE_SIZE as int) == packet,
{
    law_frame_round_trip(numbered(sequence, packet), rest, ended, MAX_DATAGRAM_SIZE as int);
    if let Some(number) = sequence {
        lemma_be64(number);
        assert(numbered(sequence, packet).skip(SEQUENCE_SIZE as int) =~= packet);
        assert(leading_be64(numbered(sequence, packet)) == leading_be64(be64(number))) by {
            assert forall|i: int| 0 <= i < 8 implies numbered(sequence, packet)[i] == be64(
                number,
            )[i] by {}
        }
    }
}

/// What is written as a packet, with a number or without, is read as the same packet and number in
/// the mode that fits, whatever follows; a packet that is too long is not written.
pub proof fn law_written_packets_are_read_back(
    sequence: Option<u64>,
    packet: QuicBytesPacket,
    written: Result<Vec<u8>, PacketError>,
    buffer: &[u8],
    rest: Seq<u8>,
    ended: bool,
    mode: MtConnectionsPacketMode,
    read: Result<PacketRead, PacketError>,
)
    requires
        call_ensures(QuicBytesPacket::write_packet, (sequence, packet), written),
        written matches Ok(bytes) ==> buffer@ == bytes@ + rest,
        sequence is Some <==> mode is Sequenced,
        call_ensures(QuicBytesPacket::read_next_packet, (buffer, ended, mode), read),
    ensures
        written is Ok <==> packet.bytes@.len() + (if sequence is Some {
            8int
        } else {
            0int
        }) <= 16_383,
        written is Ok ==> (read matches Ok(PacketRead::Packet(number, found)) && number == sequence
            && found.bytes@ == packet.bytes@),
{
    if written is Ok {
        law_packet_round_trip(sequence, packet.bytes@, rest, ended);
    }
}

/// The end of a stream between packets is its end; inside a packet, or with a packet that is too
/// long or has no room for its number, it is an error.
pub proof fn law_broken_packets_are_errors(
    buffer: &[u8],
    ended: bool,
    mode: MtConnectionsPacketMode,
    read: Result<PacketRead, PacketError>,
)
    requires
        call_ensures(QuicBytesPacket::read_next_packet, (buffer, ended, mode), read),
    ensures
        buffer@.len() == 0 ==> read == Ok::<_, PacketError>(
            if ended {
                PacketRead::End
            } else {
                PacketRead::NeedMoreData
            },
        ),
        0 < buffer@.len() < 4 && ended ==> read == Err::<PacketRead, _>(PacketError::UnexpectedEof),
        ({
            let length = buffer@[0] * 16_777_216 + buffer@[1] * 65_536 + buffer@[2] * 256
                + buffer@[3];
            &&& buffer@.len() >= 4 && length > 16_383 ==> read == Err::<PacketRead, _>(
                PacketError::InvalidData,
            )
            &&& 4 <= buffer@.len() < 4 + length && length <= 16_383 && ended ==> read == Err::<
                PacketRead,
                _,
            >(PacketError::UnexpectedEof)
            &&& buffer@.len() >= 4 + length && length < 8 && mode is Sequenced && buffer@.len() >= 4
                ==> read == Err::<PacketRead, _>(PacketError::InvalidData)
        }),
{
}

/// A packet of up to 16,383 bytes is written with its sequence number in front, a longer one is
/// refused.
pub proof fn law_long_packets_are_refused(
    sequence: Option<u64>,
    packet: QuicBytesPacket,
    result: Result<Vec<u8>, PacketError>,
)
    requires
        call_ensures(QuicBytesPacket::write_packet, (sequence, packet), result),
    ensures
        ({
            let length = packet.bytes@.len() + if sequence is Some {
                8int
            } else {
                0int
            };
            &&& result is Ok <==> length <= 16_383
            &&& result is Err ==> result->Err_0 == PacketError::InvalidInput
            &&& result is Ok ==> result->Ok_0@.len() == 4 + length
                && result->Ok_0@.skip(result->Ok_0@.len() - packet.bytes@.len()) == packet.bytes@
        }),
{
    let body = numbered(sequence, packet.bytes@);
    if result is Ok {
        let written = result->Ok_0@;
        assert(written.skip(written.len() - packet.bytes@.len()) =~= packet.bytes@);
    }
}

} // verus!
