//! Packets on a byte stream: a four-byte big-endian length, then the bytes.

use vstd::prelude::*;

verus! {

pub const FRAME_HEADER_SIZE: usize = 4;

/// A number as four bytes, most significant first.
pub open spec fn be32(number: int) -> Seq<u8> {
    seq![
        (number / 0x100_0000 % 256) as u8,
        (number / 0x1_0000 % 256) as u8,
        (number / 0x100 % 256) as u8,
        (number % 256) as u8,
    ]
}

/// The number in the first four bytes.
pub open spec fn leading_be32(bytes: Seq<u8>) -> int {
    bytes[0] * 0x100_0000 + bytes[1] * 0x1_0000 + bytes[2] * 0x100 + bytes[3]
}

/// A number as eight bytes, most significant first.
pub open spec fn be64(number: u64) -> Seq<u8> {
    seq![
        (number / 0x100_0000_0000_0000) as u8,
        (number / 0x1_0000_0000_0000 % 256) as u8,
        (number / 0x100_0000_0000 % 256) as u8,
        (number / 0x1_0000_0000 % 256) as u8,
        (number / 0x100_0000 % 256) as u8,
        (number / 0x1_0000 % 256) as u8,
        (number / 0x100 % 256) as u8,
        (number % 256) as u8,
    ]
}

/// The number in the first eight bytes.
pub open spec fn leading_be64(bytes: Seq<u8>) -> int {
    bytes[0] * 0x100_0000_0000_0000 + bytes[1] * 0x1_0000_0000_0000 + bytes[2] * 0x100_0000_0000
        + bytes[3] * 0x1_0000_0000 + bytes[4] * 0x100_0000 + bytes[5] * 0x1_0000 + bytes[6] * 0x100
        + bytes[7]
}

/// The number in its eight bytes is the number.
pub proof fn lemma_be64(number: u64)
    ensures
        leading_be64(be64(number)) == number,
{
    assert((number / 0x100_0000_0000_0000) * 0x100_0000_0000_0000 + (number / 0x1_0000_0000_0000
        % 256) * 0x1_0000_0000_0000 + (number / 0x100_0000_0000 % 256) * 0x100_0000_0000 + (number
        / 0x1_0000_0000 % 256) * 0x1_0000_0000 + (number / 0x100_0000 % 256) * 0x100_0000 + (number
        / 0x1_0000 % 256) * 0x1_0000 + (number / 0x100 % 256) * 0x100 + number % 256 == number)
        by (bit_vector);
    assert(number / 0x100_0000_0000_0000 < 256);
}

/// A packet with its length in front. The length field holds 32 bits of it.
pub open spec fn frame(packet: Seq<u8>) -> Seq<u8> {
    be32(packet.len() as int) + packet
}

/// What the front of a byte stream holds.
#[derive(Clone, Debug, PartialEq, Eq)]
pub enum FrameRead {
    NeedMoreData,
    Packet(Vec<u8>),
    /// The stream ended between two frames.
    End,
    /// The stream ended inside a frame.
    Truncated,
    /// The frame is longer than it may be.
    TooLarge(usize),
}

/// The mathematical form of a `FrameRead`.
pub enum FrameFinding {
    NeedMoreData,
    Packet(Seq<u8>),
    End,
    Truncated,
    TooLarge(int),
}

impl View for FrameRead {
    type V = FrameFinding;

    open spec fn view(&self) -> FrameFinding {
        match self {
            FrameRead::NeedMoreData => FrameFinding::NeedMoreData,
            FrameRead::Packet(packet) => FrameFinding::Packet(packet@),
            FrameRead::End => FrameFinding::End,
            FrameRead::Truncated => FrameFinding::Truncated,
            FrameRead::TooLarge(length) => FrameFinding::TooLarge(*length as int),
        }
    }
}

/// What `buffer`, the unread bytes of a stream, holds at its front. `ended` says that no more
/// bytes will come.
pub open spec fn frame_finding(buffer: Seq<u8>, ended: bool, maximum: int) -> FrameFinding {
    if buffer.len() < FRAME_HEADER_SIZE {
        if !ended {
            FrameFinding::NeedMoreData
        } else if buffer.len() == 0 {
            FrameFinding::End
        } else {
            FrameFinding::Truncated
        }
    } else {
        let length = leading_be32(buffer);
        if length > maximum {
            FrameFinding::TooLarge(length)
        } else if buffer.len() < FRAME_HEADER_SIZE + length {
            if ended {
                FrameFinding::Truncated
            } else {
                FrameFinding::NeedMoreData
            }
        } else {
            FrameFinding::Packet(buffer.subrange(FRAME_HEADER_SIZE as int, FRAME_HEADER_SIZE + length))
        }
    }
}

proof fn lemma_be32(number: int)
    requires
        0 <= number <= u32::MAX,
    ensures
        leading_be32(be32(number)) == number,
{
}

/// Reading gives back what was written, whatever follows it on the stream, and leaves the rest
/// of the stream behind the frame.
pub proof fn law_frame_round_trip(packet: Seq<u8>, rest: Seq<u8>, ended: bool, maximum: int)
    requires
        packet.len() <= u32::MAX,
        packet.len() <= maximum,
    ensures
        frame_finding(frame(packet) + rest, ended, maximum) == FrameFinding::Packet(packet),
        (frame(packet) + rest).skip(FRAME_HEADER_SIZE + packet.len() as int) == rest,
{
    let buffer = frame(packet) + rest;
    lemma_be32(packet.len() as int);
    assert(leading_be32(buffer) == leading_be32(be32(packet.len() as int)));
    assert(buffer.subrange(FRAME_HEADER_SIZE as int, FRAME_HEADER_SIZE + packet.len() as int)
        =~= packet);
    assert(buffer.skip(FRAME_HEADER_SIZE + packet.len() as int) =~= rest);
}

/// Every proper prefix of a frame asks for more data, and is reported as cut short (or as the
/// end, where it is empty) when the stream ends there.
pub proof fn law_partial_frame_is_never_a_packet(packet: Seq<u8>, length: int, maximum: int)
    requires
        packet.len() <= u32::MAX,
        packet.len() <= maximum,
        0 <= length < frame(packet).len(),
    ensures
        frame_finding(frame(packet).take(length), false, maximum) == FrameFinding::NeedMoreData,
        length > 0 ==> frame_finding(frame(packet).take(length), true, maximum)
            == FrameFinding::Truncated,
        length == 0 ==> frame_finding(frame(packet).take(length), true, maximum)
            == FrameFinding::End,
{
    let cut = frame(packet).take(length);
    if length >= FRAME_HEADER_SIZE {
        lemma_be32(packet.len() as int);
        assert(leading_be32(cut) == leading_be32(be32(packet.len() as int)));
    }
}

/// A packet with its length in front.
pub fn encode_frame(packet: &[u8]) -> (bytes: Vec<u8>)
    ensures
        bytes@ == frame(packet@),
{
    let length: u64 = packet.len() as u64;
    let mut bytes: Vec<u8> = vec![
        (length / 0x100_0000 % 256) as u8,
        (length / 0x1_0000 % 256) as u8,
        (length / 0x100 % 256) as u8,
        (length % 256) as u8,
    ];
    bytes.extend_from_slice(packet);
    assert(bytes@ =~= frame(packet@));
    bytes
}

/// Reads the front of a stream.
pub fn read_frame(buffer: &[u8], ended: bool, maximum: usize) -> (read: FrameRead)
    ensures
        read@ == frame_finding(buffer@, ended, maximum as int),
{
    if buffer.len() < FRAME_HEADER_SIZE {
        return if !ended {
            FrameRead::NeedMoreData
        } else if buffer.len() == 0 {
            FrameRead::End
        } else {
            FrameRead::Truncated
        };
    }
    let length: u32 = buffer[0] as u32 * 0x100_0000 + buffer[1] as u32 * 0x1_0000 + buffer[2] as u32
        * 0x100 + buffer[3] as u32;
    let length: usize = length as usize;
    if length > maximum {
        return FrameRead::TooLarge(length);
    }
    if buffer.len() - FRAME_HEADER_SIZE < length {
        return if ended {
            FrameRead::Truncated
        } else {
            FrameRead::NeedMoreData
        };
    }
    FrameRead::Packet(
        vstd::slice::slice_to_vec(
            vstd::slice::slice_subrange(buffer, FRAME_HEADER_SIZE, FRAME_HEADER_SIZE + length),
        ),
    )
}

/// A frame is the packet behind its length in four bytes, the most significant first.
pub proof fn law_frames_begin_with_their_length(packet: Seq<u8>)
    requires
        packet.len() <= u32::MAX,
    ensures
        frame(packet).len() == packet.len() + 4,
        frame(packet)[0] * 16_777_216 + frame(packet)[1] * 65_536 + frame(packet)[2] * 256 + frame(
            packet,
        )[3] == packet.len(),
        frame(packet).skip(4) == packet,
{
    assert(frame(packet).skip(4) =~= packet);
}

/// A length beyond the limit is refused as soon as it is known, whatever follows; one within the
/// limit never is.
pub proof fn law_long_frames_are_refused(buffer: Seq<u8>, ended: bool, maximum: int)
    requires
        buffer.len() >= 4,
    ensures
        ({
            let length = buffer[0] * 16_777_216 + buffer[1] * 65_536 + buffer[2] * 256 + buffer[3];
            &&& frame_finding(buffer, ended, maximum) is TooLarge <==> length > maximum
            &&& frame_finding(buffer, ended, maximum) matches FrameFinding::TooLarge(found)
                ==> found == length
            &&& frame_finding(buffer, ended, maximum) is Packet <==> length <= maximum
                && buffer.len() >= 4 + length
        }),
{
}

/// The bytes of a number of 64 bits spell it, the most significant first.
pub proof fn law_long_numbers_are_big_endian(number: u64)
    ensures
        be64(number).len() == 8,
        be64(number)[7] == number % 256,
        be64(number)[0] == number / 72_057_594_037_927_936,
        leading_be64(be64(number)) == number,
{
    lemma_be64(number);
}

} // verus!
