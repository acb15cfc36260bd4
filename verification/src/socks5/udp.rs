//! SOCKS5 UDP packets: two reserved bytes, fragment number, address type, address, port, data.

use vstd::prelude::*;
use vstd::utf8::*;

use crate::address::{unscoped, IpAddress, SocketAddress};
use crate::buffers::{
    buffer_contents, bytes_contents, copy_bytes, freeze, new_buffer, put_slice, put_u16, put_u8,
};
use crate::text::string_from_utf8;

verus! {

pub const ATYP_IPV4: u8 = 1;

pub const ATYP_DOMAIN: u8 = 3;

pub const ATYP_IPV6: u8 = 4;

/// The shortest packet: one with an IPv4 address and no data.
pub const MIN_PACKET_SIZE: usize = 10;

/// A parsed SOCKS5 UDP packet.
pub struct Socks5UdpPacket {
    /// The fragment number, zero for a packet that is not fragmented.
    pub frag: u8,
    pub dest_addr: SocketAddress,
    pub data: bytes::Bytes,
}

#[derive(Clone, Debug, PartialEq, Eq)]
pub enum Socks5UdpError {
    PacketTooShort,
    InvalidReserved,
    InvalidAddressType,
    InvalidDomain,
    /// A domain name cannot be used before it is resolved.
    DomainNotSupported(String, u16),
    /// An I/O error, by its operating system code where it has one.
    Io(Option<i32>),
}

/// What the bytes of a packet amount to.
pub enum PacketFinding {
    Packet { frag: u8, address: (Seq<u8>, u16), data: Seq<u8> },
    TooShort,
    InvalidReserved,
    InvalidAddressType,
    InvalidDomain,
    Domain(Seq<char>, u16),
}

/// The big-endian number at `at`.
pub open spec fn port_at(bytes: Seq<u8>, at: int) -> u16 {
    (bytes[at] * 256 + bytes[at + 1]) as u16
}

/// The packet with an address of `length` octets at its start.
pub open spec fn packet_with_octets(bytes: Seq<u8>, length: int) -> PacketFinding {
    if bytes.len() < 6 + length {
        PacketFinding::TooShort
    } else {
        PacketFinding::Packet {
            frag: bytes[2],
            address: (bytes.subrange(4, 4 + length), port_at(bytes, 4 + length)),
            data: bytes.skip(6 + length),
        }
    }
}

/// The packet with a domain name in place of an address.
pub open spec fn packet_with_domain(bytes: Seq<u8>) -> PacketFinding {
    let length = bytes[4] as int;
    if bytes.len() < 7 + length {
        PacketFinding::TooShort
    } else if !valid_utf8(bytes.subrange(5, 5 + length)) {
        PacketFinding::InvalidDomain
    } else {
        PacketFinding::Domain(
            decode_utf8(bytes.subrange(5, 5 + length)),
            port_at(bytes, 5 + length),
        )
    }
}

/// What the bytes of a packet amount to.
pub open spec fn packet_finding(bytes: Seq<u8>) -> PacketFinding {
    if bytes.len() < MIN_PACKET_SIZE {
        PacketFinding::TooShort
    } else if bytes[0] != 0 || bytes[1] != 0 {
        PacketFinding::InvalidReserved
    } else if bytes[3] == ATYP_IPV4 {
        packet_with_octets(bytes, 4)
    } else if bytes[3] == ATYP_IPV6 {
        packet_with_octets(bytes, 16)
    } else if bytes[3] == ATYP_DOMAIN {
        packet_with_domain(bytes)
    } else {
        PacketFinding::InvalidAddressType
    }
}

/// The address type of an address of that many octets.
pub open spec fn address_type(octets: Seq<u8>) -> u8 {
    if octets.len() == 4 {
        ATYP_IPV4
    } else {
        ATYP_IPV6
    }
}

/// An unfragmented packet.
pub open spec fn packet_bytes(address: (Seq<u8>, u16), data: Seq<u8>) -> Seq<u8> {
    seq![0u8, 0u8, 0u8, address_type(address.0)] + address.0 + seq![
        (address.1 / 256) as u8,
        (address.1 % 256) as u8,
    ] + data
}

/// Parsing gives back the address and the data that were encoded.
pub proof fn law_udp_packet_round_trip(address: (Seq<u8>, u16), data: Seq<u8>)
    requires
        address.0.len() == 4 || address.0.len() == 16,
    ensures
        packet_finding(packet_bytes(address, data)) == (PacketFinding::Packet {
            frag: 0,
            address,
            data,
        }),
{
    let bytes = packet_bytes(address, data);
    let length = address.0.len() as int;
    assert(bytes.subrange(4, 4 + length) =~= address.0);
    assert(bytes.skip(6 + length) =~= data);
    assert(port_at(bytes, 4 + length) == address.1);
}

fn octets4(bytes: &[u8]) -> (octets: [u8; 4])
    requires
        bytes@.len() >= 8,
    ensures
        octets@ == bytes@.subrange(4, 8),
{
    let octets: [u8; 4] = [bytes[4], bytes[5], bytes[6], bytes[7]];
    assert(octets@ =~= bytes@.subrange(4, 8));
    octets
}

fn octets16(bytes: &[u8]) -> (octets: [u8; 16])
    requires
        bytes@.len() >= 20,
    ensures
        octets@ == bytes@.subrange(4, 20),
{
    let octets: [u8; 16] = [
        bytes[4],
        bytes[5],
        bytes[6],
        bytes[7],
        bytes[8],
        bytes[9],
        bytes[10],
        bytes[11],
        bytes[12],
        bytes[13],
        bytes[14],
        bytes[15],
        bytes[16],
        bytes[17],
        bytes[18],
        bytes[19],
    ];
    assert(octets@ =~= bytes@.subrange(4, 20));
    octets
}

impl Socks5UdpPacket {
    /// Parses a packet. A domain name is reported as an error with the name and the port.
    pub fn parse(buf: &[u8]) -> (result: Result<Self, Socks5UdpError>)
        ensures
            match packet_finding(buf@) {
                PacketFinding::Packet { frag, address, data } => result matches Ok(packet)
                    && packet.frag == frag && packet.dest_addr@ == unscoped(address) && bytes_contents(
                    packet.data,
                ) == data,
                PacketFinding::TooShort => result == Err::<Self, _>(Socks5UdpError::PacketTooShort),
                PacketFinding::InvalidReserved => result == Err::<Self, _>(
                    Socks5UdpError::InvalidReserved,
                ),
                PacketFinding::InvalidAddressType => result == Err::<Self, _>(
                    Socks5UdpError::InvalidAddressType,
                ),
                PacketFinding::InvalidDomain => result == Err::<Self, _>(
                    Socks5UdpError::InvalidDomain,
                ),
                PacketFinding::Domain(name, port) => result matches Err(
                    Socks5UdpError::DomainNotSupported(domain, domain_port),
                ) && domain@ == name && domain_port == port,
            },
    {
        if buf.len() < MIN_PACKET_SIZE {
            return Err(Socks5UdpError::PacketTooShort);
        }
        if buf[0] != 0 || buf[1] != 0 {
            return Err(Socks5UdpError::InvalidReserved);
        }
        let frag: u8 = buf[2];
        let atyp: u8 = buf[3];
        if atyp == ATYP_IPV4 {
            let port: u16 = buf[8] as u16 * 256 + buf[9] as u16;
            let rest = vstd::slice::slice_subrange(buf, 10, buf.len());
            assert(rest@ =~= buf@.skip(10));
            return Ok(
                Socks5UdpPacket {
                    frag,
                    dest_addr: SocketAddress::new(IpAddress::V4(octets4(buf)), port),
                    data: copy_bytes(rest),
                },
            );
        }
        if atyp == ATYP_IPV6 {
            if buf.len() < 22 {
                return Err(Socks5UdpError::PacketTooShort);
            }
            let port: u16 = buf[20] as u16 * 256 + buf[21] as u16;
            let rest = vstd::slice::slice_subrange(buf, 22, buf.len());
            assert(rest@ =~= buf@.skip(22));
            return Ok(
                Socks5UdpPacket {
                    frag,
                    dest_addr: SocketAddress::new(IpAddress::V6(octets16(buf)), port),
                    data: copy_bytes(rest),
                },
            );
        }
        if atyp == ATYP_DOMAIN {
            let length: usize = buf[4] as usize;
            if buf.len() < 7 + length {
                return Err(Socks5UdpError::PacketTooShort);
            }
            let name: Vec<u8> = vstd::slice::slice_to_vec(
                vstd::slice::slice_subrange(buf, 5, 5 + length),
            );
            let port: u16 = buf[5 + length] as u16 * 256 + buf[6 + length] as u16;
            let ghost held = name@;
            return match string_from_utf8(name) {
                Some(domain) => {
                    proof {
                        encode_utf8_decode_utf8(domain@);
                    }
                    Err(Socks5UdpError::DomainNotSupported(domain, port))
                },
                None => Err(Socks5UdpError::InvalidDomain),
            };
        }
        Err(Socks5UdpError::InvalidAddressType)
    }

    /// Encodes an unfragmented packet.
    pub fn encode(source_addr: SocketAddress, data: &[u8]) -> (packet: bytes::Bytes)
        ensures
            bytes_contents(packet) == packet_bytes(source_addr.endpoint(), data@),
    {
        let mut buffer = new_buffer();
        put_u16(&mut buffer, 0);
        put_u8(&mut buffer, 0);
        if source_addr.is_ipv4() {
            put_u8(&mut buffer, ATYP_IPV4);
        } else {
            put_u8(&mut buffer, ATYP_IPV6);
        }
        put_slice(&mut buffer, source_addr.ip().octets());
        put_u16(&mut buffer, source_addr.port());
        put_slice(&mut buffer, data);
        assert(buffer_contents(buffer) =~= packet_bytes(source_addr.endpoint(), data@));
        freeze(buffer)
    }
}

/// A packet has two zero bytes, its fragment, the type of the address (1 for four octets, 4 for
/// sixteen), the octets, the port with its higher byte first, and the data.
pub proof fn law_packets_have_the_usual_layout(address: (Seq<u8>, u16), data: Seq<u8>)
    requires
        address.0.len() == 4 || address.0.len() == 16,
    ensures
        ({
            let bytes = packet_bytes(address, data);
            let end = 4 + address.0.len() as int;
            &&& bytes.take(3) == seq![0u8, 0u8, 0u8]
            &&& bytes[3] == (if address.0.len() == 4 {
                1u8
            } else {
                4u8
            })
            &&& bytes.subrange(4, end) == address.0
            &&& bytes[end] * 256 + bytes[end + 1] == address.1
            &&& bytes.skip(end + 2) == data
        }),
{
    let bytes = packet_bytes(address, data);
    let end = 4 + address.0.len() as int;
    assert(bytes.take(3) =~= seq![0u8, 0u8, 0u8]);
    assert(bytes.subrange(4, end) =~= address.0);
    assert(bytes.skip(end + 2) =~= data);
}

/// A packet that is encoded is parsed as the address and the data it was made of, unfragmented.
pub proof fn law_encoded_packets_are_parsed(
    source: SocketAddress,
    data: &[u8],
    encoded: bytes::Bytes,
    received: &[u8],
    parsed: Result<Socks5UdpPacket, Socks5UdpError>,
)
    requires
        call_ensures(Socks5UdpPacket::encode, (source, data), encoded),
        received@ == bytes_contents(encoded),
        call_ensures(Socks5UdpPacket::parse, (received,), parsed),
    ensures
        parsed matches Ok(packet) && packet.frag == 0 && packet.dest_addr.endpoint()
            == source.endpoint() && bytes_contents(packet.data) == data@,
{
    law_udp_packet_round_trip(source.endpoint(), data@);
}

/// A packet of fewer than ten bytes, with a reserved byte that is not zero, or of an unknown
/// address type is refused as what it is; a fragment is kept; a name is reported with its port.
pub proof fn law_malformed_packets_are_refused(
    received: &[u8],
    parsed: Result<Socks5UdpPacket, Socks5UdpError>,
)
    requires
        call_ensures(Socks5UdpPacket::parse, (received,), parsed),
    ensures
        received@.len() < 10 ==> parsed == Err::<Socks5UdpPacket, _>(
            Socks5UdpError::PacketTooShort,
        ),
        received@.len() >= 10 && (received@[0] != 0 || received@[1] != 0) ==> parsed == Err::<
            Socks5UdpPacket,
            _,
        >(Socks5UdpError::InvalidReserved),
        received@.len() >= 10 && received@[0] == 0 && received@[1] == 0 && received@[3] != 1
            && received@[3] != 3 && received@[3] != 4 ==> parsed == Err::<Socks5UdpPacket, _>(
            Socks5UdpError::InvalidAddressType,
        ),
        10 <= received@.len() < 22 && received@[0] == 0 && received@[1] == 0 && received@[3] == 4
            ==> parsed == Err::<Socks5UdpPacket, _>(Socks5UdpError::PacketTooShort),
        received@.len() >= 10 && received@[0] == 0 && received@[1] == 0 && received@[3] == 1 ==> (
        parsed matches Ok(packet) && packet.frag == received@[2] && packet.dest_addr@.ip
            == received@.subrange(4, 8) && packet.dest_addr@.port == received@[8] * 256
            + received@[9] && bytes_contents(packet.data) == received@.skip(10)),
        parsed matches Err(Socks5UdpError::DomainNotSupported(domain, port))
            ==> vstd::utf8::encode_utf8(domain@) == received@.subrange(5, 5 + received@[4]) && port
            == received@[5 + received@[4]] * 256 + received@[6 + received@[4]],
{
    if let Err(Socks5UdpError::DomainNotSupported(domain, port)) = parsed {
        let name = received@.subrange(5, 5 + received@[4]);
        if vstd::utf8::valid_utf8(name) {
            vstd::utf8::decode_utf8_encode_utf8(name);
        }
    }
}

} // verus!
