use bytes::Bytes;
use plug2proxy::address::{parse_ipv6, IpAddress, SocketAddress};
use plug2proxy::relay::datagram::{Datagram, DatagramError};
use plug2proxy::socks5::server::{
    associate_reply_address, check_command, relay_bind_address, Socks5Command, Socks5Error,
};
use plug2proxy::socks5::udp::{Socks5UdpError, Socks5UdpPacket};

fn v4(octets: [u8; 4], port: u16) -> SocketAddress {
    SocketAddress::new(IpAddress::V4(octets), port)
}

fn v6(text: &str, port: u16) -> SocketAddress {
    SocketAddress::new(IpAddress::V6(parse_ipv6(text.as_bytes()).unwrap()), port)
}

#[test]
fn test_socks5_udp_packet_parse_ipv4() {
    let mut packet = vec![];
    packet.extend_from_slice(&[0x00, 0x00]);
    packet.push(0x00);
    packet.push(0x01);
    packet.extend_from_slice(&[127, 0, 0, 1]);
    packet.extend_from_slice(&[0x00, 0x50]);
    packet.extend_from_slice(b"Hello, UDP!");

    let parsed = Socks5UdpPacket::parse(&packet).expect("Should parse valid packet");

    assert_eq!(parsed.frag, 0);
    assert_eq!(parsed.dest_addr.ip().to_text(), "127.0.0.1");
    assert_eq!(parsed.dest_addr.port(), 80);
    assert_eq!(&parsed.data[..], b"Hello, UDP!");
}

#[test]
fn test_socks5_udp_packet_parse_ipv6() {
    let mut packet = vec![];
    packet.extend_from_slice(&[0x00, 0x00]);
    packet.push(0x00);
    packet.push(0x04);
    packet.extend_from_slice(&[0, 0, 0, 0, 0, 0, 0, 0, 0, 0, 0, 0, 0, 0, 0, 1]);
    packet.extend_from_slice(&[0x1F, 0x90]);
    packet.extend_from_slice(b"IPv6 test");

    let parsed = Socks5UdpPacket::parse(&packet).expect("Should parse IPv6 packet");

    assert_eq!(parsed.frag, 0);
    assert_eq!(parsed.dest_addr.port(), 8080);
    assert_eq!(&parsed.data[..], b"IPv6 test");
}

#[test]
fn test_socks5_udp_packet_encode_ipv4() {
    let encoded = Socks5UdpPacket::encode(v4([192, 168, 1, 1], 53), b"DNS query");

    assert_eq!(&encoded[0..2], &[0x00, 0x00]);
    assert_eq!(encoded[2], 0x00);
    assert_eq!(encoded[3], 0x01);
    assert_eq!(&encoded[4..8], &[192, 168, 1, 1]);
    assert_eq!(&encoded[8..10], &[0x00, 0x35]);
    assert_eq!(&encoded[10..], b"DNS query");
}

#[test]
fn test_socks5_udp_packet_encode_ipv6() {
    let encoded = Socks5UdpPacket::encode(v6("2001:db8::1", 443), b"HTTPS");

    assert_eq!(&encoded[0..2], &[0x00, 0x00]);
    assert_eq!(encoded[2], 0x00);
    assert_eq!(encoded[3], 0x04);
    assert_eq!(&encoded[encoded.len() - 5..], b"HTTPS");
}

#[test]
fn test_socks5_udp_packet_roundtrip() {
    let original_addr = v4([8, 8, 8, 8], 53);
    let original_data = b"test data for roundtrip";

    let encoded = Socks5UdpPacket::encode(original_addr, original_data);
    let parsed = Socks5UdpPacket::parse(&encoded).expect("Should parse encoded packet");

    assert_eq!(parsed.dest_addr, original_addr);
    assert_eq!(&parsed.data[..], original_data);
    assert_eq!(parsed.frag, 0);
}

#[test]
fn test_socks5_udp_packet_invalid_rsv() {
    let mut packet = vec![];
    packet.extend_from_slice(&[0x00, 0x01]);
    packet.push(0x00);
    packet.push(0x01);
    packet.extend_from_slice(&[127, 0, 0, 1]);
    packet.extend_from_slice(&[0x00, 0x50]);

    let result = Socks5UdpPacket::parse(&packet);
    assert!(result.is_err(), "Should reject invalid RSV");
}

#[test]
fn malformed_udp_packets_are_refused() {
    assert!(matches!(
        Socks5UdpPacket::parse(&[0, 0, 0, 1, 127, 0, 0]),
        Err(Socks5UdpError::PacketTooShort)
    ));
    assert!(matches!(
        Socks5UdpPacket::parse(&[1, 0, 0, 1, 127, 0, 0, 1, 0, 80]),
        Err(Socks5UdpError::InvalidReserved)
    ));
    assert!(matches!(
        Socks5UdpPacket::parse(&[0, 0, 0, 9, 127, 0, 0, 1, 0, 80]),
        Err(Socks5UdpError::InvalidAddressType)
    ));
    assert!(matches!(
        Socks5UdpPacket::parse(&[0, 0, 0, 3, 2, 0xff, 0xfe, 0, 80, 0]),
        Err(Socks5UdpError::InvalidDomain)
    ));
    match Socks5UdpPacket::parse(b"\0\0\0\x03\x0bexample.com\0\x50data") {
        Err(Socks5UdpError::DomainNotSupported(domain, port)) => {
            assert_eq!(domain, "example.com");
            assert_eq!(port, 80);
        }
        _ => panic!("domains are not supported"),
    }
}

#[test]
fn test_parse_ipv4_packet() {
    let data = vec![
        0x00, 0x00, 0x00, 0x01, 192, 168, 1, 1, 0x1f, 0x90, b'h', b'e', b'l', b'l', b'o',
    ];

    let packet = Socks5UdpPacket::parse(&data).unwrap();
    assert_eq!(packet.frag, 0);
    assert_eq!(packet.dest_addr, v4([192, 168, 1, 1], 8080));
    assert_eq!(packet.data.as_ref(), b"hello");
}

#[test]
fn test_encode_ipv4_packet() {
    let encoded = Socks5UdpPacket::encode(v4([192, 168, 1, 1], 8080), b"hello");

    let expected = vec![
        0x00, 0x00, 0x00, 0x01, 192, 168, 1, 1, 0x1f, 0x90, b'h', b'e', b'l', b'l', b'o',
    ];

    assert_eq!(encoded.as_ref(), &expected[..]);
}

#[test]
fn test_parse_encode_roundtrip() {
    let addr = v4([10, 0, 0, 1], 53);
    let data = b"DNS query";

    let encoded = Socks5UdpPacket::encode(addr, data);
    let parsed = Socks5UdpPacket::parse(&encoded).unwrap();

    assert_eq!(parsed.dest_addr, addr);
    assert_eq!(parsed.data.as_ref(), data);
}

#[test]
fn test_datagram_serialize_ipv4() {
    let datagram = Datagram::new(
        v4([10, 0, 0, 1], 12345),
        v4([1, 1, 1, 1], 53),
        Bytes::from_static(b"DNS query"),
    );
    let serialized = datagram.serialize();

    assert_eq!(serialized.len(), 1 + 4 + 2 + 1 + 4 + 2 + 4 + 9);
}

#[test]
fn test_datagram_serialize_ipv6() {
    let datagram = Datagram::new(
        v6("fe80::1", 8080),
        v6("2606:4700:4700::1111", 443),
        Bytes::from_static(b"test"),
    );
    let serialized = datagram.serialize();

    assert_eq!(serialized.len(), 1 + 16 + 2 + 1 + 16 + 2 + 4 + 4);
}

#[test]
fn test_datagram_deserialize_ipv4() {
    let source = v4([192, 168, 1, 100], 5000);
    let dest = v4([8, 8, 4, 4], 53);
    let data = Bytes::from_static(b"payload");

    let serialized = Datagram::new(source, dest, data.clone()).serialize();
    let deserialized = Datagram::deserialize(&serialized).expect("Should deserialize");

    assert_eq!(deserialized.source, source);
    assert_eq!(deserialized.dest, dest);
    assert_eq!(deserialized.data, data);
}

#[test]
fn test_datagram_roundtrip_mixed() {
    let source = v4([10, 20, 30, 40], 1234);
    let dest = v6("2001:db8::1", 5678);
    let data = Bytes::from_static(b"mixed address test");

    let serialized = Datagram::new(source, dest, data.clone()).serialize();
    let deserialized = Datagram::deserialize(&serialized).expect("Should deserialize");

    assert_eq!(deserialized.source, source);
    assert_eq!(deserialized.dest, dest);
    assert_eq!(deserialized.data, data);
}

#[test]
fn test_datagram_deserialize_too_short() {
    let short_data = Bytes::from_static(&[1, 2, 3]);
    let result = Datagram::deserialize(&short_data);

    assert!(result.is_err(), "Should reject too-short data");
}

#[test]
fn test_datagram_empty_payload() {
    let source = v4([127, 0, 0, 1], 8080);
    let dest = v4([127, 0, 0, 1], 9090);

    let serialized = Datagram::new(source, dest, Bytes::new()).serialize();
    let deserialized = Datagram::deserialize(&serialized).expect("Should handle empty payload");

    assert_eq!(deserialized.source, source);
    assert_eq!(deserialized.dest, dest);
    assert_eq!(deserialized.data.len(), 0);
}

#[test]
fn test_datagram_large_payload() {
    let source = v4([1, 2, 3, 4], 1111);
    let dest = v4([5, 6, 7, 8], 2222);
    let large_data = vec![0xAB; 8192];

    let serialized = Datagram::new(source, dest, Bytes::from(large_data.clone())).serialize();
    let deserialized = Datagram::deserialize(&serialized).expect("Should handle large payload");

    assert_eq!(deserialized.source, source);
    assert_eq!(deserialized.dest, dest);
    assert_eq!(deserialized.data.len(), 8192);
    assert_eq!(&deserialized.data[..], &large_data[..]);
}

#[test]
fn datagrams_with_an_unknown_kind_of_address_are_refused() {
    let source = v4([1, 2, 3, 4], 1111);
    let serialized = Datagram::new(source, source, Bytes::from_static(b"x")).serialize();
    let mut bytes = serialized.to_vec();
    bytes[0] = 99;
    assert!(matches!(
        Datagram::deserialize(&Bytes::from(bytes)),
        Err(DatagramError::InvalidAddressKind)
    ));
    let cut = serialized.slice(0..serialized.len() - 1);
    assert!(matches!(
        Datagram::deserialize(&cut),
        Err(DatagramError::TooShort)
    ));
}

#[test]
fn bind_is_not_supported() {
    assert_eq!(check_command(Socks5Command::Connect), Ok(()));
    assert_eq!(check_command(Socks5Command::Associate), Ok(()));
    assert_eq!(
        check_command(Socks5Command::Bind),
        Err(Socks5Error::UnsupportedCommand)
    );
}

#[test]
fn relays_are_bound_next_to_the_server() {
    let server = v4([127, 0, 0, 1], 1080);
    let bind = relay_bind_address(&server);
    assert_eq!(bind.port(), 0);
    let reply = associate_reply_address(&server, 4000);
    assert_eq!(reply.port(), 4000);
    assert_eq!(reply.ip().to_text(), "127.0.0.1");
}

#[test]
fn replies_of_the_server_have_no_scope() {
    let octets = parse_ipv6(b"fe80::1").unwrap();
    let server = SocketAddress::V6 {
        octets,
        port: 1080,
        flow_info: 1,
        scope_id: 2,
    };
    assert_eq!(relay_bind_address(&server), v6("::", 0));
    assert_eq!(associate_reply_address(&server, 4000), v6("fe80::1", 4000));
    let encoded = Socks5UdpPacket::encode(server, b"x");
    assert_eq!(encoded, Socks5UdpPacket::encode(v6("fe80::1", 1080), b"x"));
    let parsed = Socks5UdpPacket::parse(&encoded).unwrap();
    assert_eq!(parsed.dest_addr, v6("fe80::1", 1080));
}
