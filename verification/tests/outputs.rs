use bytes::Bytes;
use plug2proxy::address::{parse_ipv6, IpAddress, SocketAddress};
use plug2proxy::framing::encode_frame;
use plug2proxy::output::config::{
    default_socks5_address, LocalOutputConfig, OutputConfig, OutputMap, OutputPlan,
    Socks5AuthConfig, Socks5OutputConfig,
};
use plug2proxy::output::error::OutputError;
use plug2proxy::output::local::{
    resolve_interface_ip, resolve_target, InterfaceAddress, LocalConnect, LocalIpOrInterface,
    LocalOutput,
};
use plug2proxy::output::socks5::{parse_target, Socks5Output};
use plug2proxy::relay::datagram::Datagram;
use plug2proxy::relay::tcp::{
    domain_target, resolve_target as resolve_relay_target, resolve_target_from_socks5_address,
    FakeIpEntry, Socks5Address, TcpRelayLogConfig,
};
use plug2proxy::relay::udp::{
    read_tunnel, socks5_client_datagram, unsupported_domain, DirectUdpForwarder, SessionTracker,
    TunnelRead, UdpClientDatagram, UdpRelayError, UdpRelayLogConfig,
};

fn v4(octets: [u8; 4], port: u16) -> SocketAddress {
    SocketAddress::new(IpAddress::V4(octets), port)
}

#[test]
fn targets_are_split_at_the_last_colon() {
    assert_eq!(parse_target("example.com:443"), Ok(("example.com", 443)));
    assert_eq!(parse_target("[::1]:80"), Ok(("::1", 80)));
    assert!(matches!(
        parse_target("example.com"),
        Err(OutputError::InvalidTarget(_))
    ));
    assert!(matches!(
        parse_target("example.com:99999"),
        Err(OutputError::InvalidTarget(_))
    ));
}

#[test]
fn socks5_handshake_without_auth() {
    let output = Socks5Output::new(v4([127, 0, 0, 1], 1080));
    let (mut handshake, greeting) = output.connect("example.com:443").unwrap();
    assert_eq!(greeting, [5, 1, 0]);
    assert_eq!(handshake.expected(), 2);
    let request = handshake.on_reply(&[5, 0]).unwrap();
    assert_eq!(request, b"\x05\x01\x00\x03\x0bexample.com\x01\xbb");
    assert_eq!(handshake.expected(), 4);
    assert_eq!(handshake.on_reply(&[5, 0, 0, 1]), Ok(vec![]));
    assert_eq!(handshake.expected(), 6);
    assert_eq!(handshake.on_reply(&[0; 6]), Ok(vec![]));
    assert!(handshake.is_connected());
}

#[test]
fn socks5_handshake_with_auth() {
    let output = Socks5Output::new(v4([127, 0, 0, 1], 1080))
        .with_auth("user".to_owned(), "pass".to_owned());
    let (mut handshake, greeting) = output.connect("10.0.0.1:80").unwrap();
    assert_eq!(greeting, [5, 2, 0, 2]);
    let auth = handshake.on_reply(&[5, 2]).unwrap();
    assert_eq!(auth, b"\x01\x04user\x04pass");
    let request = handshake.on_reply(&[1, 0]).unwrap();
    assert_eq!(request, [5, 1, 0, 1, 10, 0, 0, 1, 0, 80]);
    assert!(matches!(
        handshake.on_reply(&[5, 5, 0, 1]),
        Err(OutputError::Socks5(_))
    ));
}

#[test]
fn socks5_handshake_refuses_other_methods() {
    let output = Socks5Output::new(v4([127, 0, 0, 1], 1080));
    let (mut handshake, _) = output.connect("example.com:443").unwrap();
    assert!(matches!(
        handshake.on_reply(&[5, 0xff]),
        Err(OutputError::Socks5(_))
    ));
    let (mut handshake, _) = output.connect("example.com:443").unwrap();
    assert!(matches!(
        handshake.on_reply(&[4, 0]),
        Err(OutputError::Socks5(_))
    ));
}

fn interfaces() -> Vec<InterfaceAddress> {
    vec![
        InterfaceAddress {
            name: "lo".to_owned(),
            ip: IpAddress::V4([127, 0, 0, 1]),
        },
        InterfaceAddress {
            name: "eth0".to_owned(),
            ip: IpAddress::V4([10, 0, 0, 2]),
        },
    ]
}

#[test]
fn outputs_bind_to_interfaces() {
    assert_eq!(
        resolve_interface_ip("eth0", &interfaces()),
        Some(IpAddress::V4([10, 0, 0, 2]))
    );
    assert_eq!(resolve_interface_ip("eth1", &interfaces()), None);
    let output = LocalOutput::new(
        Some(LocalIpOrInterface::Interface("eth0".to_owned())),
        &interfaces(),
    );
    assert_eq!(
        output.plan(&v4([1, 1, 1, 1], 80)),
        LocalConnect::Bound {
            from: v4([10, 0, 0, 2], 0),
            ipv6: false
        }
    );
    let output = LocalOutput::new(None, &interfaces());
    assert_eq!(output.plan(&v4([1, 1, 1, 1], 80)), LocalConnect::Unbound);
}

#[test]
fn targets_are_resolved_to_their_first_address() {
    let first = v4([1, 1, 1, 1], 80);
    let second = v4([2, 2, 2, 2], 80);
    assert_eq!(
        resolve_target("x:80", Some(second), &vec![first]),
        Ok(second)
    );
    assert_eq!(
        resolve_target("x:80", None, &vec![first, second]),
        Ok(first)
    );
    assert_eq!(
        resolve_target("x:80", None, &vec![]),
        Err(OutputError::InvalidTarget(
            "no addresses found for x:80".to_owned()
        ))
    );
}

#[test]
fn outputs_are_found_by_tag() {
    let map = OutputMap::from_configs(
        vec![
            OutputConfig::Local(LocalOutputConfig {
                tag: "lan".to_owned(),
                bind: Some(LocalIpOrInterface::Ip(IpAddress::V4([10, 0, 0, 9]))),
            }),
            OutputConfig::Socks5(Socks5OutputConfig {
                tag: "proxy".to_owned(),
                address: default_socks5_address(),
                auth: Some(Socks5AuthConfig {
                    username: "user".to_owned(),
                    password: "pass".to_owned(),
                }),
            }),
        ],
        &interfaces(),
    );
    assert!(map.has("lan"));
    assert!(!map.has("wan"));
    assert!(matches!(map.get(Some("lan")), OutputPlan::Local(_)));
    assert!(matches!(map.get(Some("proxy")), OutputPlan::Socks5(_)));
    assert!(matches!(map.get(Some("wan")), OutputPlan::Direct(_)));
    assert!(matches!(map.get(None), OutputPlan::Direct(_)));
    let mut tags = map.tags();
    tags.sort();
    assert_eq!(tags, vec!["lan", "proxy"]);
    assert!(OutputMap::new().tags().is_empty());
}

#[test]
fn fake_addresses_lead_to_their_hosts() {
    let original = v4([198, 18, 0, 1], 443);
    let entry = || FakeIpEntry {
        real_ip: IpAddress::V4([93, 184, 216, 34]),
        hostname: Some("example.com".to_owned()),
    };
    let resolved = resolve_relay_target(Some(entry()), original);
    assert_eq!(resolved.target, "example.com:443");
    assert_eq!(resolved.resolved_ip, Some(IpAddress::V4([93, 184, 216, 34])));
    let resolved = resolve_relay_target(None, original);
    assert_eq!(resolved.target, "198.18.0.1:443");
    let resolved =
        resolve_target_from_socks5_address(&Socks5Address::SocketAddress(original), Some(entry()));
    assert_eq!(resolved.target, "example.com:443");
    let named = Socks5Address::DomainAddress(b"exam\xffple.com".to_vec(), 80);
    let resolved = resolve_target_from_socks5_address(&named, None);
    assert_eq!(resolved.target, "exam\u{fffd}ple.com:80");
    assert_eq!(resolved.resolved_ip, None);
    assert_eq!(domain_target("a.example", 1).target, "a.example:1");
}

#[test]
fn log_prefixes_can_be_set() {
    assert_eq!(TcpRelayLogConfig::default().with_prefix("[in]").prefix, "[in]");
    assert_eq!(UdpRelayLogConfig::default().with_prefix("[in]").prefix, "[in]");
}

#[test]
fn answers_go_to_the_last_sender() {
    let dest = v4([8, 8, 8, 8], 53);
    let first = v4([10, 0, 0, 1], 1000);
    let second = v4([10, 0, 0, 2], 2000);
    let mut tracker = SessionTracker::new(UdpRelayLogConfig::default());
    assert!(tracker.track(first, dest));
    assert!(!tracker.track(second, dest));
    assert_eq!(tracker.lookup(&dest), Some(second));
    assert_eq!(tracker.lookup(&v4([1, 1, 1, 1], 53)), None);

    let (bytes, is_new) = tracker.to_tunnel(UdpClientDatagram::new(first, dest, b"x".to_vec()));
    assert!(!is_new);
    match read_tunnel(&bytes, false) {
        TunnelRead::Datagram(datagram, length) => {
            assert_eq!(length, bytes.len());
            assert_eq!(datagram.source, first);
            assert_eq!(datagram.dest, dest);
            assert_eq!(&datagram.data[..], b"x");
        }
        _ => panic!("the datagram is complete"),
    }
    let answer = Datagram::new(dest, first, Bytes::from_static(b"y"));
    assert_eq!(tracker.from_tunnel(&answer), Some(first));
}

#[test]
fn tunnels_are_read_frame_by_frame() {
    assert!(matches!(read_tunnel(&[], false), TunnelRead::NeedMoreData));
    assert!(matches!(read_tunnel(&[], true), TunnelRead::Closed));
    assert!(matches!(
        read_tunnel(&encode_frame(&[1, 2, 3]), false),
        TunnelRead::Malformed(_, 7)
    ));
    assert!(matches!(
        read_tunnel(&[0xff, 0xff, 0xff, 0xff], false),
        TunnelRead::InvalidLength(_)
    ));
}

fn link_local(scope_id: u32) -> SocketAddress {
    SocketAddress::V6 {
        octets: parse_ipv6(b"fe80::1").unwrap(),
        port: 5353,
        flow_info: 0,
        scope_id,
    }
}

#[test]
fn peers_in_different_scopes_are_different_peers() {
    let first = v4([10, 0, 0, 1], 1000);
    let second = v4([10, 0, 0, 2], 1000);
    let mut tracker = SessionTracker::new(UdpRelayLogConfig::default());
    assert!(tracker.track(first, link_local(2)));
    assert!(tracker.track(second, link_local(3)));
    assert!(!tracker.track(first, link_local(2)));
    assert_eq!(tracker.lookup(&link_local(2)), Some(first));
    assert_eq!(tracker.lookup(&link_local(3)), Some(second));
    assert_eq!(tracker.lookup(&link_local(0)), None);

    let mut forwarder = DirectUdpForwarder::new();
    assert_eq!(forwarder.send(first, link_local(2), Some(4000)), Ok(()));
    assert_eq!(forwarder.send(second, link_local(3), Some(4001)), Ok(()));
    assert_eq!(forwarder.recv(link_local(2), vec![]).dest, first);
    assert_eq!(forwarder.recv(link_local(3), vec![]).dest, second);
    assert_eq!(forwarder.recv(link_local(4), vec![]).dest, link_local(4));
}

#[test]
fn scopes_do_not_go_through_a_tunnel() {
    let mut tracker = SessionTracker::new(UdpRelayLogConfig::default());
    let sent = UdpClientDatagram::new(link_local(2), link_local(3), b"x".to_vec());
    let (bytes, is_new) = tracker.to_tunnel(sent);
    assert!(is_new);
    match read_tunnel(&bytes, false) {
        TunnelRead::Datagram(datagram, used) => {
            assert_eq!(datagram.source, link_local(0));
            assert_eq!(datagram.dest, link_local(0));
            assert_eq!(&datagram.data[..], b"x");
            assert_eq!(used, bytes.len());
        }
        _ => panic!("the tunnel holds a datagram"),
    }
}

#[test]
fn socks5_clients_need_addresses_for_datagrams() {
    let source = v4([10, 0, 0, 1], 1000);
    let dest = v4([8, 8, 8, 8], 53);
    let datagram =
        socks5_client_datagram(source, &Socks5Address::SocketAddress(dest), b"x".to_vec()).unwrap();
    assert_eq!(datagram.dest, dest);
    let named = Socks5Address::DomainAddress(b"example.com".to_vec(), 53);
    let refused = socks5_client_datagram(source, &named, b"x".to_vec());
    assert_eq!(refused, Err(unsupported_domain("example.com", 53)));
    assert!(matches!(refused, Err(UdpRelayError::Protocol(_))));
}

#[test]
fn direct_forwarding_needs_a_port() {
    let source = v4([10, 0, 0, 1], 1000);
    let dest = v4([8, 8, 8, 8], 53);
    let mut forwarder = DirectUdpForwarder::new();
    assert_eq!(
        forwarder.send(source, dest, None),
        Err(UdpRelayError::NatExhausted)
    );
    assert_eq!(forwarder.send(source, dest, Some(4000)), Ok(()));
    let answer = forwarder.recv(dest, b"answer".to_vec());
    assert_eq!(answer.source, dest);
    assert_eq!(answer.dest, source);
    assert_eq!(&answer.data[..], b"answer");
    let other = SocketAddress::new(IpAddress::V6(parse_ipv6(b"::1").unwrap()), 1);
    let stray = forwarder.recv(other, vec![]);
    assert_eq!(stray.source, other);
}
