use plug2proxy::address::{parse_ipv4, parse_ipv6, IpAddress, SocketAddress};
use plug2proxy::primitives::net::{addresses_for_source, ConnectableStep};
use plug2proxy::primitives::{SocketDestination, SocketDestinationHost, SniffedProtocol};

fn v6(text: &str) -> IpAddress {
    IpAddress::V6(parse_ipv6(text.as_bytes()).unwrap())
}

#[test]
fn routing_domain_does_not_replace_or_serialize_the_dial_target() {
    let mut destination = SocketDestination {
        host: SocketDestinationHost::IpAddress(IpAddress::V4([182, 140, 143, 139])),
        port: 443,
        routing_domain: None,
        routing_protocol: Some(SniffedProtocol::Tls),
    };
    destination.set_routing_domain(Some("c2c.cdn.weixin.qq.com".to_owned()));

    assert_eq!(
        destination.routing_domain().as_deref(),
        Some("c2c.cdn.weixin.qq.com")
    );
    assert_eq!(
        destination.host,
        SocketDestinationHost::IpAddress(IpAddress::V4([182, 140, 143, 139]))
    );
    assert_eq!(
        destination.route_label(),
        "182.140.143.139:443 (c2c.cdn.weixin.qq.com)"
    );
    assert_eq!(destination.to_text(), "182.140.143.139:443");
    assert_eq!(destination.routing_protocol(), Some(SniffedProtocol::Tls));
    assert_eq!(
        destination.resolve(vec![]),
        vec![SocketAddress::new(IpAddress::V4([182, 140, 143, 139]), 443)]
    );
}

#[test]
fn domain_target_is_also_available_as_routing_metadata() {
    let destination = SocketDestination {
        host: SocketDestinationHost::DomainName("Example.COM".to_owned()),
        port: 443,
        routing_domain: None,
        routing_protocol: None,
    };

    assert_eq!(destination.routing_domain().as_deref(), Some("Example.COM"));
    assert_eq!(destination.route_label(), "Example.COM:443");
    let looked_up = vec![SocketAddress::new(IpAddress::V4([1, 2, 3, 4]), 443)];
    assert_eq!(destination.resolve(looked_up.clone()), looked_up);
}

#[test]
fn addresses_of_the_other_version_are_left_out() {
    let first = SocketAddress::new(IpAddress::V4([1, 2, 3, 4]), 443);
    let second = SocketAddress::new(v6("2001:db8::1"), 443);
    let third = SocketAddress::new(IpAddress::V4([5, 6, 7, 8]), 443);
    let source = SocketAddress::new(IpAddress::V4([0, 0, 0, 0]), 0);
    assert_eq!(
        addresses_for_source(&vec![first, second, third], &source),
        vec![first, third]
    );
    let source = SocketAddress::new(v6("::"), 0);
    assert_eq!(
        addresses_for_source(&vec![first, second, third], &source),
        vec![second]
    );
}

#[test]
fn addresses_are_written_as_usual() {
    for (octets, text) in [
        ("::", "::"),
        ("::1", "::1"),
        ("2001:db8:0:0:1:0:0:1", "2001:db8::1:0:0:1"),
        ("fe80:0:0:0:0:0:0:1", "fe80::1"),
        ("1:2:3:4:5:6:7:8", "1:2:3:4:5:6:7:8"),
        ("::ffff:192.0.2.1", "::ffff:192.0.2.1"),
    ] {
        assert_eq!(v6(octets).to_text(), text);
    }
    assert_eq!(
        SocketAddress::new(v6("::1"), 80).to_text(),
        "[::1]:80".to_owned()
    );
    assert_eq!(
        SocketAddress::new(IpAddress::V4([127, 0, 0, 1]), 80).to_text(),
        "127.0.0.1:80".to_owned()
    );
}

#[test]
fn scopes_are_part_of_the_text() {
    let link_local = |flow_info: u32, scope_id: u32| match v6("fe80::1") {
        IpAddress::V6(octets) => SocketAddress::V6 {
            octets,
            port: 80,
            flow_info,
            scope_id,
        },
        IpAddress::V4(_) => panic!("an IPv6 address was read"),
    };
    assert_eq!(link_local(0, 0).to_text(), "[fe80::1]:80");
    assert_eq!(link_local(0, 3).to_text(), "[fe80::1%3]:80");
    assert_eq!(link_local(7, 0).to_text(), "[fe80::1]:80");
    assert_eq!(link_local(0, 0), SocketAddress::new(v6("fe80::1"), 80));
    assert!(link_local(0, 3).same(&link_local(0, 3)));
    assert!(!link_local(0, 3).same(&link_local(0, 4)));
    assert!(!link_local(7, 3).same(&link_local(0, 3)));
    assert_eq!(link_local(7, 3).ip(), v6("fe80::1"));
    assert_eq!(link_local(7, 3).port(), 80);
    assert_eq!(link_local(7, 3).flow_info(), 7);
    assert_eq!(link_local(7, 3).scope_id(), 3);
    let v4 = SocketAddress::new(IpAddress::V4([127, 0, 0, 1]), 80);
    assert_eq!((v4.flow_info(), v4.scope_id()), (0, 0));
}

#[test]
fn malformed_addresses_are_refused() {
    for text in ["", "1.2.3", "1.2.3.4.5", "256.1.1.1", "01.1.1.1", "1.1.1.x"] {
        assert_eq!(parse_ipv4(text.as_bytes()), None, "{text}");
    }
    for text in ["", ":", ":::", "1:2:3", "1::2::3", "g::", "12345::", "::1.2.3"] {
        assert_eq!(parse_ipv6(text.as_bytes()), None, "{text}");
    }
    assert_eq!(parse_ipv4(b"192.0.2.1"), Some([192, 0, 2, 1]));
}

fn named(port: u16) -> SocketDestination {
    SocketDestination {
        host: SocketDestinationHost::DomainName("example.com".to_owned()),
        port,
        routing_domain: None,
        routing_protocol: None,
    }
}

#[test]
fn destinations_resolve_to_addresses_of_the_source_version() {
    let v4 = SocketAddress::new(IpAddress::V4([192, 0, 2, 1]), 443);
    let other = SocketAddress::new(v6("2001:db8::1"), 443);
    let source = SocketAddress::new(IpAddress::V4([127, 0, 0, 1]), 5000);

    let kept = named(443).resolve_to_socket_addresses_for_source(vec![other, v4], &source);
    assert_eq!(kept, vec![v4]);

    let fixed = SocketDestination {
        host: SocketDestinationHost::IpAddress(v6("2001:db8::1")),
        ..named(443)
    };
    assert!(fixed
        .resolve_to_socket_addresses_for_source(vec![v4], &source)
        .is_empty());
}

#[test]
fn first_connectable_address_is_taken() {
    let first = SocketAddress::new(IpAddress::V4([192, 0, 2, 1]), 443);
    let second = SocketAddress::new(IpAddress::V4([192, 0, 2, 2]), 443);
    let addresses = vec![first, second];
    let destination = named(443);

    let step = |tested: &[bool]| destination.resolve_connectable(addresses.clone(), tested);
    assert_eq!(step(&[]), ConnectableStep::Test(first));
    assert_eq!(step(&[true]), ConnectableStep::Found(first));
    assert_eq!(step(&[false]), ConnectableStep::Test(second));
    assert_eq!(step(&[false, true]), ConnectableStep::Found(second));
    assert_eq!(step(&[false, false]), ConnectableStep::NotFound);
    assert_eq!(
        destination.resolve_connectable(vec![], &[]),
        ConnectableStep::NotFound
    );
}
