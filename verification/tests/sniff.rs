use plug2proxy::sniff::cursor::SliceCursor;
use plug2proxy::sniff::domain::normalize_domain;
use plug2proxy::sniff::{
    sniff_tcp_prefix, QuicSniffStep, QuicSniffer, SniffOutcome, SniffedDomain,
    SniffedProtocol, TcpSniffAction, TcpSniffEvent, TcpSniffOptions, TcpSniffer,
};
use plug2proxy::time::TimeSpan;

fn tls_client_hello(domain: &str) -> Vec<u8> {
    let name = domain.as_bytes();
    let mut server_name = Vec::new();
    server_name.extend_from_slice(&((name.len() + 3) as u16).to_be_bytes());
    server_name.push(0);
    server_name.extend_from_slice(&(name.len() as u16).to_be_bytes());
    server_name.extend_from_slice(name);

    let mut extensions = Vec::new();
    extensions.extend_from_slice(&0_u16.to_be_bytes());
    extensions.extend_from_slice(&(server_name.len() as u16).to_be_bytes());
    extensions.extend_from_slice(&server_name);

    let mut hello = Vec::new();
    hello.extend_from_slice(&0x0303_u16.to_be_bytes());
    hello.extend_from_slice(&[7; 32]);
    hello.push(0);
    hello.extend_from_slice(&2_u16.to_be_bytes());
    hello.extend_from_slice(&0x1301_u16.to_be_bytes());
    hello.push(1);
    hello.push(0);
    hello.extend_from_slice(&(extensions.len() as u16).to_be_bytes());
    hello.extend_from_slice(&extensions);

    let mut handshake = Vec::new();
    handshake.push(1);
    handshake.extend_from_slice(&[
        ((hello.len() >> 16) & 0xff) as u8,
        ((hello.len() >> 8) & 0xff) as u8,
        (hello.len() & 0xff) as u8,
    ]);
    handshake.extend_from_slice(&hello);

    tls_record(&handshake)
}

fn tls_record(payload: &[u8]) -> Vec<u8> {
    let mut record = vec![22, 3, 1];
    record.extend_from_slice(&(payload.len() as u16).to_be_bytes());
    record.extend_from_slice(payload);
    record
}

fn domain(protocol: SniffedProtocol, domain: &str) -> SniffOutcome {
    SniffOutcome::Domain(SniffedDomain {
        protocol,
        domain: domain.to_owned(),
    })
}

#[test]
fn empty_prefix_asks_for_more() {
    assert_eq!(sniff_tcp_prefix(b""), SniffOutcome::NeedMoreData);
}

#[test]
fn sniffs_tls_sni() {
    assert_eq!(
        sniff_tcp_prefix(&tls_client_hello("C2C.CDN.WEIXIN.QQ.COM.")),
        domain(SniffedProtocol::Tls, "c2c.cdn.weixin.qq.com")
    );
}

#[test]
fn reassembles_client_hello_across_tls_records() {
    let packet = tls_client_hello("example.com");
    let handshake = &packet[5..];
    let split = 17;
    let mut records = tls_record(&handshake[..split]);
    records.extend_from_slice(&tls_record(&handshake[split..]));

    assert_eq!(
        sniff_tcp_prefix(&records),
        domain(SniffedProtocol::Tls, "example.com")
    );
}

#[test]
fn every_tls_prefix_is_safe_and_requests_more_data() {
    let packet = tls_client_hello("example.com");
    for length in 0..packet.len() {
        assert_eq!(
            sniff_tcp_prefix(&packet[..length]),
            SniffOutcome::NeedMoreData,
            "prefix length {length}"
        );
    }
}

#[test]
fn malformed_tls_lengths_fail_open() {
    let mut packet = tls_client_hello("example.com");
    packet[3..5].copy_from_slice(&u16::MAX.to_be_bytes());
    assert_eq!(sniff_tcp_prefix(&packet), SniffOutcome::NoDomain);

    let mut packet = tls_client_hello("example.com");
    packet[6..9].copy_from_slice(&[0xff, 0xff, 0xff]);
    assert_eq!(sniff_tcp_prefix(&packet), SniffOutcome::NoDomain);
}

#[test]
fn sniffs_http_host_connect_and_absolute_form() {
    for (request, name) in [
        (
            b"GET /image HTTP/1.1\r\nhOsT: C2C.CDN.WEIXIN.QQ.COM:443\r\n\r\n".as_slice(),
            "c2c.cdn.weixin.qq.com",
        ),
        (
            b"CONNECT passkeys.example.com:443 HTTP/1.1\r\n\r\n".as_slice(),
            "passkeys.example.com",
        ),
        (
            b"GET https://absolute.example/path HTTP/1.1\r\nUser-Agent: test\r\n\r\n".as_slice(),
            "absolute.example",
        ),
    ] {
        assert_eq!(
            sniff_tcp_prefix(request),
            domain(SniffedProtocol::Http, name)
        );
    }
}

#[test]
fn http_partial_and_non_protocol_data_are_distinguished() {
    assert_eq!(
        sniff_tcp_prefix(b"POST / HTTP/1.1\r\nHost: example.com\r\n"),
        SniffOutcome::NeedMoreData
    );
    assert_eq!(
        sniff_tcp_prefix(b"\x01\x02\x03\x04"),
        SniffOutcome::NoDomain
    );
    assert_eq!(
        sniff_tcp_prefix(b"GET / HTTP/1.1\r\nHost: 192.0.2.1\r\n\r\n"),
        SniffOutcome::NoDomain
    );
}

#[test]
fn every_http_prefix_is_safe() {
    let request = b"GET /image HTTP/1.1\r\nHost: c2c.cdn.weixin.qq.com:443\r\n\r\n";
    for length in 0..request.len() {
        assert_eq!(
            sniff_tcp_prefix(&request[..length]),
            SniffOutcome::NeedMoreData,
            "prefix length {length}"
        );
    }
}

#[test]
fn a_decision_is_not_changed_by_more_data() {
    let mut packet = tls_client_hello("example.com");
    packet.extend_from_slice(b"more data");
    assert_eq!(
        sniff_tcp_prefix(&packet),
        domain(SniffedProtocol::Tls, "example.com")
    );
}

#[test]
fn domains_are_normalized() {
    assert_eq!(
        normalize_domain(b"WWW.Example.COM.:443"),
        Some("www.example.com".to_owned())
    );
    assert_eq!(normalize_domain(b"192.0.2.1"), None);
    assert_eq!(normalize_domain(b"[2001:db8::1]:443"), None);
    assert_eq!(normalize_domain(b"-bad.example"), None);
    assert_eq!(normalize_domain(b""), None);
}

#[test]
fn sniffer_replays_every_byte() {
    let payload = tls_client_hello("example.com");
    let options = TcpSniffOptions {
        max_bytes: 64 * 1024,
        timeout: TimeSpan::from_secs(1),
    };
    let mut sniffer = TcpSniffer::new(&options);
    let mut action = sniffer.step(TcpSniffEvent::Started);
    for chunk in payload.chunks(7) {
        assert!(matches!(action, TcpSniffAction::Read(_)));
        action = sniffer.step(TcpSniffEvent::Read(chunk.to_vec()));
    }
    let found = match action {
        TcpSniffAction::Finish(found) => found,
        TcpSniffAction::Read(_) => panic!("the hello is complete"),
    };
    let mut sniffed = sniffer.finish(found, "stream");
    assert_eq!(
        sniffed.domain,
        Some(SniffedDomain {
            protocol: SniffedProtocol::Tls,
            domain: "example.com".to_owned(),
        })
    );

    let mut replayed = Vec::new();
    while let Some(bytes) = sniffed.stream.replay(10) {
        assert!(bytes.len() <= 10);
        replayed.extend_from_slice(&bytes);
    }
    assert_eq!(replayed, payload);
    assert_eq!(sniffed.stream.into_inner(), "stream");
}

#[test]
fn sniffer_timeout_replays_partial_data() {
    let partial = b"GET / HTTP/1.1\r\nHost: examp";
    let options = TcpSniffOptions {
        max_bytes: 1024,
        timeout: TimeSpan::from_millis(10),
    };
    let mut sniffer = TcpSniffer::new(&options);
    assert!(matches!(
        sniffer.step(TcpSniffEvent::Started),
        TcpSniffAction::Read(_)
    ));
    assert!(matches!(
        sniffer.step(TcpSniffEvent::Read(partial.to_vec())),
        TcpSniffAction::Read(_)
    ));
    assert!(matches!(
        sniffer.step(TcpSniffEvent::TimedOut),
        TcpSniffAction::Finish(None)
    ));
    let mut sniffed = sniffer.finish(None, ());
    assert_eq!(sniffed.domain, None);
    assert_eq!(sniffed.stream.replay(1024), Some(partial.to_vec()));
    assert_eq!(sniffed.stream.replay(1024), None);
}

#[test]
fn invalid_quic_datagrams_fail_open_without_panicking() {
    for length in 0..64 {
        let mut sniffer = QuicSniffer::new();
        let outcome = match sniffer.take_in(&vec![0xff; length]) {
            QuicSniffStep::Refuse => SniffOutcome::NoDomain,
            QuicSniffStep::OpenAndFeed => sniffer.connection_refused(),
            QuicSniffStep::Feed => panic!("no connection is open"),
        };
        assert_eq!(outcome, SniffOutcome::NoDomain);
        assert!(sniffer.is_finished());
    }
}

#[test]
fn quic_server_name_is_normalized() {
    let mut initial = vec![0xc0, 0, 0, 0, 1];
    initial.resize(1200, 0);
    let mut sniffer = QuicSniffer::new();
    assert!(matches!(
        sniffer.take_in(&initial),
        QuicSniffStep::OpenAndFeed
    ));
    sniffer.connection_opened();
    assert_eq!(sniffer.fed(None, false), SniffOutcome::NeedMoreData);
    assert!(matches!(sniffer.take_in(&initial), QuicSniffStep::Feed));
    assert_eq!(
        sniffer.fed(Some(b"Passkeys.Example.COM"), false),
        domain(SniffedProtocol::Quic, "passkeys.example.com")
    );
    assert!(sniffer.is_finished());
}

#[test]
fn protocols_are_named_in_lower_case() {
    assert_eq!(SniffedProtocol::named("tls"), Some(SniffedProtocol::Tls));
    assert_eq!(SniffedProtocol::named("http"), Some(SniffedProtocol::Http));
    assert_eq!(SniffedProtocol::named("quic"), Some(SniffedProtocol::Quic));
    assert_eq!(SniffedProtocol::named("ssh"), Some(SniffedProtocol::Ssh));
    assert_eq!(SniffedProtocol::named("TLS"), None);
}

#[test]
fn blocks_that_are_cut_short_lose_their_length() {
    let mut cursor = SliceCursor::new(&[0, 3, 1, 2]);
    assert_eq!(cursor.take_u16_length_prefixed(), None);
    assert_eq!(cursor.remaining, &[1, 2]);
    let mut cursor = SliceCursor::new(&[7]);
    assert_eq!(cursor.take_u16_length_prefixed(), None);
    assert_eq!(cursor.remaining, &[7]);
    assert_eq!(cursor.take_u8_length_prefixed(), None);
    assert!(cursor.is_empty());
    assert_eq!(cursor.take_u8_length_prefixed(), None);
    let mut cursor = SliceCursor::new(&[0, 1, 9, 8]);
    assert_eq!(cursor.take_u16_length_prefixed(), Some(&[9][..]));
    assert_eq!(cursor.remaining, &[8]);
}

#[test]
fn normal_domains_are_kept_however_they_are_spelled() {
    let domain = normalize_domain(b" Www.Example-1.COM.:8443").unwrap();
    assert_eq!(domain, "www.example-1.com");
    for spelled in [
        "www.example-1.com",
        "www.example-1.com.",
        "www.example-1.com:443",
        "www.example-1.com.:443",
        " www.example-1.com ",
        "\t\r\n www.example-1.com:1 \x0c",
        "WWW.EXAMPLE-1.COM",
    ] {
        assert_eq!(
            normalize_domain(spelled.as_bytes()).as_deref(),
            Some(domain.as_str()),
            "{spelled}"
        );
    }
    assert_eq!(normalize_domain(b"www.example-1.com.."), None);
    assert_eq!(normalize_domain(b"www.example-1.com:"), None);
}
