use plug2proxy::out::{
    advertised_peer_endpoint, build_local_out_dispatchers, DefaultLocalExit, ExitConfig,
    LocalExitBindConfig, LocalExitConfig, LocalOutDispatcher, Out, OutExitConfig, OutHubConfig,
    OutHubOptions, OutOptions,
};
use plug2proxy::out::config::DispatcherError;
use plug2proxy::address::{IpAddress, SocketAddress};
use plug2proxy::primitives::{
    NodeId, OutExit, OutExitMatch, OutExitMatchPriority, OutExitTag, OutExits,
};

fn matched(priority: OutExitMatchPriority, resolved_exit: OutExit) -> Option<OutExitMatch> {
    Some(OutExitMatch {
        priority,
        resolved_exit,
    })
}

fn v4(octets: [u8; 4], port: u16) -> SocketAddress {
    SocketAddress::new(IpAddress::V4(octets), port)
}

#[test]
fn dispatcher_and_advertised_exits_are_normalized() {
    let exits = OutExits::new(vec![
        OutExit::Any,
        OutExit::Direct,
        OutExit::Proxy,
        OutExit::from("us"),
        OutExit::from("youtube"),
        OutExit::from("us"),
    ]);

    assert_eq!(
        exits.as_slice(),
        &[
            OutExit::Direct,
            OutExit::Proxy,
            OutExit::from("us"),
            OutExit::from("youtube")
        ]
    );
    assert_eq!(
        exits.for_advertising().as_slice(),
        &[
            OutExit::Proxy,
            OutExit::from("us"),
            OutExit::from("youtube")
        ]
    );
    assert_eq!(
        OutExits::new(vec![
            OutExit::Direct,
            OutExit::Any,
            OutExit::Proxy,
            OutExit::Proxy,
            OutExit::from("us"),
            OutExit::from("us"),
        ])
        .for_advertising()
        .as_slice(),
        &[OutExit::Proxy, OutExit::from("us")],
        "wire exits contain neither local/request-only selectors nor duplicates"
    );
}

#[test]
fn selector_matching_is_centralized_and_resolves_any() {
    let cases = [
        (
            "no exits",
            vec![],
            vec![
                (OutExit::Direct, None),
                (OutExit::Proxy, None),
                (OutExit::Any, None),
                (OutExit::from("cn"), None),
            ],
        ),
        (
            "private default local",
            vec![OutExit::Direct],
            vec![
                (
                    OutExit::Direct,
                    matched(OutExitMatchPriority::DefaultLocal, OutExit::Direct),
                ),
                (OutExit::Proxy, None),
                (
                    OutExit::Any,
                    matched(OutExitMatchPriority::DefaultLocal, OutExit::Direct),
                ),
                (OutExit::from("cn"), None),
            ],
        ),
        (
            "published default local",
            vec![OutExit::Direct, OutExit::Proxy, OutExit::from("cn")],
            vec![
                (
                    OutExit::Direct,
                    matched(OutExitMatchPriority::DefaultLocal, OutExit::Direct),
                ),
                (
                    OutExit::Proxy,
                    matched(OutExitMatchPriority::Provider, OutExit::Proxy),
                ),
                (
                    OutExit::Any,
                    matched(OutExitMatchPriority::DefaultLocal, OutExit::Direct),
                ),
                (
                    OutExit::from("cn"),
                    matched(OutExitMatchPriority::Provider, OutExit::from("cn")),
                ),
                (OutExit::from("us"), None),
            ],
        ),
        (
            "tagless provider",
            vec![OutExit::Proxy],
            vec![
                (OutExit::Direct, None),
                (
                    OutExit::Proxy,
                    matched(OutExitMatchPriority::Provider, OutExit::Proxy),
                ),
                (
                    OutExit::Any,
                    matched(OutExitMatchPriority::Provider, OutExit::Proxy),
                ),
                (OutExit::from("us"), None),
            ],
        ),
        (
            "tagged provider",
            vec![
                OutExit::Proxy,
                OutExit::from("us"),
                OutExit::from("youtube"),
            ],
            vec![
                (OutExit::Direct, None),
                (
                    OutExit::Proxy,
                    matched(OutExitMatchPriority::Provider, OutExit::Proxy),
                ),
                (
                    OutExit::Any,
                    matched(OutExitMatchPriority::Provider, OutExit::Proxy),
                ),
                (
                    OutExit::from("us"),
                    matched(OutExitMatchPriority::Provider, OutExit::from("us")),
                ),
                (
                    OutExit::from("youtube"),
                    matched(OutExitMatchPriority::Provider, OutExit::from("youtube")),
                ),
                (OutExit::from("netflix"), None),
            ],
        ),
    ];

    for (case, exits, selectors) in cases {
        for (selector, expected) in selectors {
            assert_eq!(
                OutExits::new(exits.clone()).match_exit(&selector),
                expected,
                "{case}: {}",
                selector.to_text()
            );
        }
    }
}

#[test]
fn exits_have_names() {
    for name in ["DIRECT", "PROXY", "ANY", "us", "direct"] {
        assert_eq!(OutExit::from(name).to_text(), name);
    }
    assert_eq!(OutExit::named("DIRECT"), OutExit::Direct);
    assert_eq!(OutExit::named("PROXY"), OutExit::Proxy);
    assert_eq!(OutExit::named("ANY"), OutExit::Any);
    assert_eq!(OutExit::from(OutExitConfig::named("hk")), OutExit::from("hk"));
}

#[test]
fn normalizing_again_changes_nothing() {
    let exits = OutExits::new(vec![OutExit::Proxy, OutExit::from("us"), OutExit::Proxy]);
    let again = OutExits::new(exits.as_slice().to_vec());
    assert_eq!(again, exits);
    assert_eq!(
        exits.for_advertising().for_advertising(),
        exits.for_advertising()
    );
    assert_eq!(exits.iter().count(), 2);
}

#[test]
fn builds_private_default_when_exits_are_omitted() {
    let dispatchers = build_local_out_dispatchers(vec![]).unwrap();

    assert_eq!(dispatchers.len(), 1);
    assert_eq!(dispatchers[0].exits().as_slice(), &[OutExit::Direct]);
    assert_eq!(dispatchers[0].interface(), None);
}

fn local(tags: &[&str], interface: Option<&str>) -> ExitConfig {
    ExitConfig::Local(LocalExitConfig {
        tags: tags.iter().map(|tag| OutExitTag::from(*tag)).collect(),
        bind: interface.map(|interface| LocalExitBindConfig {
            interface: Some(interface.to_owned()),
        }),
    })
}

#[test]
fn parses_default_and_interface_bound_local_exits() {
    let dispatchers = build_local_out_dispatchers(vec![
        local(&["us", "youtube"], None),
        local(&["us", "netflix"], Some("wg0")),
    ])
    .unwrap();

    assert_eq!(dispatchers.len(), 2);
    assert_eq!(
        dispatchers[0].exits().as_slice(),
        &[
            OutExit::Direct,
            OutExit::Proxy,
            OutExit::from("us"),
            OutExit::from("youtube"),
        ]
    );
    assert_eq!(dispatchers[0].interface(), None);
    assert_eq!(
        dispatchers[1].exits().as_slice(),
        &[
            OutExit::Proxy,
            OutExit::from("us"),
            OutExit::from("netflix"),
        ]
    );
    assert_eq!(dispatchers[1].interface(), Some("wg0"));

    let default = dispatchers[0].exits();
    let bound = dispatchers[1].exits();

    for selector in [OutExit::Direct, OutExit::from("youtube")] {
        assert!(default.match_exit(&selector).is_some());
        assert!(bound.match_exit(&selector).is_none());
    }

    assert!(default.match_exit(&OutExit::from("netflix")).is_none());
    assert!(bound.match_exit(&OutExit::from("netflix")).is_some());

    for selector in [OutExit::Proxy, OutExit::from("us")] {
        assert!(default.match_exit(&selector).is_some());
        assert!(bound.match_exit(&selector).is_some());
    }

    assert!(default.match_exit(&OutExit::from("unknown")).is_none());
    assert!(bound.match_exit(&OutExit::from("unknown")).is_none());
}

#[test]
fn rejects_multiple_default_local_exits() {
    let configs = vec![
        local(&[], None),
        ExitConfig::Local(LocalExitConfig {
            tags: vec![],
            bind: Some(LocalExitBindConfig { interface: None }),
        }),
    ];

    assert_eq!(
        build_local_out_dispatchers(configs),
        Err(DispatcherError::MultipleDefaults)
    );
}

#[test]
fn rejects_names_that_no_interface_has() {
    for name in ["", "a-name-that-is-too-long", "wg\0"] {
        assert_eq!(
            build_local_out_dispatchers(vec![local(&[], Some(name))]),
            Err(DispatcherError::InvalidInterface(name.to_owned()))
        );
    }
}

fn options(listen: Option<SocketAddress>, advertise: Option<SocketAddress>) -> OutOptions {
    OutOptions {
        local_out_dispatchers: vec![
            LocalOutDispatcher::new_default(DefaultLocalExit::Private),
            LocalOutDispatcher::new_bound(
                vec![OutExitTag::from("us"), OutExitTag::from("netflix")],
                "wg0".to_owned(),
            )
            .unwrap(),
        ],
        listen,
        advertise,
        hub: OutHubOptions {
            address: v4([127, 0, 0, 1], 1122),
            connections: 1,
        },
        context_dir: String::new(),
    }
}

#[test]
fn advertises_union_of_explicit_local_exits() {
    let out = Out::new(options(None, None));

    assert_eq!(
        out.exits.as_slice(),
        &[
            OutExit::Proxy,
            OutExit::from("us"),
            OutExit::from("netflix"),
        ]
    );
    assert_eq!(out.id.bytes[6] >> 4, 4);
    assert_eq!(out.id.bytes[8] >> 6, 2);
}

#[test]
fn omitted_advertise_uses_bound_listener_port() {
    let address = advertised_peer_endpoint(v4([127, 0, 0, 1], 49152), None);

    assert_eq!(address, v4([0, 0, 0, 0], 49152));
}

#[test]
fn configured_advertise_is_used() {
    let address = advertised_peer_endpoint(v4([127, 0, 0, 1], 49152), Some(v4([1, 2, 3, 4], 5)));

    assert_eq!(address, v4([1, 2, 3, 4], 5));
}

#[test]
fn advertising_needs_a_listener_and_a_port() {
    let listen = Some(v4([0, 0, 0, 0], 1));
    assert!(options(None, None).check());
    assert!(options(listen, Some(v4([1, 1, 1, 1], 2))).check());
    assert!(!options(None, Some(v4([1, 1, 1, 1], 2))).check());
    assert!(!options(listen, Some(v4([1, 1, 1, 1], 0))).check());
}

#[test]
fn hub_connections_default_to_four() {
    let address = v4([127, 0, 0, 1], 1122);
    let options = OutHubOptions::from(OutHubConfig {
        address,
        connections: None,
    });
    assert_eq!(options.connections, 4);
    let options = OutHubOptions::from(OutHubConfig {
        address,
        connections: Some(0),
    });
    assert_eq!(options.connection_count(), 1);
}

#[test]
fn node_ids_are_random_uuids() {
    let id = NodeId::new();
    assert_eq!(id.bytes[6] >> 4, 4);
    assert_eq!(id.bytes[8] >> 6, 2);
    assert!(id.same(&id));
    assert!(!id.same(&NodeId::new()));
}

#[test]
fn exits_are_made_from_texts_and_tags() {
    for (text, exit) in [
        ("DIRECT", OutExit::Direct),
        ("PROXY", OutExit::Proxy),
        ("ANY", OutExit::Any),
        ("us", OutExit::Tag(OutExitTag("us".to_owned()))),
    ] {
        assert_eq!(OutExit::from(text), exit);
        assert_eq!(OutExit::from(text.to_owned()), exit);
    }
    assert_eq!(OutExitTag::from("us"), OutExitTag("us".to_owned()));
    assert_eq!(
        OutExitTag::from("us".to_owned()),
        OutExitTag("us".to_owned())
    );
    assert_eq!(
        OutExit::from(OutExitTag::from("DIRECT")),
        OutExit::Tag(OutExitTag("DIRECT".to_owned()))
    );
}
