use plug2proxy::address::{IpAddress, SocketAddress};
use plug2proxy::primitives::{
    NodeId, OutExit, SniffedProtocol, SocketDestination, SocketDestinationHost,
};
use plug2proxy::route::geolite2::GeoLite2;
use plug2proxy::route::geosite::{Geosite, GeositeDatabase, GeositeDomain, GeositeList};
use plug2proxy::route::router::{given_again, Router};
use plug2proxy::route::routes::RouteMatch;
use plug2proxy::route::rule::{
    AddressRule, AndRule, AnyDomainMatcher, AnyRule, DomainRule, FallbackRule, ProtocolRule,
    RuleKind,
};

fn router() -> Router {
    Router::new(GeoLite2::new(None), Geosite::new(None))
}

fn fallback(exit: OutExit) -> AnyRule {
    FallbackRule { exits: vec![exit] }.into()
}

fn domain_rule(expression: &str, priority: i64, exit: OutExit) -> DomainRule {
    DomainRule {
        matchers: vec![match AnyDomainMatcher::parse(expression) {
            Ok(matcher) => matcher,
            Err(_) => panic!("{expression} does not compile"),
        }],
        priority,
        negate: false,
        exits: vec![exit],
        dns_only: false,
    }
}

fn port_rule(port: u16, priority: i64, exits: Vec<OutExit>) -> AnyRule {
    AddressRule {
        match_ips: None,
        match_ports: Some(vec![port]),
        priority,
        negate: false,
        exits,
    }
    .into()
}

fn destination(octets: [u8; 4], port: u16, domain: Option<&str>) -> SocketDestination {
    SocketDestination {
        host: SocketDestinationHost::IpAddress(IpAddress::V4(octets)),
        port,
        routing_domain: domain.map(str::to_owned),
        routing_protocol: None,
    }
}

fn first_address(destination: &SocketDestination) -> Option<SocketAddress> {
    destination.resolve(vec![]).first().copied()
}

fn exits(router: &mut Router, destination: &SocketDestination) -> Vec<OutExit> {
    let address = first_address(destination);
    router.match_exits(destination, address)
}

fn routes(router: &mut Router, destination: &SocketDestination) -> Vec<RouteMatch> {
    let address = first_address(destination);
    router.match_routes(destination, address)
}

fn route(exit: OutExit, rule_kinds: Vec<RuleKind>, address: Option<SocketAddress>) -> RouteMatch {
    RouteMatch {
        exit,
        rule_kinds,
        matched_address: address,
    }
}

#[test]
fn rule_updates_invalidate_cached_destination_matches() {
    let mut router = router();
    let destination = destination([127, 0, 0, 1], 80, None);

    router.register_local_rules(vec![fallback(OutExit::Direct)]);
    assert_eq!(exits(&mut router, &destination), vec![OutExit::Direct]);
    let kept = router.cached_routes(&destination);
    assert_eq!(
        kept,
        Some(vec![route(
            OutExit::Direct,
            vec![RuleKind::Fallback],
            first_address(&destination)
        )])
    );

    router.register_local_rules(vec![fallback(OutExit::Proxy)]);
    assert_eq!(router.cached_routes(&destination), None);
    assert_eq!(exits(&mut router, &destination), vec![OutExit::Proxy]);
}

#[test]
fn sniffed_domain_routes_without_changing_the_resolved_ip() {
    let mut router = router();
    let mut destination = destination([182, 140, 143, 139], 443, Some("c2c.cdn.weixin.qq.com"));
    destination.routing_protocol = Some(SniffedProtocol::Tls);
    router.register_local_rules(vec![
        domain_rule("weixin.qq.com", 0, OutExit::Proxy).into(),
        fallback(OutExit::Direct),
    ]);

    let address = SocketAddress::new(IpAddress::V4([182, 140, 143, 139]), 443);
    assert_eq!(destination.resolve(vec![]), vec![address]);
    assert_eq!(exits(&mut router, &destination), vec![OutExit::Proxy]);
    assert_eq!(
        routes(&mut router, &destination),
        vec![route(OutExit::Proxy, vec![RuleKind::Domain], Some(address))]
    );
}

#[test]
fn first_rule_for_an_exit_controls_resolution_provenance() {
    let mut router = router();
    let destination = destination([203, 0, 113, 8], 443, Some("example.com"));
    router.register_local_rules(vec![
        port_rule(443, 20, vec![OutExit::Proxy]),
        domain_rule("example.com", 10, OutExit::Proxy).into(),
    ]);

    assert_eq!(
        routes(&mut router, &destination),
        vec![route(
            OutExit::Proxy,
            vec![RuleKind::Domain],
            first_address(&destination)
        )]
    );
}

#[test]
fn protocol_rules_match_sniffed_protocol_and_cache_it_separately() {
    let mut router = router();
    router.register_local_rules(vec![
        ProtocolRule {
            matches: vec![SniffedProtocol::Ssh],
            priority: 0,
            negate: false,
            exits: vec![OutExit::Direct],
        }
        .into(),
        fallback(OutExit::Proxy),
    ]);

    let mut destination = destination([203, 0, 113, 8], 2222, None);
    assert_eq!(exits(&mut router, &destination), vec![OutExit::Proxy]);

    destination.routing_protocol = Some(SniffedProtocol::Ssh);
    assert_eq!(router.cached_routes(&destination), None);
    assert_eq!(
        routes(&mut router, &destination),
        vec![route(
            OutExit::Direct,
            vec![RuleKind::Protocol],
            first_address(&destination)
        )]
    );
}

fn example_on_443() -> AnyRule {
    AndRule {
        rules: vec![
            DomainRule {
                exits: vec![],
                ..domain_rule("example.com", i64::MAX, OutExit::Any)
            }
            .into(),
            port_rule(443, i64::MAX, vec![]),
        ],
        priority: 10,
        exits: vec![OutExit::Proxy],
    }
    .into()
}

#[test]
fn and_rule_matches_only_when_all_conditions_match() {
    let mut router = router();
    router.register_local_rules(vec![
        example_on_443(),
        domain_rule("example.com", 20, OutExit::Direct).into(),
    ]);

    let mut destination = destination([203, 0, 113, 8], 443, Some("example.com"));
    let address = first_address(&destination);
    assert_eq!(
        routes(&mut router, &destination),
        vec![
            route(
                OutExit::Proxy,
                vec![RuleKind::Domain, RuleKind::Address],
                address
            ),
            route(OutExit::Direct, vec![RuleKind::Domain], address),
        ]
    );

    destination.port = 80;
    assert_eq!(exits(&mut router, &destination), vec![OutExit::Direct]);
}

#[test]
fn build_rules_pushes_and_rules_but_not_fallback() {
    let mut router = router();
    router.register_local_rules(vec![
        ProtocolRule {
            matches: vec![SniffedProtocol::Ssh],
            priority: 20,
            negate: false,
            exits: vec![OutExit::Direct],
        }
        .into(),
        example_on_443(),
        fallback(OutExit::Direct),
    ]);

    let built_rules = router.build_rules();
    assert_eq!(built_rules.len(), 2);
    assert!(matches!(&*built_rules[0], AnyRule::And(_)));
    assert!(matches!(&*built_rules[1], AnyRule::Protocol(_)));
}

#[test]
fn dns_only_rules_apply_to_dns_but_not_connections() {
    let mut router = router();
    router.register_local_rules(vec![
        DomainRule {
            dns_only: true,
            ..domain_rule("example.com", 0, OutExit::Proxy)
        }
        .into(),
        fallback(OutExit::Direct),
    ]);

    let destination = SocketDestination {
        host: SocketDestinationHost::DomainName("example.com".to_owned()),
        port: 443,
        routing_domain: None,
        routing_protocol: None,
    };
    assert_eq!(router.match_exits(&destination, None), vec![OutExit::Direct]);
    assert_eq!(
        router.match_dns("example.com"),
        vec![route(OutExit::Proxy, vec![RuleKind::Domain], None)]
    );
}

#[test]
fn dns_matching_ignores_non_domain_rules_and_falls_back_to_direct() {
    let mut router = router();
    router.register_local_rules(vec![port_rule(443, 0, vec![OutExit::Proxy])]);

    let direct = vec![RouteMatch::fixed(OutExit::Direct)];
    assert_eq!(
        direct,
        vec![route(OutExit::Direct, vec![RuleKind::Fallback], None)]
    );
    assert_eq!(router.match_dns("example.com"), direct);
    assert_eq!(router.match_dns("EXAMPLE.com."), direct);
}

#[test]
fn without_a_fallback_everything_connects_directly() {
    let mut router = router();
    let destination = destination([1, 2, 3, 4], 80, None);
    assert_eq!(exits(&mut router, &destination), vec![]);
    router.register_local_rules(vec![]);
    assert_eq!(exits(&mut router, &destination), vec![OutExit::Direct]);
}

#[test]
fn rules_are_tested_by_priority_and_then_in_their_order() {
    let mut router = router();
    router.register_local_rules(vec![
        port_rule(80, 5, vec![OutExit::from("late")]),
        port_rule(80, 1, vec![OutExit::from("first"), OutExit::from("second")]),
        port_rule(80, 1, vec![OutExit::from("third"), OutExit::from("first")]),
    ]);
    let destination = destination([1, 2, 3, 4], 80, None);
    assert_eq!(
        exits(&mut router, &destination),
        vec![
            OutExit::from("first"),
            OutExit::from("second"),
            OutExit::from("third"),
            OutExit::from("late"),
        ]
    );
}

#[test]
fn sources_are_replaced_and_dropped_one_by_one() {
    let mut router = router();
    let node = NodeId::new();
    let other = NodeId::new();
    let destination = destination([1, 2, 3, 4], 80, None);
    router.register_node_rules(node, vec![port_rule(80, 1, vec![OutExit::from("a")])]);
    router.register_node_rules(other, vec![port_rule(80, 2, vec![OutExit::from("b")])]);
    assert_eq!(
        exits(&mut router, &destination),
        vec![OutExit::from("a"), OutExit::from("b")]
    );
    router.register_node_rules(node, vec![port_rule(80, 3, vec![OutExit::from("c")])]);
    assert_eq!(
        exits(&mut router, &destination),
        vec![OutExit::from("b"), OutExit::from("c")]
    );
    router.unregister_node_rules(other);
    assert_eq!(exits(&mut router, &destination), vec![OutExit::from("c")]);
    router.unregister_node_rules(other);
    router.unregister_node_rules(node);
    assert_eq!(exits(&mut router, &destination), vec![OutExit::Direct]);
}

#[test]
fn new_lists_change_the_routes() {
    let mut router = router();
    assert!(router.register_local_rules(vec![
        domain_rule("geosite:test", 0, OutExit::Proxy).into(),
    ]));
    assert!(!router.register_local_rules(vec![
        domain_rule("geosite:test", 0, OutExit::Proxy).into(),
    ]));
    let destination = destination([1, 2, 3, 4], 80, Some("A.Example"));
    assert_eq!(exits(&mut router, &destination), vec![OutExit::Direct]);
    let lists = vec![GeositeList {
        country_code: "test".to_owned(),
        domains: vec![GeositeDomain {
            type_number: 3,
            value: "a.example".to_owned(),
            attributes: vec![],
        }],
    }];
    match GeositeDatabase::new(lists) {
        Ok(database) => router.install_geosite(database),
        Err(error) => panic!("{error:?}"),
    }
    assert_eq!(router.cached_routes(&destination), None);
    assert_eq!(exits(&mut router, &destination), vec![OutExit::Proxy]);
}

#[test]
fn invalid_region_databases_are_refused() {
    let mut router = router();
    assert!(router.install_regions(b"not a MaxMind database".to_vec()).is_err());
}

#[test]
fn routes_that_the_cache_holds_are_given_again() {
    let kept = vec![
        route(OutExit::Proxy, vec![RuleKind::Domain], None),
        RouteMatch::fixed(OutExit::Direct),
    ];
    assert_eq!(given_again(None), None);
    assert_eq!(given_again(Some(std::sync::Arc::new(kept.clone()))), Some(kept));
    assert_eq!(
        given_again(Some(std::sync::Arc::new(vec![]))),
        Some(vec![])
    );

    let mut router = router();
    let destination = destination([192, 0, 2, 1], 80, None);
    assert_eq!(router.cached_routes(&destination), None);
    let found = routes(&mut router, &destination);
    assert_eq!(router.cached_routes(&destination), Some(found));
}

#[test]
fn names_that_are_alike_get_the_same_distinct_exits() {
    let mut router = router();
    let mut later = domain_rule("example.com", 5, OutExit::Any);
    later.exits = vec![OutExit::Proxy, OutExit::Direct];
    router.register_local_rules(vec![
        later.into(),
        domain_rule("com", 1, OutExit::Proxy).into(),
        port_rule(443, 0, vec![OutExit::Any]),
    ]);
    let expected = vec![
        route(OutExit::Proxy, vec![RuleKind::Domain], None),
        route(OutExit::Direct, vec![RuleKind::Domain], None),
    ];
    assert_eq!(router.match_dns("Example.COM.."), expected);
    assert_eq!(router.match_dns("example.com"), expected);
}
