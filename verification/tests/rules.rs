use plug2proxy::address::{IpAddress, SocketAddress};
use plug2proxy::out::OutExitConfig;
use plug2proxy::primitives::{OutExit, SniffedProtocol};
use plug2proxy::route::config::{
    AddressFilterConfig, AndRuleConfig, DomainFilterConfig, DomainMatcherConfig,
    FallbackRuleConfig, FullRuleConfig, GeoIpFilterConfig, ProtocolFilterConfig, RouteConfig,
    RouteRuleConfig, RouteRuleFilterConfig, RuleCommonConfig,
};
use plug2proxy::route::domain::{comparable_domain, contains_text};
use plug2proxy::route::geolite2::{region_codes, CountryRecord, GeoLite2, InvalidDatabase};
use plug2proxy::route::geosite::{
    root_domain_matches, Geosite, GeositeDatabase, GeositeDomain, GeositeError, GeositeList,
    GeositeListError,
};
use plug2proxy::route::ip_net::IpNet;
use plug2proxy::route::rule::{
    AddressRule, AndRule, AnyDomainMatcher, AnyRule, DomainNameMatcher, DomainRegexMatcher,
    DomainRule, GeoIpRule, InvalidRegex, ProtocolRule, RuleKind,
};
use plug2proxy::route::selector::GeositeDomainMatcher;
use plug2proxy::route::update::{first_update_delay, next_update_delay};
use plug2proxy::time::TimeSpan;

fn matcher(expression: &str) -> AnyDomainMatcher {
    assert!(AnyDomainMatcher::is_usable(expression));
    match AnyDomainMatcher::parse(expression) {
        Ok(matcher) => matcher,
        Err(_) => panic!("{expression} does not compile"),
    }
}

fn domain_rule(expression: &str) -> DomainRule {
    DomainRule {
        matchers: vec![matcher(expression)],
        priority: i64::MAX,
        negate: false,
        exits: vec![],
        dns_only: false,
    }
}

fn port_rule(port: u16) -> AddressRule {
    AddressRule {
        match_ips: None,
        match_ports: Some(vec![port]),
        priority: i64::MAX,
        negate: false,
        exits: vec![],
    }
}

fn address(octets: [u8; 4], port: u16) -> Option<SocketAddress> {
    Some(SocketAddress::new(IpAddress::V4(octets), port))
}

#[test]
fn domain_name_matcher_matches_root_and_subdomains_case_insensitively() {
    let matcher = DomainNameMatcher::new("Example.COM.".to_owned());

    assert!(matcher.matches("example.com"));
    assert!(matcher.matches("www.example.com"));
    assert!(!matcher.matches("notexample.com"));
    assert_eq!(matcher.domain(), "example.com");
}

#[test]
fn parses_geosite_list_and_attributes() {
    let AnyDomainMatcher::Geosite(matcher) = matcher("geosite:geolocation-!cn@cn@ads") else {
        panic!("expected Geosite matcher");
    };

    assert_eq!(matcher.site, "GEOLOCATION-!CN");
    assert_eq!(matcher.attributes, ["cn", "ads"]);
}

#[test]
fn empty_names_cannot_be_parsed() {
    for expression in ["", "...", "geosite:", "geosite:@cn", "geosite:cn@", "geosite:cn@@ads"] {
        assert!(!AnyDomainMatcher::is_usable(expression), "{expression}");
    }
    assert!(AnyDomainMatcher::is_usable("regex:"));
}

#[test]
fn regex_matcher_matches_normalized_domains() {
    let mut geosite = Geosite::new(None);
    let matcher = matcher(r"regex:(?:^|\.)bitget");

    assert!(matcher.matches("bitget.com", &mut geosite));
    assert!(matcher.matches("api.bitget.com", &mut geosite));
    assert!(!matcher.matches("notbitget.com", &mut geosite));
    assert!(AnyDomainMatcher::parse("regex:(").is_err());
}

#[test]
fn regex_matcher_keeps_its_pattern() {
    match DomainRegexMatcher::new("^a+$") {
        Ok(matcher) => {
            assert_eq!(matcher.pattern(), "^a+$");
            assert!(matcher.matches("aaa"));
            assert!(!matcher.matches("aab"));
        }
        Err(_) => panic!("the pattern compiles"),
    }
    assert!(matches!(DomainRegexMatcher::new("("), Err(InvalidRegex)));
}

#[test]
fn and_rule_matches_only_when_all_sub_rules_match() {
    let mut geosite = Geosite::new(None);
    let domain = Some("example.com".to_owned());
    let rule = AndRule {
        rules: vec![domain_rule("example.com").into(), port_rule(443).into()],
        priority: 10,
        exits: vec![OutExit::Proxy],
    };

    let matching = address([203, 0, 113, 8], 443);
    assert_eq!(
        rule.test(&matching, &domain, &None, &None, &mut geosite),
        Some(vec![RuleKind::Domain, RuleKind::Address])
    );

    let other = address([203, 0, 113, 8], 80);
    assert_eq!(rule.test(&other, &domain, &None, &None, &mut geosite), None);
    assert_eq!(rule.test(&None, &domain, &None, &None, &mut geosite), None);

    let empty = AndRule {
        rules: vec![],
        priority: 10,
        exits: vec![OutExit::Proxy],
    };
    assert_eq!(empty.test(&other, &domain, &None, &None, &mut geosite), None);
}

#[test]
fn kinds_of_conditions_are_listed_once() {
    let mut geosite = Geosite::new(None);
    let domain = Some("www.example.com".to_owned());
    let rule = AnyRule::from(AndRule {
        rules: vec![
            domain_rule("example.com").into(),
            domain_rule("www.example.com").into(),
            port_rule(443).into(),
        ],
        priority: 10,
        exits: vec![],
    });
    let address = address([203, 0, 113, 8], 443);
    assert_eq!(
        rule.test(&address, &domain, &None, &None, &mut geosite),
        Some(vec![RuleKind::Domain, RuleKind::Address])
    );
}

#[test]
fn negated_rules_match_the_rest_of_what_is_known() {
    let rule = GeoIpRule {
        matches: vec!["CN".to_owned()],
        priority: 0,
        negate: true,
        exits: vec![],
    };
    assert_eq!(rule.test(&Some(vec!["US".to_owned()])), Some(vec![RuleKind::GeoIp]));
    assert_eq!(rule.test(&Some(vec!["CN".to_owned(), "AS".to_owned()])), None);
    assert_eq!(rule.test(&None), None);

    let rule = ProtocolRule {
        matches: vec![SniffedProtocol::Ssh],
        priority: 0,
        negate: true,
        exits: vec![],
    };
    assert_eq!(
        rule.test(&Some(SniffedProtocol::Tls)),
        Some(vec![RuleKind::Protocol])
    );
    assert_eq!(rule.test(&Some(SniffedProtocol::Ssh)), None);
    assert_eq!(rule.test(&None), None);

    let rule = AddressRule {
        negate: true,
        ..port_rule(443)
    };
    assert_eq!(rule.test(&address([1, 1, 1, 1], 80)), Some(vec![RuleKind::Address]));
    assert_eq!(rule.test(&address([1, 1, 1, 1], 443)), None);
    assert_eq!(rule.test(&None), None);
}

#[test]
fn address_rules_need_network_and_port() {
    let rule = AddressRule {
        match_ips: Some(vec![IpNet::parse("10.0.0.0/8").unwrap()]),
        ..port_rule(443)
    };
    assert_eq!(rule.test(&address([10, 1, 2, 3], 443)), Some(vec![RuleKind::Address]));
    assert_eq!(rule.test(&address([10, 1, 2, 3], 80)), None);
    assert_eq!(rule.test(&address([11, 1, 2, 3], 443)), None);

    let silent = AddressRule {
        match_ports: None,
        negate: true,
        ..port_rule(443)
    };
    assert_eq!(silent.test(&address([1, 1, 1, 1], 1)), None);
}

#[test]
fn networks_hold_addresses_with_their_bits() {
    let net = IpNet::parse("192.168.16.0/20").unwrap();
    assert!(net.contains(&IpAddress::V4([192, 168, 16, 0])));
    assert!(net.contains(&IpAddress::V4([192, 168, 31, 255])));
    assert!(!net.contains(&IpAddress::V4([192, 168, 32, 0])));
    assert!(!net.contains(&IpAddress::V6([0; 16])));
    let all = IpNet::parse("::/0").unwrap();
    assert!(all.contains(&IpAddress::V6([255; 16])));
    assert!(!all.contains(&IpAddress::V4([1, 2, 3, 4])));
    let host = IpNet::parse("1.2.3.4/32").unwrap();
    assert!(host.contains(&IpAddress::V4([1, 2, 3, 4])));
    assert!(!host.contains(&IpAddress::V4([1, 2, 3, 5])));
    for text in ["1.2.3.4", "1.2.3.4/33", "1.2.3.4/", "::/129", "x/8", "1.2.3.4/08"] {
        assert!(IpNet::parse(text).is_none(), "{text}");
    }
    assert!(IpNet::new(IpAddress::V4([0; 4]), 33).is_none());
}

#[test]
fn domains_are_compared_in_lower_case_without_end_dots() {
    assert_eq!(comparable_domain("WWW.Example.COM.."), "www.example.com");
    assert_eq!(comparable_domain("..."), "");
    assert!(contains_text("has-keyword.example", "keyword"));
    assert!(contains_text("anything", ""));
    assert!(!contains_text("key", "keyword"));
}

fn entry(type_number: i32, value: &str, attributes: &[&str]) -> GeositeDomain {
    GeositeDomain {
        type_number,
        value: value.to_owned(),
        attributes: attributes.iter().map(|key| key.to_string()).collect(),
    }
}

fn list(name: &str, domains: Vec<GeositeDomain>) -> GeositeList {
    GeositeList {
        country_code: name.to_owned(),
        domains,
    }
}

fn database(lists: Vec<GeositeList>) -> GeositeDatabase {
    match GeositeDatabase::new(lists) {
        Ok(database) => database,
        Err(error) => panic!("{error:?}"),
    }
}

#[test]
fn matches_all_geosite_domain_types_and_attributes() {
    let mut database = database(vec![list(
        "test",
        vec![
            entry(2, "root.example", &[]),
            entry(3, "full.example", &[]),
            entry(0, "keyword", &[]),
            entry(1, r"^regex[0-9]+\.example$", &[]),
            entry(2, "china.example", &["cn"]),
        ],
    )]);
    let matcher = GeositeDomainMatcher::parse("geosite:test");

    assert!(database.matches(&matcher, "root.example"));
    assert!(database.matches(&matcher, "www.root.example"));
    assert!(!database.matches(&matcher, "notroot.example"));
    assert!(database.matches(&matcher, "full.example"));
    assert!(!database.matches(&matcher, "www.full.example"));
    assert!(database.matches(&matcher, "has-keyword.example"));
    assert!(database.matches(&matcher, "regex42.example"));

    let matcher = GeositeDomainMatcher::parse("geosite:test@cn");

    assert!(database.matches(&matcher, "www.china.example"));
    assert!(!database.matches(&matcher, "root.example"));
}

#[test]
fn lists_that_do_not_compile_match_nothing() {
    let mut database = database(vec![
        list("pattern", vec![entry(1, "(", &[]), entry(3, "a.example", &[])]),
        list("number", vec![entry(3, "a.example", &["x"]), entry(9, "b", &[])]),
    ]);
    let pattern = GeositeDomainMatcher::parse("geosite:pattern");
    let number = GeositeDomainMatcher::parse("geosite:number");
    let missing = GeositeDomainMatcher::parse("geosite:missing");
    assert!(matches!(database.compile(&pattern), Err(GeositeError::InvalidRegex)));
    assert!(matches!(database.compile(&number), Err(GeositeError::UnknownType(9))));
    assert!(matches!(database.compile(&missing), Err(GeositeError::UnknownList)));
    for selector in [pattern, number, missing] {
        assert!(!database.matches(&selector, "a.example"));
        assert!(!database.matches(&selector, "a.example"));
    }
    let selected = GeositeDomainMatcher::parse("geosite:number@X");
    assert!(database.matches(&selected, "a.example"));
}

#[test]
fn list_names_must_be_there_and_differ() {
    assert!(matches!(
        GeositeDatabase::new(vec![list("", vec![])]),
        Err(GeositeListError::EmptyName)
    ));
    match GeositeDatabase::new(vec![list("cn", vec![]), list("CN", vec![])]) {
        Err(error) => assert_eq!(error, GeositeListError::DuplicateName("CN".to_owned())),
        Ok(_) => panic!("the names are the same"),
    }
}

#[test]
fn root_domains_match_at_label_boundaries() {
    let roots = vec!["example.com".to_owned(), "org".to_owned()];
    assert!(root_domain_matches(&roots, "example.com"));
    assert!(root_domain_matches(&roots, "a.b.example.com"));
    assert!(root_domain_matches(&roots, "www.rust-lang.org"));
    assert!(!root_domain_matches(&roots, "badexample.com"));
    assert!(!root_domain_matches(&roots, "com"));
}

#[test]
fn geosite_updating_starts_once() {
    let mut geosite = Geosite::new(None);
    assert!(geosite.ensure_updating());
    assert!(!geosite.ensure_updating());
    let selector = GeositeDomainMatcher::parse("geosite:test");
    assert!(!geosite.matches(&selector, "a.example"));
    geosite.install(database(vec![list("test", vec![entry(3, "A.Example.", &[])])]));
    assert!(geosite.matches(&selector, "a.example"));
}

#[test]
fn region_codes_falls_back_to_registered_country() {
    let record = CountryRecord {
        country: None,
        registered_country: Some("US".to_string()),
        continent: None,
    };

    assert_eq!(region_codes(&record), Some(vec!["US".to_string()]));
}

#[test]
fn region_codes_prefers_country() {
    let record = CountryRecord {
        country: Some("CN".to_string()),
        registered_country: Some("US".to_string()),
        continent: Some("AS".to_string()),
    };

    assert_eq!(
        region_codes(&record),
        Some(vec!["CN".to_string(), "AS".to_string()])
    );
}

#[test]
fn region_codes_may_be_missing() {
    let record = CountryRecord {
        country: None,
        registered_country: None,
        continent: None,
    };
    assert_eq!(region_codes(&record), None);
}

fn text_field(out: &mut Vec<u8>, text: &str) {
    out.push(0x40 | text.len() as u8);
    out.extend_from_slice(text.as_bytes());
}

/// A database of one node: addresses whose first bit is 0 are in China, the others are unknown.
fn region_database() -> Vec<u8> {
    let mut bytes = vec![0, 0, 17, 0, 0, 1];
    bytes.extend_from_slice(&[0; 16]);
    bytes.push(0xe2);
    text_field(&mut bytes, "country");
    bytes.push(0xe1);
    text_field(&mut bytes, "iso_code");
    text_field(&mut bytes, "CN");
    text_field(&mut bytes, "continent");
    bytes.push(0xe1);
    text_field(&mut bytes, "code");
    text_field(&mut bytes, "AS");
    bytes.extend_from_slice(b"\xab\xcd\xefMaxMind.com");
    bytes.push(0xe9);
    text_field(&mut bytes, "binary_format_major_version");
    bytes.extend_from_slice(&[0xa1, 2]);
    text_field(&mut bytes, "binary_format_minor_version");
    bytes.extend_from_slice(&[0xa0]);
    text_field(&mut bytes, "build_epoch");
    bytes.extend_from_slice(&[0x01, 0x02, 1]);
    text_field(&mut bytes, "database_type");
    text_field(&mut bytes, "GeoLite2-Country");
    text_field(&mut bytes, "description");
    bytes.push(0xe0);
    text_field(&mut bytes, "ip_version");
    bytes.extend_from_slice(&[0xa1, 4]);
    text_field(&mut bytes, "languages");
    bytes.extend_from_slice(&[0x00, 0x04]);
    text_field(&mut bytes, "node_count");
    bytes.extend_from_slice(&[0xc1, 1]);
    text_field(&mut bytes, "record_size");
    bytes.extend_from_slice(&[0xa1, 24]);
    bytes
}

#[test]
fn region_database_is_looked_up() {
    let regions = GeoLite2::new(Some(region_database()));
    assert!(regions.is_ready());
    assert_eq!(
        regions.lookup(IpAddress::V4([1, 2, 3, 4])),
        Some(vec!["CN".to_string(), "AS".to_string()])
    );
    assert_eq!(regions.lookup(IpAddress::V4([200, 2, 3, 4])), None);
    assert_eq!(regions.lookup(IpAddress::V6([1; 16])), None);
}

#[test]
fn invalid_download_does_not_replace_existing_database() {
    let mut regions = GeoLite2::new(Some(region_database()));
    assert_eq!(
        regions.install(b"not a MaxMind database".to_vec()),
        Err(InvalidDatabase)
    );
    assert!(regions.lookup(IpAddress::V4([1, 2, 3, 4])).is_some());

    let mut regions = GeoLite2::new(None);
    assert_eq!(
        regions.install(b"not a MaxMind database".to_vec()),
        Err(InvalidDatabase)
    );
    assert!(!regions.is_ready());
    assert_eq!(regions.install(region_database()), Ok(()));
    assert!(regions.is_ready());
}

#[test]
fn invalid_existing_database_recovers_without_panicking() {
    let regions = GeoLite2::new(Some(b"not a MaxMind database".to_vec()));

    assert!(regions.lookup(IpAddress::V4([127, 0, 0, 1])).is_none());
}

#[test]
fn databases_are_updated_daily() {
    let day = 86_400;
    assert_eq!(first_update_delay(None), TimeSpan::from_secs(0));
    assert_eq!(
        first_update_delay(Some(TimeSpan::from_secs(3_600))),
        TimeSpan::from_secs(day - 3_600)
    );
    assert_eq!(
        first_update_delay(Some(TimeSpan::from_secs(day + 1))),
        TimeSpan::from_secs(0)
    );
    assert_eq!(next_update_delay(true), TimeSpan::from_secs(day));
    assert_eq!(next_update_delay(false), TimeSpan::from_secs(30));
}

fn exit(name: &str) -> Vec<OutExitConfig> {
    vec![OutExitConfig::named(name)]
}

fn common(priority: Option<i64>, name: &str) -> RuleCommonConfig {
    RuleCommonConfig {
        priority,
        exit: exit(name),
    }
}

fn domain_filter(expressions: &[&str]) -> DomainFilterConfig {
    DomainFilterConfig {
        matches: expressions
            .iter()
            .map(|expression| DomainMatcherConfig(matcher(expression)))
            .collect(),
        negate: false,
        dns_only: false,
    }
}

#[test]
fn domain_rule_accepts_plain_geosite_and_regex_matchers() {
    let config = RouteConfig {
        rules: vec![RouteRuleConfig::Domain(FullRuleConfig {
            filter: domain_filter(&["okx.com", "geosite:okx", "regex:^api\\.okx\\.com$"]),
            common: common(None, "hk"),
        })],
        priority: Some(100),
    };
    let rules = config.into_rules();
    let [AnyRule::Domain(rule)] = rules.as_slice() else {
        panic!("expected one domain rule");
    };

    assert!(matches!(
        rule.matchers.as_slice(),
        [
            AnyDomainMatcher::DomainName(_),
            AnyDomainMatcher::Geosite(_),
            AnyDomainMatcher::Regex(_)
        ]
    ));
    assert_eq!(rule.priority, 100);
    assert_eq!(rule.exits, [OutExit::from("hk")]);
}

#[test]
fn and_rule_shares_priority_and_exits_across_conditions() {
    let config = RouteConfig {
        rules: vec![RouteRuleConfig::And(AndRuleConfig {
            conditions: vec![
                RouteRuleFilterConfig::Domain(domain_filter(&["okx.com"])),
                RouteRuleFilterConfig::Address(AddressFilterConfig {
                    match_ip: None,
                    match_port: Some(vec![443]),
                    negate: true,
                }),
                RouteRuleFilterConfig::Protocol(ProtocolFilterConfig {
                    matches: vec![SniffedProtocol::Ssh],
                    negate: false,
                }),
                RouteRuleFilterConfig::GeoIp(GeoIpFilterConfig {
                    matches: vec!["JP".to_owned()],
                    negate: false,
                }),
            ],
            priority: Some(10),
            exit: exit("hk"),
        })],
        priority: None,
    };
    let rules = config.into_rules();
    let [AnyRule::And(rule)] = rules.as_slice() else {
        panic!("expected one AND rule");
    };

    assert_eq!(rule.priority, 10);
    assert_eq!(rule.exits, [OutExit::from("hk")]);

    let [
        AnyRule::Domain(domain_rule),
        AnyRule::Address(address_rule),
        AnyRule::Protocol(_),
        AnyRule::GeoIp(_),
    ] = rule.rules.as_slice()
    else {
        panic!("expected domain + address + protocol + geoip conditions");
    };
    assert!(!domain_rule.negate);
    assert!(address_rule.negate);
    assert!(domain_rule.exits.is_empty());
    assert!(address_rule.exits.is_empty());
}

#[test]
fn domain_rule_rejects_invalid_regex_matchers() {
    assert!(AnyDomainMatcher::parse("regex:(").is_err());
}

#[test]
fn protocol_rule_accepts_lowercase_protocols() {
    let config = RouteConfig {
        rules: vec![RouteRuleConfig::Protocol(FullRuleConfig {
            filter: ProtocolFilterConfig {
                matches: ["ssh", "tls"]
                    .iter()
                    .map(|name| SniffedProtocol::named(name).unwrap())
                    .collect(),
                negate: false,
            },
            common: common(Some(5), "DIRECT"),
        })],
        priority: None,
    };
    let rules = config.into_rules();
    let [AnyRule::Protocol(rule)] = rules.as_slice() else {
        panic!("expected one protocol rule");
    };

    assert_eq!(rule.matches, [SniffedProtocol::Ssh, SniffedProtocol::Tls]);
    assert_eq!(rule.priority, 5);
}

#[test]
fn protocol_rule_rejects_unknown_or_uppercase_protocols() {
    for protocol in ["smtp", "SSH"] {
        assert!(SniffedProtocol::named(protocol).is_none());
    }
}

#[test]
fn rules_without_priority_come_last() {
    let config = RouteConfig {
        rules: vec![
            RouteRuleConfig::GeoIp(FullRuleConfig {
                filter: GeoIpFilterConfig {
                    matches: vec!["JP".to_owned()],
                    negate: true,
                },
                common: common(None, "ANY"),
            }),
            RouteRuleConfig::Fallback(FallbackRuleConfig { exit: exit("PROXY") }),
        ],
        priority: None,
    };
    let rules = config.into_rules();
    assert_eq!(rules[0].priority(), i64::MAX);
    assert_eq!(rules[0].exits(), [OutExit::Any]);
    assert_eq!(rules[1].priority(), i64::MAX);
    assert_eq!(rules[1].exits(), [OutExit::Proxy]);
    assert!(!rules[0].requires_geosite());
}

#[test]
fn rules_know_whether_they_need_the_lists() {
    let rule = AnyRule::from(AndRule {
        rules: vec![port_rule(1).into(), domain_rule("geosite:cn").into()],
        priority: 0,
        exits: vec![],
    });
    assert!(rule.requires_geosite());
    assert!(!AnyRule::from(domain_rule("example.com")).requires_geosite());
}
