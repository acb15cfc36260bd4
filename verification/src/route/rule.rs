//! Rules that say which exits a destination may use.

use vstd::prelude::*;
use vstd::string::*;

use super::domain::{
    comparable, comparable_domain, is_within, law_subdomains_end_in_a_dot_and_the_root, text_views,
    within,
};
use super::geolite2::optional_text;
use super::geolite2::optional_texts;
use super::geosite::{geosite_matches, Geosite, GeositeModel, Sites};
use super::ip_net::IpNet;
use super::patterns::{
    compile_regex, regex_compiles, regex_is_match, regex_matches, regex_pattern, regex_text,
};
use super::selector::{
    geosite_parts_are_named, has_prefix, is_geosite_expression, lists_text, parsed_selector,
    GeositeDomainMatcher, SelectorModel,
};
use crate::address::{SocketAddress, SocketAddressModel};
use crate::primitives::route::OutExit;
use crate::sniff::SniffedProtocol;

verus! {

/// By what kind of condition a rule matched.
#[derive(Clone, Copy, Debug, Hash, PartialEq, Eq, Structural)]
pub enum RuleKind {
    GeoIp,
    Address,
    Domain,
    Protocol,
    Fallback,
}

/// What is known of a connection when rules are tested.
pub struct MatchFacts {
    pub address: Option<SocketAddressModel>,
    pub domain: Option<Seq<char>>,
    pub protocol: Option<SniffedProtocol>,
    pub region_codes: Option<Seq<Seq<char>>>,
    pub sites: Option<Sites>,
}

/// The view of an address that may be missing.
pub open spec fn optional_address(address: Option<SocketAddress>) -> Option<SocketAddressModel> {
    match address {
        Some(address) => Some(address@),
        None => None,
    }
}

/// What is known, in mathematical form.
pub open spec fn facts_of(
    address: Option<SocketAddress>,
    domain: Option<String>,
    protocol: Option<SniffedProtocol>,
    region_codes: Option<Vec<String>>,
    geosite: GeositeModel,
) -> MatchFacts {
    MatchFacts {
        address: optional_address(address),
        domain: optional_text(domain),
        protocol,
        region_codes: optional_texts(region_codes),
        sites: geosite.sites,
    }
}

/// The kinds of a match that may be missing.
pub open spec fn optional_kinds(kinds: Option<Vec<RuleKind>>) -> Option<Seq<RuleKind>> {
    match kinds {
        Some(kinds) => Some(kinds@),
        None => None,
    }
}

/// One kind where a condition holds; with `negate`, where it does not.
pub open spec fn kind_where(condition: bool, negate: bool, kind: RuleKind) -> Option<
    Seq<RuleKind>,
> {
    if condition != negate {
        Some(seq![kind])
    } else {
        None
    }
}

fn matched_kind(condition: bool, negate: bool, kind: RuleKind) -> (kinds: Option<Vec<RuleKind>>)
    ensures
        optional_kinds(kinds) == kind_where(condition, negate, kind),
{
    if condition != negate {
        let kinds: Vec<RuleKind> = vec![kind];
        assert(kinds@ =~= seq![kind]);
        Some(kinds)
    } else {
        None
    }
}

/// Matches addresses by region.
#[derive(Debug, PartialEq, Eq)]
pub struct GeoIpRule {
    pub matches: Vec<String>,
    pub priority: i64,
    pub negate: bool,
    pub exits: Vec<OutExit>,
}

/// Whether two lists of texts have one in common.
pub open spec fn share_text(a: Seq<Seq<char>>, b: Seq<Seq<char>>) -> bool {
    exists|i: int| 0 <= i < a.len() && b.contains(#[trigger] a[i])
}

impl GeoIpRule {
    /// A rule by region matches only where the region is known.
    pub open spec fn outcome(&self, facts: MatchFacts) -> Option<Seq<RuleKind>> {
        match facts.region_codes {
            Some(codes) => kind_where(
                share_text(text_views(self.matches@), codes),
                self.negate,
                RuleKind::GeoIp,
            ),
            None => None,
        }
    }

    pub fn test(&self, region_codes: &Option<Vec<String>>) -> (kinds: Option<Vec<RuleKind>>)
        ensures
            forall|facts: MatchFacts|
                facts.region_codes == optional_texts(*region_codes) ==> optional_kinds(kinds)
                    == #[trigger] self.outcome(facts),
    {
        let codes = match region_codes {
            Some(codes) => codes,
            None => return None,
        };
        let ghost wanted = text_views(self.matches@);
        let ghost known = text_views(codes@);
        let mut condition = false;
        let mut index: usize = 0;
        while index < self.matches.len()
            invariant
                index <= self.matches@.len(),
                wanted == text_views(self.matches@),
                known == text_views(codes@),
                condition ==> share_text(wanted, known),
                !condition ==> forall|i: int|
                    0 <= i < index ==> !known.contains(#[trigger] wanted[i]),
            decreases self.matches@.len() - index,
        {
            assert(wanted[index as int] == self.matches@[index as int]@);
            if lists_text(codes, self.matches[index].as_str()) {
                condition = true;
            }
            index += 1;
        }
        matched_kind(condition, self.negate, RuleKind::GeoIp)
    }
}

/// Matches addresses by network and port.
#[derive(Debug, PartialEq, Eq)]
pub struct AddressRule {
    pub match_ips: Option<Vec<IpNet>>,
    pub match_ports: Option<Vec<u16>>,
    pub priority: i64,
    pub negate: bool,
    pub exits: Vec<OutExit>,
}

/// Whether one of the networks holds an address.
pub open spec fn held_by_one_of(nets: Seq<IpNet>, octets: Seq<u8>) -> bool {
    exists|i: int| 0 <= i < nets.len() && (#[trigger] nets[i])@.holds(octets)
}

impl AddressRule {
    /// A rule by address matches only where the address is known and the rule says something of
    /// addresses. What it does not speak of counts as matched.
    pub open spec fn outcome(&self, facts: MatchFacts) -> Option<Seq<RuleKind>> {
        match facts.address {
            Some(address) => if self.match_ips is None && self.match_ports is None {
                None
            } else {
                kind_where(
                    (self.match_ips matches Some(nets) ==> held_by_one_of(nets@, address.ip)) && (
                    self.match_ports matches Some(ports) ==> ports@.contains(address.port)),
                    self.negate,
                    RuleKind::Address,
                )
            },
            None => None,
        }
    }

    pub fn test(&self, address: &Option<SocketAddress>) -> (kinds: Option<Vec<RuleKind>>)
        ensures
            forall|facts: MatchFacts|
                facts.address == optional_address(*address) ==> optional_kinds(kinds)
                    == #[trigger] self.outcome(facts),
    {
        let address = match address {
            Some(address) => address,
            None => return None,
        };
        if self.match_ips.is_none() && self.match_ports.is_none() {
            return None;
        }
        let port: u16 = address.port();
        let port_matched = match &self.match_ports {
            Some(ports) => {
                let mut found = false;
                let mut index: usize = 0;
                while index < ports.len()
                    invariant
                        index <= ports@.len(),
                        found ==> ports@.contains(port),
                        !found ==> forall|i: int| 0 <= i < index ==> #[trigger] ports@[i] != port,
                    decreases ports@.len() - index,
                {
                    if ports[index] == port {
                        assert(ports@[index as int] == port);
                        found = true;
                    }
                    index += 1;
                }
                found
            },
            None => true,
        };
        let ip = address.ip();
        let ip_matched = match &self.match_ips {
            Some(nets) => {
                let mut found = false;
                let mut index: usize = 0;
                while index < nets.len()
                    invariant
                        index <= nets@.len(),
                        found ==> held_by_one_of(nets@, ip@),
                        !found ==> forall|i: int|
                            0 <= i < index ==> !(#[trigger] nets@[i])@.holds(ip@),
                    decreases nets@.len() - index,
                {
                    if nets[index].contains(&ip) {
                        assert(nets@[index as int]@.holds(ip@));
                        found = true;
                    }
                    index += 1;
                }
                found
            },
            None => true,
        };
        matched_kind(ip_matched && port_matched, self.negate, RuleKind::Address)
    }
}

/// What a domain matcher looks for.
pub enum MatcherModel {
    /// A domain and everything under it.
    DomainName(Seq<char>),
    /// A Geosite list.
    Geosite(SelectorModel),
    /// A regular expression.
    Regex(Seq<char>),
}

impl MatcherModel {
    pub open spec fn matches(self, domain: Seq<char>, sites: Option<Sites>) -> bool {
        match self {
            MatcherModel::DomainName(root) => within(domain, root),
            MatcherModel::Geosite(selector) => geosite_matches(sites, selector, domain),
            MatcherModel::Regex(pattern) => regex_matches(pattern, domain),
        }
    }
}

/// Matches a domain and everything under it.
#[derive(Debug, PartialEq, Eq)]
pub struct DomainNameMatcher {
    domain: String,
}

impl View for DomainNameMatcher {
    type V = Seq<char>;

    closed spec fn view(&self) -> Seq<char> {
        self.domain@
    }
}

impl DomainNameMatcher {
    /// The matcher of a domain that is not empty.
    pub fn new(domain: String) -> (matcher: Self)
        requires
            comparable(domain@).len() > 0,
        ensures
            matcher@ == comparable(domain@),
    {
        DomainNameMatcher { domain: comparable_domain(domain.as_str()) }
    }

    pub fn matches(&self, domain: &str) -> (result: bool)
        ensures
            result == within(domain@, self@),
    {
        is_within(domain, self.domain.as_str())
    }

    /// The domain as rules compare it.
    pub fn domain(&self) -> (domain: &str)
        ensures
            domain@ == self@,
    {
        self.domain.as_str()
    }
}

/// Matches domains by a regular expression.
pub struct DomainRegexMatcher {
    pattern: regex::Regex,
}

impl View for DomainRegexMatcher {
    type V = Seq<char>;

    closed spec fn view(&self) -> Seq<char> {
        regex_pattern(self.pattern)
    }
}

/// A regular expression does not compile.
#[derive(Clone, Copy, Debug, PartialEq, Eq, Structural)]
pub struct InvalidRegex;

impl DomainRegexMatcher {
    /// The matcher of a pattern.
    pub fn new(pattern: &str) -> (result: Result<Self, InvalidRegex>)
        ensures
            result is Ok <==> regex_compiles(pattern@),
            result matches Ok(matcher) ==> matcher@ == pattern@,
    {
        match compile_regex(pattern) {
            Ok(pattern) => Ok(DomainRegexMatcher { pattern }),
            Err(_) => Err(InvalidRegex),
        }
    }

    pub fn matches(&self, domain: &str) -> (result: bool)
        ensures
            result == regex_matches(self@, domain@),
    {
        regex_is_match(&self.pattern, domain)
    }

    /// The pattern in text form.
    pub fn pattern(&self) -> (pattern: String)
        ensures
            pattern@ == self@,
    {
        regex_text(&self.pattern)
    }
}

/// Matches domains.
pub enum AnyDomainMatcher {
    DomainName(DomainNameMatcher),
    Geosite(GeositeDomainMatcher),
    Regex(DomainRegexMatcher),
}

impl View for AnyDomainMatcher {
    type V = MatcherModel;

    open spec fn view(&self) -> MatcherModel {
        match self {
            AnyDomainMatcher::DomainName(matcher) => MatcherModel::DomainName(matcher@),
            AnyDomainMatcher::Geosite(matcher) => MatcherModel::Geosite(matcher@),
            AnyDomainMatcher::Regex(matcher) => MatcherModel::Regex(matcher@),
        }
    }
}

/// What stands before the pattern of a regular expression in a rule.
pub open spec fn regex_prefix() -> Seq<char> {
    "regex:"@
}

/// Whether an expression of a rule can be parsed: the lists, attributes and domains that it names
/// are not empty.
pub open spec fn usable_expression(expression: Seq<char>) -> bool {
    if is_geosite_expression(expression) {
        geosite_parts_are_named(expression)
    } else if regex_prefix().is_prefix_of(expression) {
        true
    } else {
        comparable(expression).len() > 0
    }
}

/// What an expression of a rule stands for.
pub open spec fn expression_meaning(expression: Seq<char>) -> MatcherModel {
    if is_geosite_expression(expression) {
        MatcherModel::Geosite(parsed_selector(expression))
    } else if regex_prefix().is_prefix_of(expression) {
        MatcherModel::Regex(expression.skip(regex_prefix().len() as int))
    } else {
        MatcherModel::DomainName(comparable(expression))
    }
}

/// Whether the meaning of an expression is one that compiles.
pub open spec fn meaning_compiles(meaning: MatcherModel) -> bool {
    meaning matches MatcherModel::Regex(pattern) ==> regex_compiles(pattern)
}

impl AnyDomainMatcher {
    /// Whether an expression of a rule can be parsed.
    pub fn is_usable(expression: &str) -> (result: bool)
        ensures
            result == usable_expression(expression@),
    {
        if has_prefix(expression, "geosite:") {
            GeositeDomainMatcher::is_usable(expression)
        } else if has_prefix(expression, "regex:") {
            true
        } else {
            comparable_domain(expression).as_str().unicode_len() > 0
        }
    }

    /// The matcher that an expression of a rule stands for: a Geosite list, a regular expression
    /// or a domain.
    pub fn parse(expression: &str) -> (result: Result<Self, InvalidRegex>)
        requires
            usable_expression(expression@),
        ensures
            result is Ok <==> meaning_compiles(expression_meaning(expression@)),
            result matches Ok(matcher) ==> matcher@ == expression_meaning(expression@),
    {
        if has_prefix(expression, "geosite:") {
            Ok(AnyDomainMatcher::Geosite(GeositeDomainMatcher::parse(expression)))
        } else if has_prefix(expression, "regex:") {
            let start: usize = "regex:".unicode_len();
            let end: usize = expression.unicode_len();
            assert(expression@.subrange(start as int, end as int) =~= expression@.skip(
                start as int,
            ));
            match DomainRegexMatcher::new(expression.substring_char(start, end)) {
                Ok(matcher) => Ok(AnyDomainMatcher::Regex(matcher)),
                Err(error) => Err(error),
            }
        } else {
            Ok(AnyDomainMatcher::DomainName(DomainNameMatcher::new(expression.to_owned())))
        }
    }

    pub fn requires_geosite(&self) -> (result: bool)
        ensures
            result == (self@ is Geosite),
    {
        match self {
            AnyDomainMatcher::Geosite(_) => true,
            _ => false,
        }
    }

    /// Whether the matcher matches a domain in comparable form.
    pub fn matches(&self, domain: &str, geosite: &mut Geosite) -> (result: bool)
        requires
            old(geosite).wf(),
        ensures
            final(geosite).wf(),
            final(geosite)@ == old(geosite)@,
            result == self@.matches(domain@, old(geosite)@.sites),
    {
        match self {
            AnyDomainMatcher::DomainName(matcher) => matcher.matches(domain),
            AnyDomainMatcher::Geosite(matcher) => geosite.matches(matcher, domain),
            AnyDomainMatcher::Regex(matcher) => matcher.matches(domain),
        }
    }
}

/// Matches domains by name.
pub struct DomainRule {
    pub matchers: Vec<AnyDomainMatcher>,
    pub priority: i64,
    pub negate: bool,
    pub exits: Vec<OutExit>,
    /// Whether the rule is for name resolution alone, not for connections.
    pub dns_only: bool,
}

/// Whether one of the matchers matches a domain.
pub open spec fn matched_by_one_of(
    matchers: Seq<AnyDomainMatcher>,
    domain: Seq<char>,
    sites: Option<Sites>,
) -> bool {
    exists|i: int| 0 <= i < matchers.len() && (#[trigger] matchers[i])@.matches(domain, sites)
}

/// Whether one of the matchers needs the Geosite lists.
pub open spec fn one_needs_geosite(matchers: Seq<AnyDomainMatcher>) -> bool {
    exists|i: int| 0 <= i < matchers.len() && (#[trigger] matchers[i])@ is Geosite
}

impl DomainRule {
    /// A rule by domain matches only where the domain is known.
    pub open spec fn outcome(&self, facts: MatchFacts) -> Option<Seq<RuleKind>> {
        match facts.domain {
            Some(domain) => kind_where(
                matched_by_one_of(self.matchers@, comparable(domain), facts.sites),
                self.negate,
                RuleKind::Domain,
            ),
            None => None,
        }
    }

    pub fn requires_geosite(&self) -> (result: bool)
        ensures
            result == one_needs_geosite(self.matchers@),
    {
        let mut index: usize = 0;
        while index < self.matchers.len()
            invariant
                index <= self.matchers@.len(),
                forall|i: int| 0 <= i < index ==> !((#[trigger] self.matchers@[i])@ is Geosite),
            decreases self.matchers@.len() - index,
        {
            if self.matchers[index].requires_geosite() {
                return true;
            }
            index += 1;
        }
        false
    }

    pub fn test(&self, domain: &Option<String>, geosite: &mut Geosite) -> (kinds: Option<
        Vec<RuleKind>,
    >)
        requires
            old(geosite).wf(),
        ensures
            final(geosite).wf(),
            final(geosite)@ == old(geosite)@,
            forall|facts: MatchFacts|
                facts.domain == optional_text(*domain) && facts.sites == old(geosite)@.sites
                    ==> optional_kinds(kinds) == #[trigger] self.outcome(facts),
    {
        let domain = match domain {
            Some(domain) => comparable_domain(domain.as_str()),
            None => return None,
        };
        let ghost sites = geosite@.sites;
        let mut condition = false;
        let mut index: usize = 0;
        while index < self.matchers.len()
            invariant
                index <= self.matchers@.len(),
                geosite.wf(),
                geosite@ == old(geosite)@,
                sites == geosite@.sites,
                condition ==> matched_by_one_of(self.matchers@, domain@, sites),
                !condition ==> forall|i: int|
                    0 <= i < index ==> !(#[trigger] self.matchers@[i])@.matches(domain@, sites),
            decreases self.matchers@.len() - index,
        {
            if self.matchers[index].matches(domain.as_str(), geosite) {
                assert(self.matchers@[index as int]@.matches(domain@, sites));
                condition = true;
            }
            index += 1;
        }
        matched_kind(condition, self.negate, RuleKind::Domain)
    }
}

/// Matches connections by the protocol that was recognised.
#[derive(Debug, PartialEq, Eq)]
pub struct ProtocolRule {
    pub matches: Vec<SniffedProtocol>,
    pub priority: i64,
    pub negate: bool,
    pub exits: Vec<OutExit>,
}

impl ProtocolRule {
    /// A rule by protocol matches only where the protocol is known.
    pub open spec fn outcome(&self, facts: MatchFacts) -> Option<Seq<RuleKind>> {
        match facts.protocol {
            Some(protocol) => kind_where(
                self.matches@.contains(protocol),
                self.negate,
                RuleKind::Protocol,
            ),
            None => None,
        }
    }

    pub fn test(&self, protocol: &Option<SniffedProtocol>) -> (kinds: Option<Vec<RuleKind>>)
        ensures
            forall|facts: MatchFacts|
                facts.protocol == *protocol ==> optional_kinds(kinds) == #[trigger] self.outcome(
                    facts,
                ),
    {
        let protocol = match protocol {
            Some(protocol) => *protocol,
            None => return None,
        };
        let mut condition = false;
        let mut index: usize = 0;
        while index < self.matches.len()
            invariant
                index <= self.matches@.len(),
                condition ==> self.matches@.contains(protocol),
                !condition ==> forall|i: int|
                    0 <= i < index ==> #[trigger] self.matches@[i] != protocol,
            decreases self.matches@.len() - index,
        {
            if self.matches[index] == protocol {
                assert(self.matches@[index as int] == protocol);
                condition = true;
            }
            index += 1;
        }
        matched_kind(condition, self.negate, RuleKind::Protocol)
    }
}

/// Matches everything that no other rule matched.
#[derive(Debug, PartialEq, Eq)]
pub struct FallbackRule {
    pub exits: Vec<OutExit>,
}

/// Matches where all of its rules match. Its own priority and exits count, not theirs.
pub struct AndRule {
    pub rules: Vec<AnyRule>,
    pub priority: i64,
    pub exits: Vec<OutExit>,
}

pub enum AnyRule {
    GeoIp(GeoIpRule),
    Address(AddressRule),
    Domain(DomainRule),
    Protocol(ProtocolRule),
    Fallback(FallbackRule),
    And(AndRule),
}

/// Kinds with those of `more` that are new.
pub open spec fn with_new_kinds(kinds: Seq<RuleKind>, more: Seq<RuleKind>) -> Seq<RuleKind>
    decreases more.len(),
{
    if more.len() == 0 {
        kinds
    } else {
        let before = with_new_kinds(kinds, more.drop_last());
        if before.contains(more.last()) {
            before
        } else {
            before.push(more.last())
        }
    }
}

/// By what kinds of condition rules match together; `None` where one does not match.
pub open spec fn joint_outcome(rules: Seq<AnyRule>, facts: MatchFacts) -> Option<Seq<RuleKind>>
    decreases rules,
{
    if rules.len() == 0 {
        Some(Seq::empty())
    } else {
        match (joint_outcome(rules.drop_last(), facts), rules.last().outcome(facts)) {
            (Some(kinds), Some(more)) => Some(with_new_kinds(kinds, more)),
            _ => None,
        }
    }
}

/// Whether one of the rules needs the Geosite lists.
pub open spec fn some_need_geosite(rules: Seq<AnyRule>) -> bool
    decreases rules,
{
    rules.len() > 0 && (some_need_geosite(rules.drop_last()) || rules.last().needs_geosite())
}

impl AnyRule {
    /// By what kinds of condition the rule matches; `None` where it does not match.
    pub open spec fn outcome(&self, facts: MatchFacts) -> Option<Seq<RuleKind>>
        decreases self,
    {
        match self {
            AnyRule::GeoIp(rule) => rule.outcome(facts),
            AnyRule::Address(rule) => rule.outcome(facts),
            AnyRule::Domain(rule) => rule.outcome(facts),
            AnyRule::Protocol(rule) => rule.outcome(facts),
            AnyRule::Fallback(_) => Some(seq![RuleKind::Fallback]),
            AnyRule::And(rule) => if rule.rules@.len() == 0 {
                None
            } else {
                joint_outcome(rule.rules@, facts)
            },
        }
    }

    pub open spec fn needs_geosite(&self) -> bool
        decreases self,
    {
        match self {
            AnyRule::Domain(rule) => one_needs_geosite(rule.matchers@),
            AnyRule::And(rule) => some_need_geosite(rule.rules@),
            _ => false,
        }
    }

    pub open spec fn own_priority(&self) -> i64 {
        match self {
            AnyRule::GeoIp(rule) => rule.priority,
            AnyRule::Address(rule) => rule.priority,
            AnyRule::Domain(rule) => rule.priority,
            AnyRule::Protocol(rule) => rule.priority,
            AnyRule::Fallback(_) => i64::MAX,
            AnyRule::And(rule) => rule.priority,
        }
    }

    pub open spec fn own_exits(&self) -> Seq<OutExit> {
        match self {
            AnyRule::GeoIp(rule) => rule.exits@,
            AnyRule::Address(rule) => rule.exits@,
            AnyRule::Domain(rule) => rule.exits@,
            AnyRule::Protocol(rule) => rule.exits@,
            AnyRule::Fallback(rule) => rule.exits@,
            AnyRule::And(rule) => rule.exits@,
        }
    }

    /// Whether the rule is for name resolution alone.
    pub open spec fn is_dns_only(&self) -> bool {
        self matches AnyRule::Domain(rule) && rule.dns_only
    }

    /// Rules with a lower number come first. A fallback rule comes last.
    pub fn priority(&self) -> (priority: i64)
        ensures
            priority == self.own_priority(),
    {
        match self {
            AnyRule::GeoIp(rule) => rule.priority,
            AnyRule::Address(rule) => rule.priority,
            AnyRule::Domain(rule) => rule.priority,
            AnyRule::Protocol(rule) => rule.priority,
            AnyRule::Fallback(_) => i64::MAX,
            AnyRule::And(rule) => rule.priority,
        }
    }

    pub fn exits(&self) -> (exits: &[OutExit])
        ensures
            exits@ == self.own_exits(),
    {
        match self {
            AnyRule::GeoIp(rule) => rule.exits.as_slice(),
            AnyRule::Address(rule) => rule.exits.as_slice(),
            AnyRule::Domain(rule) => rule.exits.as_slice(),
            AnyRule::Protocol(rule) => rule.exits.as_slice(),
            AnyRule::Fallback(rule) => rule.exits.as_slice(),
            AnyRule::And(rule) => rule.exits.as_slice(),
        }
    }

    pub fn dns_only(&self) -> (result: bool)
        ensures
            result == self.is_dns_only(),
    {
        match self {
            AnyRule::Domain(rule) => rule.dns_only,
            _ => false,
        }
    }

    pub fn requires_geosite(&self) -> (result: bool)
        ensures
            result == self.needs_geosite(),
        decreases self,
    {
        match self {
            AnyRule::Domain(rule) => rule.requires_geosite(),
            AnyRule::And(rule) => rule.requires_geosite(),
            _ => false,
        }
    }

    /// By what kinds of condition the rule matches; `None` where it does not match.
    pub fn test(
        &self,
        address: &Option<SocketAddress>,
        domain: &Option<String>,
        protocol: &Option<SniffedProtocol>,
        region_codes: &Option<Vec<String>>,
        geosite: &mut Geosite,
    ) -> (kinds: Option<Vec<RuleKind>>)
        requires
            old(geosite).wf(),
        ensures
            final(geosite).wf(),
            final(geosite)@ == old(geosite)@,
            optional_kinds(kinds) == self.outcome(
                facts_of(*address, *domain, *protocol, *region_codes, old(geosite)@),
            ),
        decreases self,
    {
        let ghost facts = facts_of(*address, *domain, *protocol, *region_codes, geosite@);
        match self {
            AnyRule::GeoIp(rule) => {
                let kinds = rule.test(region_codes);
                assert(optional_kinds(kinds) == rule.outcome(facts));
                kinds
            },
            AnyRule::Address(rule) => {
                let kinds = rule.test(address);
                assert(optional_kinds(kinds) == rule.outcome(facts));
                kinds
            },
            AnyRule::Domain(rule) => {
                let kinds = rule.test(domain, geosite);
                assert(optional_kinds(kinds) == rule.outcome(facts));
                kinds
            },
            AnyRule::Protocol(rule) => {
                let kinds = rule.test(protocol);
                assert(optional_kinds(kinds) == rule.outcome(facts));
                kinds
            },
            AnyRule::Fallback(_) => {
                let kinds: Vec<RuleKind> = vec![RuleKind::Fallback];
                assert(kinds@ =~= seq![RuleKind::Fallback]);
                Some(kinds)
            },
            AnyRule::And(rule) => rule.test(address, domain, protocol, region_codes, geosite),
        }
    }
}

fn add_new_kinds(kinds: &mut Vec<RuleKind>, more: &Vec<RuleKind>)
    ensures
        final(kinds)@ == with_new_kinds(old(kinds)@, more@),
{
    let ghost before = kinds@;
    let mut index: usize = 0;
    assert(more@.take(0) =~= Seq::empty());
    while index < more.len()
        invariant
            index <= more@.len(),
            kinds@ == with_new_kinds(before, more@.take(index as int)),
        decreases more@.len() - index,
    {
        proof {
            assert(more@.take(index + 1).drop_last() =~= more@.take(index as int));
        }
        let kind = more[index];
        let mut found = false;
        let mut at: usize = 0;
        while at < kinds.len()
            invariant
                at <= kinds@.len(),
                found ==> kinds@.contains(kind),
                !found ==> forall|i: int| 0 <= i < at ==> #[trigger] kinds@[i] != kind,
            decreases kinds@.len() - at,
        {
            if kinds[at] == kind {
                assert(kinds@[at as int] == kind);
                found = true;
            }
            at += 1;
        }
        if !found {
            kinds.push(kind);
        }
        index += 1;
    }
    assert(more@.take(more@.len() as int) =~= more@);
}

proof fn lemma_joint_failure_persists(rules: Seq<AnyRule>, facts: MatchFacts, length: int)
    requires
        0 <= length <= rules.len(),
        joint_outcome(rules.take(length), facts) is None,
    ensures
        joint_outcome(rules, facts) is None,
    decreases rules.len() - length,
{
    if length < rules.len() {
        assert(rules.take(length + 1).drop_last() =~= rules.take(length));
        lemma_joint_failure_persists(rules, facts, length + 1);
    } else {
        assert(rules.take(length) =~= rules);
    }
}

proof fn lemma_some_need_geosite(rules: Seq<AnyRule>)
    ensures
        some_need_geosite(rules) <==> exists|i: int|
            0 <= i < rules.len() && (#[trigger] rules[i]).needs_geosite(),
    decreases rules.len(),
{
    if rules.len() > 0 {
        let front = rules.drop_last();
        lemma_some_need_geosite(front);
        if some_need_geosite(rules) {
            if some_need_geosite(front) {
                let i = choose|i: int| 0 <= i < front.len() && (#[trigger] front[i]).needs_geosite();
                assert(rules[i].needs_geosite());
            } else {
                assert(rules[rules.len() - 1].needs_geosite());
            }
        }
        if exists|i: int| 0 <= i < rules.len() && (#[trigger] rules[i]).needs_geosite() {
            let i = choose|i: int| 0 <= i < rules.len() && (#[trigger] rules[i]).needs_geosite();
            if i < front.len() {
                assert(front[i].needs_geosite());
            }
        }
    }
}

impl AndRule {
    pub fn requires_geosite(&self) -> (result: bool)
        ensures
            result == some_need_geosite(self.rules@),
        decreases self,
    {
        proof {
            lemma_some_need_geosite(self.rules@);
        }
        let mut index: usize = 0;
        while index < self.rules.len()
            invariant
                index <= self.rules@.len(),
                forall|i: int| 0 <= i < index ==> !(#[trigger] self.rules@[i]).needs_geosite(),
                some_need_geosite(self.rules@) <==> exists|i: int|
                    0 <= i < self.rules@.len() && (#[trigger] self.rules@[i]).needs_geosite(),
            decreases self.rules@.len() - index,
        {
            if self.rules[index].requires_geosite() {
                return true;
            }
            index += 1;
        }
        false
    }

    /// By what kinds of condition the rules match together. Without rules nothing matches.
    pub fn test(
        &self,
        address: &Option<SocketAddress>,
        domain: &Option<String>,
        protocol: &Option<SniffedProtocol>,
        region_codes: &Option<Vec<String>>,
        geosite: &mut Geosite,
    ) -> (kinds: Option<Vec<RuleKind>>)
        requires
            old(geosite).wf(),
        ensures
            final(geosite).wf(),
            final(geosite)@ == old(geosite)@,
            optional_kinds(kinds) == if self.rules@.len() == 0 {
                None
            } else {
                joint_outcome(
                    self.rules@,
                    facts_of(*address, *domain, *protocol, *region_codes, old(geosite)@),
                )
            },
        decreases self,
    {
        if self.rules.len() == 0 {
            return None;
        }
        let ghost facts = facts_of(*address, *domain, *protocol, *region_codes, geosite@);
        let mut kinds: Vec<RuleKind> = Vec::new();
        let mut index: usize = 0;
        assert(self.rules@.take(0) =~= Seq::empty());
        while index < self.rules.len()
            invariant
                index <= self.rules@.len(),
                self.rules@.len() > 0,
                geosite.wf(),
                geosite@ == old(geosite)@,
                facts == facts_of(*address, *domain, *protocol, *region_codes, geosite@),
                joint_outcome(self.rules@.take(index as int), facts) == Some(kinds@),
            decreases self.rules@.len() - index,
        {
            proof {
                assert(self.rules@.take(index + 1).drop_last() =~= self.rules@.take(index as int));
                assert(self.rules@.take(index + 1).last() == self.rules@[index as int]);
            }
            match self.rules[index].test(address, domain, protocol, region_codes, geosite) {
                Some(more) => {
                    add_new_kinds(&mut kinds, &more);
                },
                None => {
                    proof {
                        lemma_joint_failure_persists(self.rules@, facts, index + 1);
                    }
                    return None;
                },
            }
            index += 1;
        }
        assert(self.rules@.take(self.rules@.len() as int) =~= self.rules@);
        Some(kinds)
    }
}

impl From<GeoIpRule> for AnyRule {
    fn from(rule: GeoIpRule) -> (any: Self) {
        AnyRule::GeoIp(rule)
    }
}

impl vstd::std_specs::convert::FromSpecImpl<GeoIpRule> for AnyRule {
    open spec fn obeys_from_spec() -> bool {
        true
    }

    open spec fn from_spec(rule: GeoIpRule) -> AnyRule {
        AnyRule::GeoIp(rule)
    }
}

impl From<AddressRule> for AnyRule {
    fn from(rule: AddressRule) -> (any: Self) {
        AnyRule::Address(rule)
    }
}

impl vstd::std_specs::convert::FromSpecImpl<AddressRule> for AnyRule {
    open spec fn obeys_from_spec() -> bool {
        true
    }

    open spec fn from_spec(rule: AddressRule) -> AnyRule {
        AnyRule::Address(rule)
    }
}

impl From<DomainRule> for AnyRule {
    fn from(rule: DomainRule) -> (any: Self) {
        AnyRule::Domain(rule)
    }
}

impl vstd::std_specs::convert::FromSpecImpl<DomainRule> for AnyRule {
    open spec fn obeys_from_spec() -> bool {
        true
    }

    open spec fn from_spec(rule: DomainRule) -> AnyRule {
        AnyRule::Domain(rule)
    }
}

impl From<ProtocolRule> for AnyRule {
    fn from(rule: ProtocolRule) -> (any: Self) {
        AnyRule::Protocol(rule)
    }
}

impl vstd::std_specs::convert::FromSpecImpl<ProtocolRule> for AnyRule {
    open spec fn obeys_from_spec() -> bool {
        true
    }

    open spec fn from_spec(rule: ProtocolRule) -> AnyRule {
        AnyRule::Protocol(rule)
    }
}

impl From<FallbackRule> for AnyRule {
    fn from(rule: FallbackRule) -> (any: Self) {
        AnyRule::Fallback(rule)
    }
}

impl vstd::std_specs::convert::FromSpecImpl<FallbackRule> for AnyRule {
    open spec fn obeys_from_spec() -> bool {
        true
    }

    open spec fn from_spec(rule: FallbackRule) -> AnyRule {
        AnyRule::Fallback(rule)
    }
}

impl From<AndRule> for AnyRule {
    fn from(rule: AndRule) -> (any: Self) {
        AnyRule::And(rule)
    }
}

impl vstd::std_specs::convert::FromSpecImpl<AndRule> for AnyRule {
    open spec fn obeys_from_spec() -> bool {
        true
    }

    open spec fn from_spec(rule: AndRule) -> AnyRule {
        AnyRule::And(rule)
    }
}

proof fn lemma_with_new_kinds(kinds: Seq<RuleKind>, more: Seq<RuleKind>)
    requires
        kinds.no_duplicates(),
    ensures
        with_new_kinds(kinds, more).no_duplicates(),
        forall|kind: RuleKind| #[trigger]
            with_new_kinds(kinds, more).contains(kind) <==> kinds.contains(kind) || more.contains(
                kind,
            ),
    decreases more.len(),
{
    if more.len() > 0 {
        let front = more.drop_last();
        let before = with_new_kinds(kinds, front);
        let all = with_new_kinds(kinds, more);
        lemma_with_new_kinds(kinds, front);
        assert forall|kind: RuleKind| #[trigger]
            all.contains(kind) <==> kinds.contains(kind) || more.contains(kind) by {
            assert(more.contains(kind) <==> front.contains(kind) || kind == more.last()) by {
                if more.contains(kind) {
                    let i = choose|i: int| 0 <= i < more.len() && more[i] == kind;
                    if i < front.len() {
                        assert(front[i] == kind);
                    }
                }
                if front.contains(kind) {
                    let i = choose|i: int| 0 <= i < front.len() && front[i] == kind;
                    assert(more[i] == kind);
                }
                assert(more[more.len() - 1] == more.last());
            }
            if before.contains(more.last()) {
                assert(all == before);
            } else {
                assert(all == before.push(more.last()));
                assert(all[before.len() as int] == more.last());
                if before.contains(kind) {
                    let i = choose|i: int| 0 <= i < before.len() && before[i] == kind;
                    assert(all[i] == kind);
                }
                if all.contains(kind) {
                    let i = choose|i: int| 0 <= i < all.len() && all[i] == kind;
                    if i < before.len() {
                        assert(before[i] == kind);
                    }
                }
            }
        }
    }
}

proof fn lemma_joint_outcome(rules: Seq<AnyRule>, facts: MatchFacts)
    ensures
        joint_outcome(rules, facts) is Some <==> forall|i: int|
            0 <= i < rules.len() ==> (#[trigger] rules[i]).outcome(facts) is Some,
        joint_outcome(rules, facts) matches Some(kinds) ==> kinds.no_duplicates() && forall|
            kind: RuleKind,
        | #[trigger]
            kinds.contains(kind) <==> exists|i: int|
                0 <= i < rules.len() && (#[trigger] rules[i]).outcome(facts)->Some_0.contains(kind),
    decreases rules.len(),
{
    if rules.len() > 0 {
        let front = rules.drop_last();
        lemma_joint_outcome(front, facts);
        assert forall|i: int| 0 <= i < front.len() implies front[i] == #[trigger] rules[i] by {}
        if joint_outcome(rules, facts) is Some {
            assert forall|i: int| 0 <= i < rules.len() implies (#[trigger] rules[i]).outcome(
                facts,
            ) is Some by {
                if i < front.len() {
                    assert(front[i].outcome(facts) is Some);
                }
            }
            let before = joint_outcome(front, facts)->Some_0;
            let more = rules.last().outcome(facts)->Some_0;
            lemma_with_new_kinds(before, more);
            let kinds = joint_outcome(rules, facts)->Some_0;
            assert forall|kind: RuleKind| #[trigger]
                kinds.contains(kind) <==> exists|i: int|
                    0 <= i < rules.len() && (#[trigger] rules[i]).outcome(facts)->Some_0.contains(
                        kind,
                    ) by {
                if kinds.contains(kind) {
                    if before.contains(kind) {
                        let i = choose|i: int|
                            0 <= i < front.len() && (#[trigger] front[i]).outcome(
                                facts,
                            )->Some_0.contains(kind);
                        assert(rules[i].outcome(facts)->Some_0.contains(kind));
                    } else {
                        assert(rules[rules.len() - 1].outcome(facts)->Some_0.contains(kind));
                    }
                }
                if exists|i: int|
                    0 <= i < rules.len() && (#[trigger] rules[i]).outcome(facts)->Some_0.contains(
                        kind,
                    ) {
                    let i = choose|i: int|
                        0 <= i < rules.len() && (#[trigger] rules[i]).outcome(
                            facts,
                        )->Some_0.contains(kind);
                    if i < front.len() {
                        assert(front[i].outcome(facts)->Some_0.contains(kind));
                    }
                }
            }
        } else {
            if joint_outcome(front, facts) is None {
                let i = choose|i: int|
                    0 <= i < front.len() && (#[trigger] front[i]).outcome(facts) is None;
                assert(rules[i].outcome(facts) is None);
            } else {
                assert(rules[rules.len() - 1].outcome(facts) is None);
            }
        }
    }
}

/// A rule over several conditions matches exactly where it has a condition and all of them match.
/// The kinds it matches by are those of its conditions, each once.
pub proof fn law_and_rule_needs_all_conditions(rule: AndRule, facts: MatchFacts)
    ensures
        AnyRule::And(rule).outcome(facts) is Some <==> rule.rules@.len() > 0 && forall|i: int|
            0 <= i < rule.rules@.len() ==> (#[trigger] rule.rules@[i]).outcome(facts) is Some,
        AnyRule::And(rule).outcome(facts) matches Some(kinds) ==> kinds.no_duplicates() && forall|
            kind: RuleKind,
        | #[trigger]
            kinds.contains(kind) <==> exists|i: int|
                0 <= i < rule.rules@.len() && (#[trigger] rule.rules@[i]).outcome(
                    facts,
                )->Some_0.contains(kind),
{
    lemma_joint_outcome(rule.rules@, facts);
}

/// A rule never matches by what is not known, negated or not.
pub proof fn law_unknown_facts_match_nothing(rule: AnyRule, facts: MatchFacts)
    ensures
        rule is GeoIp && facts.region_codes is None ==> rule.outcome(facts) is None,
        rule is Address && facts.address is None ==> rule.outcome(facts) is None,
        rule is Domain && facts.domain is None ==> rule.outcome(facts) is None,
        rule is Protocol && facts.protocol is None ==> rule.outcome(facts) is None,
{
}

/// Of two rules that differ only in being negated, exactly one matches what is known: by its own
/// kind. This holds of rules by domain.
pub proof fn law_negated_domain_rules_match_the_rest(
    rule: DomainRule,
    negated: DomainRule,
    facts: MatchFacts,
)
    requires
        rule.matchers@ == negated.matchers@,
        !rule.negate,
        negated.negate,
        facts.domain is Some,
    ensures
        rule.outcome(facts) is Some <==> negated.outcome(facts) is None,
        rule.outcome(facts) matches Some(kinds) ==> kinds == seq![RuleKind::Domain],
        negated.outcome(facts) matches Some(kinds) ==> kinds == seq![RuleKind::Domain],
{
}

/// A domain rule that is not negated matches exactly where one of its matchers matches the domain
/// without end dots and in lower case: a name matcher the name and what ends in a dot and the
/// name, a regular expression what it matches, a Geosite matcher what its list holds.
pub proof fn law_domain_rules_match_by_their_matchers(
    rule: DomainRule,
    facts: MatchFacts,
    domain: Seq<char>,
)
    requires
        !rule.negate,
        facts.domain == Some(domain),
    ensures
        rule.outcome(facts) is Some <==> exists|i: int|
            0 <= i < rule.matchers@.len() && match (#[trigger] rule.matchers@[i])@ {
                MatcherModel::DomainName(name) => comparable(domain) == name || exists|
                    prefix: Seq<char>,
                | comparable(domain) == #[trigger] (prefix + seq!['.'] + name),
                MatcherModel::Regex(pattern) => regex_matches(pattern, comparable(domain)),
                MatcherModel::Geosite(selector) => geosite_matches(
                    facts.sites,
                    selector,
                    comparable(domain),
                ),
            },
{
    let name = comparable(domain);
    assert forall|i: int| 0 <= i < rule.matchers@.len() implies (
    #[trigger] rule.matchers@[i])@.matches(name, facts.sites) == match rule.matchers@[i]@ {
        MatcherModel::DomainName(root) => name == root || exists|prefix: Seq<char>|
            name == #[trigger] (prefix + seq!['.'] + root),
        MatcherModel::Regex(pattern) => regex_matches(pattern, name),
        MatcherModel::Geosite(selector) => geosite_matches(facts.sites, selector, name),
    } by {
        if let MatcherModel::DomainName(root) = rule.matchers@[i]@ {
            law_subdomains_end_in_a_dot_and_the_root(name, root);
        }
    }
}

/// Of two rules by region that differ only in being negated, exactly one matches a known region.
/// The one that is not negated matches where a code of the address is among its own.
pub proof fn law_region_rules_match_by_code(
    rule: GeoIpRule,
    negated: GeoIpRule,
    facts: MatchFacts,
    codes: Seq<Seq<char>>,
)
    requires
        rule.matches@ == negated.matches@,
        !rule.negate,
        negated.negate,
        facts.region_codes == Some(codes),
    ensures
        rule.outcome(facts) == Some(seq![RuleKind::GeoIp]) <==> exists|i: int, j: int|
            0 <= i < rule.matches@.len() && 0 <= j < codes.len() && (#[trigger] rule.matches@[i])@
                == #[trigger] codes[j],
        rule.outcome(facts) is Some <==> negated.outcome(facts) is None,
        negated.outcome(facts) matches Some(kinds) ==> kinds == seq![RuleKind::GeoIp],
{
    let wanted = text_views(rule.matches@);
    if share_text(wanted, codes) {
        let i = choose|i: int| 0 <= i < wanted.len() && codes.contains(#[trigger] wanted[i]);
        let j = choose|j: int| 0 <= j < codes.len() && codes[j] == wanted[i];
        assert(rule.matches@[i]@ == codes[j]);
    }
    if exists|i: int, j: int|
        0 <= i < rule.matches@.len() && 0 <= j < codes.len() && (#[trigger] rule.matches@[i])@
            == #[trigger] codes[j] {
        let (i, j) = choose|i: int, j: int|
            0 <= i < rule.matches@.len() && 0 <= j < codes.len() && (#[trigger] rule.matches@[i])@
                == #[trigger] codes[j];
        assert(wanted[i] == codes[j]);
        assert(codes.contains(wanted[i]));
    }
}

/// Of two rules by protocol that differ only in being negated, exactly one matches a known
/// protocol. The one that is not negated matches the protocols that it lists.
pub proof fn law_protocol_rules_match_by_protocol(
    rule: ProtocolRule,
    negated: ProtocolRule,
    facts: MatchFacts,
    protocol: SniffedProtocol,
)
    requires
        rule.matches@ == negated.matches@,
        !rule.negate,
        negated.negate,
        facts.protocol == Some(protocol),
    ensures
        rule.outcome(facts) == Some(seq![RuleKind::Protocol]) <==> exists|i: int|
            0 <= i < rule.matches@.len() && #[trigger] rule.matches@[i] == protocol,
        rule.outcome(facts) is Some <==> negated.outcome(facts) is None,
        negated.outcome(facts) matches Some(kinds) ==> kinds == seq![RuleKind::Protocol],
{
}

/// A rule by address that names neither networks nor ports matches nothing, negated or not. Of two
/// others that differ only in being negated, exactly one matches a known address. The one that is
/// not negated matches where one of the networks, if it names any, holds the address and the port,
/// if it names any, is listed.
pub proof fn law_address_rules_match_by_network_and_port(
    rule: AddressRule,
    negated: AddressRule,
    facts: MatchFacts,
    address: SocketAddressModel,
)
    requires
        rule.match_ips == negated.match_ips,
        rule.match_ports == negated.match_ports,
        !rule.negate,
        negated.negate,
        facts.address == Some(address),
    ensures
        rule.match_ips is None && rule.match_ports is None ==> rule.outcome(facts) is None
            && negated.outcome(facts) is None,
        rule.match_ips is Some || rule.match_ports is Some ==> (rule.outcome(facts) is Some
            <==> negated.outcome(facts) is None),
        rule.match_ips is Some && rule.match_ports is None ==> (rule.outcome(facts) is Some
            <==> exists|i: int|
            0 <= i < rule.match_ips->Some_0@.len() && (
            #[trigger] rule.match_ips->Some_0@[i])@.holds(address.ip)),
        rule.match_ips is None && rule.match_ports is Some ==> (rule.outcome(facts) is Some
            <==> exists|i: int|
            0 <= i < rule.match_ports->Some_0@.len() && #[trigger] rule.match_ports->Some_0@[i]
                == address.port),
        rule.match_ips is Some && rule.match_ports is Some ==> (rule.outcome(facts) is Some
            <==> exists|i: int, j: int|
            0 <= i < rule.match_ips->Some_0@.len() && (
            #[trigger] rule.match_ips->Some_0@[i])@.holds(address.ip) && 0 <= j
                < rule.match_ports->Some_0@.len() && #[trigger] rule.match_ports->Some_0@[j]
                == address.port),
        rule.outcome(facts) matches Some(kinds) ==> kinds == seq![RuleKind::Address],
        negated.outcome(facts) matches Some(kinds) ==> kinds == seq![RuleKind::Address],
{
    if rule.match_ips is Some && rule.match_ports is Some && rule.outcome(facts) is Some {
        let nets = rule.match_ips->Some_0@;
        let ports = rule.match_ports->Some_0@;
        assert(held_by_one_of(nets, address.ip));
        let i = choose|i: int| 0 <= i < nets.len() && (#[trigger] nets[i])@.holds(address.ip);
        assert(ports.contains(address.port));
        let j = choose|j: int| 0 <= j < ports.len() && ports[j] == address.port;
        assert(nets[i]@.holds(address.ip) && ports[j] == address.port);
    }
}

/// The kinds of rule keep their own priority and exits, and a fallback rule matches everything
/// after every other rule.
pub proof fn law_fallback_rules_come_last(rule: AnyRule, fallback: FallbackRule, facts: MatchFacts)
    ensures
        AnyRule::Fallback(fallback).outcome(facts) == Some(seq![RuleKind::Fallback]),
        rule.own_priority() <= AnyRule::Fallback(fallback).own_priority(),
        !AnyRule::Fallback(fallback).is_dns_only(),
{
}

/// An expression of a rule is a Geosite list behind `geosite:`, a regular expression behind
/// `regex:`, and otherwise a domain without the dots at its end and in lower case.
pub proof fn law_expressions_say_what_they_are(text: Seq<char>)
    ensures
        expression_meaning("regex:"@ + text) == MatcherModel::Regex(text),
        expression_meaning("geosite:"@ + text) is Geosite,
        usable_expression("regex:"@ + text),
        !"geosite:"@.is_prefix_of(text) && !"regex:"@.is_prefix_of(text) ==> expression_meaning(
            text,
        ) == MatcherModel::DomainName(comparable(text)) && (usable_expression(text) <==> comparable(
            text,
        ).len() > 0),
{
    reveal_strlit("regex:");
    reveal_strlit("geosite:");
    let pattern = "regex:"@ + text;
    let list = "geosite:"@ + text;
    assert(pattern[0] == 'r' && "geosite:"@[0] == 'g');
    assert(!"geosite:"@.is_prefix_of(pattern));
    assert("regex:"@.is_prefix_of(pattern));
    assert(pattern.skip(6) =~= text);
    assert("geosite:"@.is_prefix_of(list));
}

/// The kinds of a joint match stand in the order in which the conditions bring them: a later
/// condition only adds behind.
pub proof fn law_kinds_keep_their_order(kinds: Seq<RuleKind>, more: Seq<RuleKind>)
    ensures
        kinds.is_prefix_of(with_new_kinds(kinds, more)),
        kinds.no_duplicates() && more.no_duplicates() && (forall|i: int|
            0 <= i < more.len() ==> !kinds.contains(#[trigger] more[i])) ==> with_new_kinds(
            kinds,
            more,
        ) == kinds + more,
    decreases more.len(),
{
    if more.len() > 0 {
        let front = more.drop_last();
        law_kinds_keep_their_order(kinds, front);
        if kinds.no_duplicates() && more.no_duplicates() && (forall|i: int|
            0 <= i < more.len() ==> !kinds.contains(#[trigger] more[i])) {
            assert forall|i: int| 0 <= i < front.len() implies !kinds.contains(
                #[trigger] front[i],
            ) by {
                assert(front[i] == more[i]);
            }
            assert(front.no_duplicates());
            let before = kinds + front;
            let last = more[more.len() - 1];
            assert(!kinds.contains(last));
            assert(!before.contains(last)) by {
                if before.contains(last) {
                    let i = choose|i: int| 0 <= i < before.len() && before[i] == last;
                    if i < kinds.len() {
                        assert(kinds[i] == last);
                    } else {
                        assert(more[i - kinds.len()] == last);
                    }
                }
            }
            assert(before.push(last) =~= kinds + more);
        }
    } else {
        assert(kinds + more =~= kinds);
    }
}

/// A rule needs the Geosite lists where a matcher of its own or of one of its conditions does.
pub proof fn law_rules_that_need_lists(rule: AnyRule, needs: bool)
    requires
        call_ensures(AnyRule::requires_geosite, (&rule,), needs),
    ensures
        rule matches AnyRule::Domain(domain) ==> (needs <==> exists|i: int|
            0 <= i < domain.matchers@.len() && (#[trigger] domain.matchers@[i])@ is Geosite),
        rule matches AnyRule::And(joint) ==> (needs <==> exists|i: int|
            0 <= i < joint.rules@.len() && (#[trigger] joint.rules@[i]).needs_geosite()),
        !(rule is Domain) && !(rule is And) ==> !needs,
{
    if let AnyRule::And(joint) = rule {
        lemma_some_need_geosite(joint.rules@);
    }
}

/// A regular expression that compiles matches by its pattern, another is refused.
pub proof fn law_patterns_must_compile(
    pattern: &str,
    result: Result<DomainRegexMatcher, InvalidRegex>,
    domain: &str,
    matched: bool,
)
    requires
        call_ensures(DomainRegexMatcher::new, (pattern,), result),
        result is Ok ==> call_ensures(
            DomainRegexMatcher::matches,
            (&result->Ok_0, domain),
            matched,
        ),
    ensures
        result is Ok <==> regex_compiles(pattern@),
        result is Ok ==> matched == regex_matches(pattern@, domain@),
{
}

/// Only an expression behind `regex:` can fail to compile.
pub proof fn law_only_patterns_fail(
    expression: &str,
    result: Result<AnyDomainMatcher, InvalidRegex>,
)
    requires
        usable_expression(expression@),
        call_ensures(AnyDomainMatcher::parse, (expression,), result),
    ensures
        !"regex:"@.is_prefix_of(expression@) ==> result is Ok,
        "regex:"@.is_prefix_of(expression@) ==> (result is Ok <==> regex_compiles(
            expression@.skip(6),
        )),
        result matches Ok(matcher) ==> matcher@ == expression_meaning(expression@),
{
    reveal_strlit("regex:");
    reveal_strlit("geosite:");
    if "regex:"@.is_prefix_of(expression@) {
        assert(expression@ =~= "regex:"@ + expression@.skip(6));
        law_expressions_say_what_they_are(expression@.skip(6));
    } else {
        law_expressions_say_what_they_are(expression@);
        if "geosite:"@.is_prefix_of(expression@) {
            assert(expression@ =~= "geosite:"@ + expression@.skip(8));
            law_expressions_say_what_they_are(expression@.skip(8));
        }
    }
}

} // verus!
