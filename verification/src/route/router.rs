//! The router: rules of several sources, and the routes that they give.

use std::sync::Arc;

use vstd::prelude::*;

use super::cache::{
    cache_clear, cache_contents, cache_get, cache_insert, destination_key, key_of_destination,
    key_of_name, key_view, name_key, new_cache, no_routes, protocol_number, RouteCache,
    RouteKeyModel, RouteTable,
};
use super::domain::{comparable, comparable_domain};
use super::geolite2::{codes_at, database_opens, GeoLite2, InvalidDatabase};
use super::geosite::{Geosite, GeositeDatabase, GeositeModel, Sites};
use super::order::{
    is_merged, lemma_merged_holds, lemma_merged_holds_no_other, merge_rules, rule_list, share,
};
use super::routes::{
    dns_routes, exits_of_routes, find_name_routes, find_routes, route_views, routes_by, RouteMatch,
    RouteModel,
};
use super::rule::{facts_of, optional_address, AnyRule, MatchFacts};
use crate::address::{SocketAddress, SocketAddressModel};
use crate::primitives::net::{SocketDestination, SocketDestinationHost};
use crate::primitives::node::NodeId;
use crate::primitives::route::OutExit;
use crate::sniff::SniffedProtocol;

verus! {

/// How long found routes are kept: an hour.
pub const ROUTE_TIME_TO_LIVE_SECS: u64 = 3_600;

/// Where rules come from.
#[derive(Clone, Copy, Debug, PartialEq, Eq, Hash)]
pub enum RulesKey {
    Node(NodeId),
    Local,
}

/// The mathematical form of a `RulesKey`.
pub enum RulesSource {
    Node(Seq<u8>),
    Local,
}

impl View for RulesKey {
    type V = RulesSource;

    open spec fn view(&self) -> RulesSource {
        match self {
            RulesKey::Node(id) => RulesSource::Node(id@),
            RulesKey::Local => RulesSource::Local,
        }
    }
}

impl RulesKey {
    fn same(&self, other: &RulesKey) -> (result: bool)
        ensures
            result == (self@ == other@),
    {
        match (self, other) {
            (RulesKey::Node(id), RulesKey::Node(other_id)) => id.same(other_id),
            (RulesKey::Local, RulesKey::Local) => true,
            _ => false,
        }
    }
}

/// The rules of one source.
pub struct RulesEntry {
    pub source: RulesSource,
    pub rules: Seq<AnyRule>,
}

/// The index of the entry of a source.
pub open spec fn entry_index(entries: Seq<RulesEntry>, source: RulesSource) -> Option<int>
    decreases entries.len(),
{
    if entries.len() == 0 {
        None
    } else if entries.last().source == source {
        Some(entries.len() - 1)
    } else {
        entry_index(entries.drop_last(), source)
    }
}

/// No source has two entries.
pub open spec fn sources_differ(entries: Seq<RulesEntry>) -> bool {
    forall|i: int, j: int|
        0 <= i < j < entries.len() ==> (#[trigger] entries[i]).source != (
        #[trigger] entries[j]).source
}

proof fn lemma_entry_index(entries: Seq<RulesEntry>, source: RulesSource)
    ensures
        match entry_index(entries, source) {
            Some(index) => 0 <= index < entries.len() && entries[index].source == source,
            None => forall|i: int|
                0 <= i < entries.len() ==> (#[trigger] entries[i]).source != source,
        },
    decreases entries.len(),
{
    if entries.len() > 0 && entries.last().source != source {
        let front = entries.drop_last();
        lemma_entry_index(front, source);
        assert forall|i: int| 0 <= i < front.len() implies front[i] == #[trigger] entries[i] by {}
    }
}

/// The entries with the rules of a source replaced, or added at the end.
pub open spec fn with_entry(
    entries: Seq<RulesEntry>,
    source: RulesSource,
    rules: Seq<AnyRule>,
) -> Seq<RulesEntry> {
    match entry_index(entries, source) {
        Some(index) => entries.update(index, RulesEntry { source, rules }),
        None => entries.push(RulesEntry { source, rules }),
    }
}

/// The entries without that of a source.
pub open spec fn without_entry(entries: Seq<RulesEntry>, source: RulesSource) -> Seq<RulesEntry> {
    match entry_index(entries, source) {
        Some(index) => entries.remove(index),
        None => entries,
    }
}

/// The rules of all sources.
pub open spec fn all_rules(entries: Seq<RulesEntry>) -> Seq<AnyRule>
    decreases entries.len(),
{
    if entries.len() == 0 {
        Seq::empty()
    } else {
        all_rules(entries.drop_last()) + entries.last().rules
    }
}

/// Whether one of the rules needs the Geosite lists.
pub open spec fn any_needs_geosite(rules: Seq<AnyRule>) -> bool {
    exists|i: int| 0 <= i < rules.len() && (#[trigger] rules[i]).needs_geosite()
}

proof fn lemma_all_rules_hold(entries: Seq<RulesEntry>, rule: AnyRule)
    ensures
        all_rules(entries).contains(rule) <==> exists|i: int|
            0 <= i < entries.len() && (#[trigger] entries[i]).rules.contains(rule),
    decreases entries.len(),
{
    if entries.len() > 0 {
        let front = entries.drop_last();
        let all = all_rules(entries);
        let before = all_rules(front);
        lemma_all_rules_hold(front, rule);
        assert forall|i: int| 0 <= i < front.len() implies front[i] == #[trigger] entries[i] by {}
        if all.contains(rule) {
            let k = choose|k: int| 0 <= k < all.len() && all[k] == rule;
            if k < before.len() {
                assert(before[k] == rule);
                let i = choose|i: int| 0 <= i < front.len() && (#[trigger] front[i]).rules.contains(
                    rule,
                );
                assert(entries[i].rules.contains(rule));
            } else {
                assert(entries.last().rules[k - before.len()] == rule);
                assert(entries[entries.len() - 1].rules.contains(rule));
            }
        }
        if exists|i: int| 0 <= i < entries.len() && (#[trigger] entries[i]).rules.contains(rule) {
            let i = choose|i: int|
                0 <= i < entries.len() && (#[trigger] entries[i]).rules.contains(rule);
            if i < front.len() {
                assert(front[i].rules.contains(rule));
                let k = choose|k: int| 0 <= k < before.len() && before[k] == rule;
                assert(all[k] == rule);
            } else {
                let rules = entries.last().rules;
                let k = choose|k: int| 0 <= k < rules.len() && rules[k] == rule;
                assert(all[before.len() + k] == rule);
            }
        }
    }
}

/// Once the rules of a source are registered, each of them is in force.
pub proof fn law_registered_rules_are_in_force(
    before: RouterModel,
    after: RouterModel,
    source: RulesSource,
    rules: Seq<AnyRule>,
    rule: AnyRule,
)
    requires
        registered(before, after, source, rules),
        rules.contains(rule),
    ensures
        after.merged.contains(rule),
{
    lemma_entry_index(before.entries, source);
    let index = match entry_index(before.entries, source) {
        Some(index) => index,
        None => before.entries.len() as int,
    };
    assert(after.entries[index].rules == rules);
    lemma_all_rules_hold(after.entries, rule);
    lemma_merged_holds(all_rules(after.entries), after.merged, rule);
}

/// Registering the rules of a source leaves those of other sources in force.
pub proof fn law_sources_do_not_disturb_each_other(
    before: RouterModel,
    after: RouterModel,
    source: RulesSource,
    rules: Seq<AnyRule>,
    other: int,
)
    requires
        registered(before, after, source, rules),
        0 <= other < before.entries.len(),
        before.entries[other].source != source,
    ensures
        after.entries[other] == before.entries[other],
        forall|rule: AnyRule| #[trigger]
            before.entries[other].rules.contains(rule) ==> after.merged.contains(rule),
{
    lemma_entry_index(before.entries, source);
    assert forall|rule: AnyRule| #[trigger]
        before.entries[other].rules.contains(rule) implies after.merged.contains(rule) by {
        assert(after.entries[other].rules.contains(rule));
        lemma_all_rules_hold(after.entries, rule);
        lemma_merged_holds(all_rules(after.entries), after.merged, rule);
    }
}

/// Once a source is dropped, it has no rules.
pub proof fn law_dropped_sources_are_gone(entries: Seq<RulesEntry>, source: RulesSource)
    requires
        sources_differ(entries),
    ensures
        entry_index(without_entry(entries, source), source) is None,
        forall|i: int|
            0 <= i < entries.len() && (#[trigger] entries[i]).source != source ==> without_entry(
                entries,
                source,
            ).contains(entries[i]),
{
    lemma_entry_index(entries, source);
    let rest = without_entry(entries, source);
    lemma_entry_index(rest, source);
    match entry_index(entries, source) {
        Some(index) => {
            assert forall|i: int| 0 <= i < rest.len() implies (#[trigger] rest[i]).source
                != source by {
                if i < index {
                    assert(rest[i] == entries[i]);
                    assert(entries[i].source != entries[index].source);
                } else {
                    assert(rest[i] == entries[i + 1]);
                    assert(entries[index].source != entries[i + 1].source);
                }
            }
            assert forall|i: int|
                0 <= i < entries.len() && (#[trigger] entries[i]).source
                    != source implies rest.contains(entries[i]) by {
                if i < index {
                    assert(rest[i] == entries[i]);
                } else {
                    assert(rest[i - 1] == entries[i]);
                }
            }
        },
        None => {
            assert forall|i: int|
                0 <= i < entries.len() && (#[trigger] entries[i]).source
                    != source implies rest.contains(entries[i]) by {
                assert(rest[i] == entries[i]);
            }
        },
    }
}

/// A router in mathematical form.
pub struct RouterModel {
    /// The bytes of the region database.
    pub regions: Option<Seq<u8>>,
    pub geosite: GeositeModel,
    pub entries: Seq<RulesEntry>,
    /// The rules in the order that they are tested.
    pub merged: Seq<AnyRule>,
    /// The routes that may be given again, by destination.
    pub kept_routes: RouteTable,
    /// The routes that may be given again, by name to resolve.
    pub kept_names: RouteTable,
}

pub struct Router {
    geolite2: GeoLite2,
    geosite: Geosite,
    entries: Vec<(RulesKey, Vec<Arc<AnyRule>>)>,
    merged: Vec<Arc<AnyRule>>,
    cache: RouteCache,
    dns_cache: RouteCache,
}

spec fn entry_view(entry: (RulesKey, Vec<Arc<AnyRule>>)) -> RulesEntry {
    RulesEntry { source: entry.0@, rules: rule_list(entry.1@) }
}

spec fn entry_views(entries: Seq<(RulesKey, Vec<Arc<AnyRule>>)>) -> Seq<RulesEntry> {
    entries.map_values(|entry: (RulesKey, Vec<Arc<AnyRule>>)| entry_view(entry))
}

impl View for Router {
    type V = RouterModel;

    closed spec fn view(&self) -> RouterModel {
        RouterModel {
            regions: self.geolite2@,
            geosite: self.geosite@,
            entries: entry_views(self.entries@),
            merged: rule_list(self.merged@),
            kept_routes: cache_contents(self.cache),
            kept_names: cache_contents(self.dns_cache),
        }
    }
}

/// The domain that a connection is routed by.
pub open spec fn key_domain(key: RouteKeyModel) -> Option<Seq<char>> {
    match key.3 {
        Some(domain) => Some(domain),
        None => key.0,
    }
}

/// What is known of a destination, its address and region aside.
pub open spec fn key_facts(
    key: RouteKeyModel,
    protocol: Option<SniffedProtocol>,
    address: Option<SocketAddressModel>,
    region_codes: Option<Seq<Seq<char>>>,
    sites: Option<Sites>,
) -> MatchFacts {
    MatchFacts { address, domain: key_domain(key), protocol, region_codes, sites }
}

/// Whether routes are what the rules give for a destination, with one of the addresses and regions
/// that it can have.
pub open spec fn routes_follow(
    routes: Seq<RouteModel>,
    key: RouteKeyModel,
    rules: Seq<AnyRule>,
    sites: Option<Sites>,
) -> bool {
    exists|
        protocol: Option<SniffedProtocol>,
        address: Option<SocketAddressModel>,
        region_codes: Option<Seq<Seq<char>>>,
    |
        protocol_number(protocol) == key.4 && routes == #[trigger] routes_by(
            rules,
            key_facts(key, protocol, address, region_codes, sites),
        )
}

/// Whether routes are what the rules give for a name, with some lists.
pub open spec fn names_follow(
    routes: Seq<RouteModel>,
    domain: Seq<char>,
    rules: Seq<AnyRule>,
) -> bool {
    exists|sites: Option<Sites>| routes == #[trigger] dns_routes(rules, domain, sites)
}

impl RouterModel {
    /// Routes that are given again follow from the rules that are in force.
    pub open spec fn kept_follow(self) -> bool {
        &&& forall|key: RouteKeyModel| #[trigger]
            self.kept_routes.contains_key(key) ==> routes_follow(
                route_views(self.kept_routes[key]),
                key,
                self.merged,
                self.geosite.sites,
            )
        &&& forall|key: RouteKeyModel| #[trigger]
            self.kept_names.contains_key(key) ==> key.0 is Some && names_follow(
                route_views(self.kept_names[key]),
                key.0->Some_0,
                self.merged,
            )
    }

    /// The routes that are kept for a name are given again, and nothing changes.
    pub open spec fn gives_name_again(
        self,
        after: RouterModel,
        domain: Seq<char>,
        routes: Seq<RouteModel>,
    ) -> bool {
        &&& self.kept_names.contains_key(name_key(domain))
        &&& routes == route_views(self.kept_names[name_key(domain)])
        &&& after == self
    }

    /// The routes of a name are found by the rules and the lists that are in force, and kept.
    pub open spec fn finds_name(
        self,
        after: RouterModel,
        domain: Seq<char>,
        routes: Seq<RouteModel>,
    ) -> bool {
        &&& routes == dns_routes(self.merged, domain, self.geosite.sites)
        &&& after.kept_names.contains_key(name_key(domain))
        &&& route_views(after.kept_names[name_key(domain)]) == routes
        &&& after == (RouterModel {
            kept_names: self.kept_names.insert(
                name_key(domain),
                after.kept_names[name_key(domain)],
            ),
            ..self
        })
    }

    /// The rules in force are those of all sources. Before the first are registered there are
    /// none.
    pub open spec fn rules_in_force(self) -> bool {
        is_merged(all_rules(self.entries), self.merged) || (self.entries.len() == 0
            && self.merged.len() == 0)
    }
}

/// Once the routes of a name were found, every name that is alike gets the same routes, from the
/// cache or found anew, as long as the rules and the lists stay.
pub proof fn law_names_alike_are_answered_alike(
    before: RouterModel,
    after: RouterModel,
    routes: Seq<RouteModel>,
    later: RouterModel,
    last: RouterModel,
    more: Seq<RouteModel>,
    domain: Seq<char>,
    other: Seq<char>,
)
    requires
        comparable(domain) == comparable(other),
        before.finds_name(after, comparable(domain), routes),
        later.merged == after.merged,
        later.geosite.sites == after.geosite.sites,
        later.kept_names.contains_key(name_key(comparable(other)))
            ==> later.kept_names[name_key(comparable(other))]
            == after.kept_names[name_key(comparable(other))],
        later.gives_name_again(last, comparable(other), more) || later.finds_name(
            last,
            comparable(other),
            more,
        ),
    ensures
        more == routes,
{
}

fn share_all(rules: &Vec<Arc<AnyRule>>, into: &mut Vec<Arc<AnyRule>>)
    ensures
        rule_list(final(into)@) == rule_list(old(into)@) + rule_list(rules@),
{
    let ghost before = rule_list(into@);
    let ghost all = rule_list(rules@);
    let mut index: usize = 0;
    assert(before + all.take(0) =~= before);
    while index < rules.len()
        invariant
            index <= rules@.len(),
            all == rule_list(rules@),
            rule_list(into@) == before + all.take(index as int),
        decreases rules@.len() - index,
    {
        let ghost held = rule_list(into@);
        into.push(share(&rules[index]));
        proof {
            assert(rule_list(into@) =~= held.push(all[index as int]));
            assert(all.take(index + 1) =~= all.take(index as int).push(all[index as int]));
            assert(rule_list(into@) =~= before + all.take(index + 1));
        }
        index += 1;
    }
    assert(all.take(all.len() as int) =~= all);
}

fn copy_routes(routes: &Vec<RouteMatch>) -> (copy: Vec<RouteMatch>)
    ensures
        route_views(copy@) == route_views(routes@),
{
    let ghost all = route_views(routes@);
    let mut copy: Vec<RouteMatch> = Vec::new();
    let mut index: usize = 0;
    while index < routes.len()
        invariant
            index <= routes@.len(),
            all == route_views(routes@),
            route_views(copy@) =~= all.take(index as int),
        decreases routes@.len() - index,
    {
        let ghost held = route_views(copy@);
        let route = routes[index].clone();
        let ghost model = route@;
        copy.push(route);
        proof {
            assert(route_views(copy@) =~= held.push(model));
            assert(all.take(index + 1) =~= all.take(index as int).push(all[index as int]));
        }
        index += 1;
    }
    assert(all.take(all.len() as int) =~= all);
    copy
}

/// The routes that a look into the cache gives: those that it found, or none where it found none.
pub fn given_again(found: Option<Arc<Vec<RouteMatch>>>) -> (routes: Option<Vec<RouteMatch>>)
    ensures
        match found {
            Some(found) => routes is Some && route_views(routes->Some_0@) == route_views(found@),
            None => routes is None,
        },
{
    match found {
        Some(found) => Some(copy_routes(&*found)),
        None => None,
    }
}

impl Router {
    pub closed spec fn wf(&self) -> bool {
        &&& self.geosite.wf()
        &&& sources_differ(self@.entries)
        &&& self@.rules_in_force()
        &&& self@.kept_follow()
    }

    /// A router without rules.
    pub fn new(geolite2: GeoLite2, geosite: Geosite) -> (router: Self)
        requires
            geosite.wf(),
        ensures
            router.wf(),
            router@ == (RouterModel {
                regions: geolite2@,
                geosite: geosite@,
                entries: Seq::empty(),
                merged: Seq::empty(),
                kept_routes: no_routes(),
                kept_names: no_routes(),
            }),
    {
        let router = Router {
            geolite2,
            geosite,
            entries: Vec::new(),
            merged: Vec::new(),
            cache: new_cache(ROUTE_TIME_TO_LIVE_SECS),
            dns_cache: new_cache(ROUTE_TIME_TO_LIVE_SECS),
        };
        proof {
            assert(router@.entries =~= Seq::empty());
            assert(router@.merged =~= Seq::empty());
        }
        router
    }

    /// The rules for other nodes: all but the fallback rules, which are this node's own.
    pub fn build_rules(&self) -> (rules: Vec<Arc<AnyRule>>)
        ensures
            rule_list(rules@) == self@.merged.filter(|rule: AnyRule| !(rule is Fallback)),
    {
        let ghost kept = |rule: AnyRule| !(rule is Fallback);
        let ghost all = self@.merged;
        let mut rules: Vec<Arc<AnyRule>> = Vec::new();
        let mut index: usize = 0;
        proof {
            reveal(Seq::filter);
            assert(all.take(0).filter(kept) =~= rule_list(rules@));
        }
        while index < self.merged.len()
            invariant
                index <= self.merged@.len(),
                all == rule_list(self.merged@),
                kept == |rule: AnyRule| !(rule is Fallback),
                rule_list(rules@) == all.take(index as int).filter(kept),
            decreases self.merged@.len() - index,
        {
            let ghost held = rule_list(rules@);
            proof {
                reveal(Seq::filter);
                assert(all.take(index + 1).drop_last() =~= all.take(index as int));
                assert(all.take(index + 1).last() == all[index as int]);
            }
            let is_fallback = match &*self.merged[index] {
                AnyRule::Fallback(_) => true,
                _ => false,
            };
            if !is_fallback {
                rules.push(share(&self.merged[index]));
                assert(rule_list(rules@) =~= held.push(all[index as int]));
            }
            index += 1;
        }
        assert(all.take(all.len() as int) =~= all);
        rules
    }

    /// The routes that were found before for a destination: what `given_again` makes of a look
    /// into the cache under the destination's key. They follow from the rules and the lists that
    /// are in force. When the cache forgets what it was given is not stated.
    pub fn cached_routes(&self, destination: &SocketDestination) -> (routes: Option<
        Vec<RouteMatch>,
    >)
        requires
            self.wf(),
        ensures
            routes matches Some(routes) ==> self@.kept_routes.contains_key(
                destination_key(*destination),
            ) && route_views(routes@) == route_views(
                self@.kept_routes[destination_key(*destination)],
            ) && routes_follow(
                route_views(routes@),
                destination_key(*destination),
                self@.merged,
                self@.geosite.sites,
            ),
    {
        given_again(cache_get(&self.cache, &key_of_destination(destination)))
    }

    /// Finds the routes of a destination, `address` being the first address that it resolves to,
    /// and keeps them.
    pub fn match_routes(
        &mut self,
        destination: &SocketDestination,
        address: Option<SocketAddress>,
    ) -> (routes: Vec<RouteMatch>)
        requires
            old(self).wf(),
        ensures
            final(self).wf(),
            route_views(routes@) == routes_by(
                old(self)@.merged,
                MatchFacts {
                    address: optional_address(address),
                    domain: destination.routing_domain_text(),
                    protocol: destination.routing_protocol,
                    region_codes: match address {
                        Some(address) => codes_at(old(self)@.regions, address@.ip),
                        None => None,
                    },
                    sites: old(self)@.geosite.sites,
                },
            ),
            final(self)@.kept_routes.contains_key(destination_key(*destination)),
            route_views(final(self)@.kept_routes[destination_key(*destination)]) == route_views(
                routes@,
            ),
            final(self)@ == (RouterModel {
                kept_routes: old(self)@.kept_routes.insert(
                    destination_key(*destination),
                    final(self)@.kept_routes[destination_key(*destination)],
                ),
                ..old(self)@
            }),
    {
        let domain = destination.routing_domain();
        let protocol = destination.routing_protocol();
        let region_codes = match address {
            Some(address) => self.geolite2.lookup(address.ip()),
            None => None,
        };
        let ghost facts = facts_of(address, domain, protocol, region_codes, self.geosite@);
        let routes = find_routes(
            &self.merged,
            &address,
            &domain,
            &protocol,
            &region_codes,
            &mut self.geosite,
        );
        let kept = Arc::new(copy_routes(&routes));
        let ghost held = kept@;
        let key = key_of_destination(destination);
        let ghost model = key_view(key);
        cache_insert(&mut self.cache, key, kept);
        proof {
            assert(facts == key_facts(
                model,
                protocol,
                facts.address,
                facts.region_codes,
                self@.geosite.sites,
            ));
            assert(self@.kept_routes == old(self)@.kept_routes.insert(model, held));
            assert forall|other: RouteKeyModel| #[trigger]
                self@.kept_routes.contains_key(other) implies routes_follow(
                route_views(self@.kept_routes[other]),
                other,
                self@.merged,
                self@.geosite.sites,
            ) by {
                if other != model {
                    assert(old(self)@.kept_routes.contains_key(other));
                }
            }
        }
        routes
    }

    /// The exits of a destination, with its routes found anew.
    pub fn match_exits(
        &mut self,
        destination: &SocketDestination,
        address: Option<SocketAddress>,
    ) -> (exits: Vec<OutExit>)
        requires
            old(self).wf(),
        ensures
            final(self).wf(),
            final(self)@.kept_routes.contains_key(destination_key(*destination)),
            crate::primitives::route::exit_views(exits@) == routes_by(
                old(self)@.merged,
                MatchFacts {
                    address: optional_address(address),
                    domain: destination.routing_domain_text(),
                    protocol: destination.routing_protocol,
                    region_codes: match address {
                        Some(address) => codes_at(old(self)@.regions, address@.ip),
                        None => None,
                    },
                    sites: old(self)@.geosite.sites,
                },
            ).map_values(|route: RouteModel| route.exit),
            final(self)@ == (RouterModel {
                kept_routes: old(self)@.kept_routes.insert(
                    destination_key(*destination),
                    final(self)@.kept_routes[destination_key(*destination)],
                ),
                ..old(self)@
            }),
    {
        let routes = self.match_routes(destination, address);
        let exits = exits_of_routes(&routes);
        assert(crate::primitives::route::exit_views(exits@) =~= route_views(routes@).map_values(
            |route: RouteModel| route.exit,
        ));
        exits
    }

    /// The routes of a name to resolve. Those that were found before may be given again, though
    /// the lists have changed since.
    pub fn match_dns(&mut self, domain: &str) -> (routes: Vec<RouteMatch>)
        requires
            old(self).wf(),
        ensures
            final(self).wf(),
            names_follow(route_views(routes@), comparable(domain@), old(self)@.merged),
            old(self)@.gives_name_again(final(self)@, comparable(domain@), route_views(routes@))
                || old(self)@.finds_name(final(self)@, comparable(domain@), route_views(routes@)),
    {
        let domain = comparable_domain(domain);
        let key = key_of_name(domain.as_str());
        let ghost model = key_view(key);
        match cache_get(&self.dns_cache, &key) {
            Some(routes) => {
                assert(self@.kept_names.contains_key(model));
                return copy_routes(&*routes);
            },
            None => {},
        }
        let routes = find_name_routes(&self.merged, &domain, &mut self.geosite);
        let kept = Arc::new(copy_routes(&routes));
        let ghost held = kept@;
        cache_insert(&mut self.dns_cache, key, kept);
        proof {
            assert(route_views(routes@) == dns_routes(
                old(self)@.merged,
                domain@,
                old(self)@.geosite.sites,
            ));
            assert(names_follow(route_views(held), domain@, self@.merged));
            assert(self@.kept_names == old(self)@.kept_names.insert(model, held));
            assert forall|other: RouteKeyModel| #[trigger]
                self@.kept_names.contains_key(other) implies other.0 is Some && names_follow(
                route_views(self@.kept_names[other]),
                other.0->Some_0,
                self@.merged,
            ) by {
                if other != model {
                    assert(old(self)@.kept_names.contains_key(other));
                }
            }
            assert forall|other: RouteKeyModel| #[trigger]
                self@.kept_routes.contains_key(other) implies routes_follow(
                route_views(self@.kept_routes[other]),
                other,
                self@.merged,
                self@.geosite.sites,
            ) by {
                assert(old(self)@.kept_routes.contains_key(other));
            }
            assert(self@.kept_follow());
        }
        routes
    }

    /// Replaces the rules of this node. Returns whether keeping the Geosite lists up to date has
    /// to be started.
    pub fn register_local_rules(&mut self, rules: Vec<AnyRule>) -> (start_updating: bool)
        requires
            old(self).wf(),
        ensures
            final(self).wf(),
            registered(old(self)@, final(self)@, RulesSource::Local, rules@),
            start_updating == (any_needs_geosite(rules@) && !old(self)@.geosite.updating),
    {
        self.register_rules(RulesKey::Local, rules)
    }

    /// Replaces the rules of another node. Returns whether keeping the Geosite lists up to date
    /// has to be started.
    pub fn register_node_rules(&mut self, node_id: NodeId, rules: Vec<AnyRule>) -> (start_updating:
        bool)
        requires
            old(self).wf(),
        ensures
            final(self).wf(),
            registered(old(self)@, final(self)@, RulesSource::Node(node_id@), rules@),
            start_updating == (any_needs_geosite(rules@) && !old(self)@.geosite.updating),
    {
        self.register_rules(RulesKey::Node(node_id), rules)
    }

    fn find_entry(&self, key: &RulesKey) -> (result: Option<usize>)
        ensures
            match result {
                Some(index) => entry_index(self@.entries, key@) == Some(index as int) && index
                    < self.entries@.len(),
                None => entry_index(self@.entries, key@) is None,
            },
    {
        let ghost all = self@.entries;
        let mut index: usize = self.entries.len();
        assert(all.take(all.len() as int) =~= all);
        while index > 0
            invariant
                index <= self.entries@.len(),
                all == entry_views(self.entries@),
                entry_index(all.take(index as int), key@) == entry_index(all, key@),
            decreases index,
        {
            proof {
                assert(all.take(index as int).drop_last() =~= all.take(index - 1));
                assert(all.take(index as int).last() == entry_view(self.entries@[index - 1]));
            }
            index -= 1;
            if self.entries[index].0.same(key) {
                return Some(index);
            }
        }
        assert(all.take(0) =~= Seq::empty());
        None
    }

    fn register_rules(&mut self, key: RulesKey, rules: Vec<AnyRule>) -> (start_updating: bool)
        requires
            old(self).wf(),
        ensures
            final(self).wf(),
            registered(old(self)@, final(self)@, key@, rules@),
            start_updating == (any_needs_geosite(rules@) && !old(self)@.geosite.updating),
    {
        let ghost given = rules@;
        let mut needs_geosite = false;
        let mut shared: Vec<Arc<AnyRule>> = Vec::new();
        assert(rule_list(shared@) =~= given.take(0));
        for rule in iter: rules
            invariant
                iter.seq() == given,
                rule_list(shared@) == given.take(iter.index() as int),
                needs_geosite ==> any_needs_geosite(given),
                !needs_geosite ==> forall|i: int|
                    0 <= i < iter.index() ==> !(#[trigger] given[i]).needs_geosite(),
        {
            let ghost held = rule_list(shared@);
            assert(given[iter.index() as int] == rule);
            if rule.requires_geosite() {
                needs_geosite = true;
            }
            shared.push(Arc::new(rule));
            proof {
                assert(rule_list(shared@) =~= held.push(given[iter.index() as int]));
                assert(given.take(iter.index() + 1) =~= given.take(iter.index() as int).push(
                    given[iter.index() as int],
                ));
            }
        }
        assert(given.take(given.len() as int) =~= given);
        let start_updating = if needs_geosite {
            self.geosite.ensure_updating()
        } else {
            false
        };
        let ghost entries = self@.entries;
        let ghost entry = entry_view((key, shared));
        proof {
            lemma_entry_index(entries, key@);
        }
        match self.find_entry(&key) {
            Some(index) => {
                self.entries.set(index, (key, shared));
                assert(self@.entries =~= entries.update(index as int, entry));
            },
            None => {
                self.entries.push((key, shared));
                assert(self@.entries =~= entries.push(entry));
            },
        }
        self.update_rules_cache();
        start_updating
    }

    /// Drops the rules of another node.
    pub fn unregister_node_rules(&mut self, node_id: NodeId)
        requires
            old(self).wf(),
        ensures
            final(self).wf(),
            final(self)@.entries == without_entry(
                old(self)@.entries,
                RulesSource::Node(node_id@),
            ),
            is_merged(all_rules(final(self)@.entries), final(self)@.merged),
            final(self)@ == (RouterModel {
                entries: final(self)@.entries,
                merged: final(self)@.merged,
                kept_routes: no_routes(),
                kept_names: no_routes(),
                ..old(self)@
            }),
    {
        let ghost entries = self@.entries;
        match self.find_entry(&RulesKey::Node(node_id)) {
            Some(index) => {
                assert forall|i: int, j: int|
                    0 <= i < j < entries.len() - 1 implies (#[trigger] entries.remove(
                    index as int,
                )[i]).source != (#[trigger] entries.remove(index as int)[j]).source by {
                    let before = if i < index {
                        i
                    } else {
                        i + 1
                    };
                    let after = if j < index {
                        j
                    } else {
                        j + 1
                    };
                    assert(entries[before].source != entries[after].source);
                }
                let _ = self.entries.remove(index);
                assert(self@.entries =~= entries.remove(index as int));
            },
            None => {},
        }
        self.update_rules_cache();
    }

    /// Puts the rules of all sources in force, and forgets the routes that were found.
    fn update_rules_cache(&mut self)
        requires
            old(self).can_update(),
        ensures
            final(self).wf(),
            is_merged(all_rules(final(self)@.entries), final(self)@.merged),
            final(self)@ == (RouterModel {
                merged: final(self)@.merged,
                kept_routes: no_routes(),
                kept_names: no_routes(),
                ..old(self)@
            }),
    {
        let ghost entries = self@.entries;
        let mut rules: Vec<Arc<AnyRule>> = Vec::new();
        let mut index: usize = 0;
        assert(rule_list(rules@) =~= all_rules(entries.take(0)));
        while index < self.entries.len()
            invariant
                index <= self.entries@.len(),
                entries == entry_views(self.entries@),
                rule_list(rules@) == all_rules(entries.take(index as int)),
            decreases self.entries@.len() - index,
        {
            proof {
                assert(entries.take(index + 1).drop_last() =~= entries.take(index as int));
                assert(entries.take(index + 1).last() == entry_view(self.entries@[index as int]));
            }
            share_all(&self.entries[index].1, &mut rules);
            index += 1;
        }
        assert(entries.take(entries.len() as int) =~= entries);
        self.merged = merge_rules(&rules);
        cache_clear(&mut self.cache);
        cache_clear(&mut self.dns_cache);
    }

    spec fn can_update(&self) -> bool {
        self.geosite.wf() && sources_differ(self@.entries)
    }

    /// At all times the rules in force are those of all sources, and the routes that are given
    /// again follow from them.
    pub proof fn law_kept_routes_follow_the_rules_in_force(&self)
        requires
            self.wf(),
        ensures
            sources_differ(self@.entries),
            self@.rules_in_force(),
            self@.kept_follow(),
    {
    }

    /// Replaces the Geosite lists. Routes of destinations that were found are forgotten.
    pub fn install_geosite(&mut self, database: GeositeDatabase)
        requires
            old(self).wf(),
            database.wf(),
        ensures
            final(self).wf(),
            final(self)@ == (RouterModel {
                geosite: GeositeModel { sites: Some(database@), ..old(self)@.geosite },
                kept_routes: no_routes(),
                ..old(self)@
            }),
    {
        self.geosite.install(database);
        cache_clear(&mut self.cache);
    }

    /// Replaces the region database by downloaded bytes, where they are one.
    pub fn install_regions(&mut self, bytes: Vec<u8>) -> (result: Result<(), InvalidDatabase>)
        requires
            old(self).wf(),
        ensures
            final(self).wf(),
            result is Ok <==> database_opens(bytes@),
            final(self)@ == (RouterModel {
                regions: if database_opens(bytes@) {
                    Some(bytes@)
                } else {
                    old(self)@.regions
                },
                ..old(self)@
            }),
    {
        self.geolite2.install(bytes)
    }
}

/// What registering the rules of a source does: they replace its old ones, and nothing that was
/// found before is given again.
pub open spec fn registered(
    before: RouterModel,
    after: RouterModel,
    source: RulesSource,
    rules: Seq<AnyRule>,
) -> bool {
    &&& after.entries == with_entry(before.entries, source, rules)
    &&& is_merged(all_rules(after.entries), after.merged)
    &&& after == RouterModel {
        entries: after.entries,
        merged: after.merged,
        kept_routes: no_routes(),
        kept_names: no_routes(),
        geosite: GeositeModel {
            updating: before.geosite.updating || any_needs_geosite(rules),
            ..before.geosite
        },
        ..before
    }
}

/// A destination is routed by what is known of it: the domain that was found out or else its own
/// name, the protocol, the address and the region of the address; and the exits are those of the
/// routes, in their order.
pub proof fn law_destinations_are_routed_by_what_is_known(
    router: &mut Router,
    same: &mut Router,
    destination: SocketDestination,
    address: Option<SocketAddress>,
    routes: Vec<RouteMatch>,
    exits: Vec<OutExit>,
    facts: MatchFacts,
)
    requires
        old(router).wf(),
        *old(same) == *old(router),
        call_ensures(Router::match_routes, (router, &destination, address), routes),
        call_ensures(Router::match_exits, (same, &destination, address), exits),
        facts.domain == (match destination.routing_domain {
            Some(found) => Some(found@),
            None => match destination.host {
                SocketDestinationHost::DomainName(name) => Some(name@),
                SocketDestinationHost::IpAddress(_) => None,
            },
        }),
        facts.protocol == destination.routing_protocol,
        facts.address == (match address {
            Some(address) => Some(address@),
            None => None,
        }),
        facts.region_codes == (match address {
            Some(address) => codes_at(old(router)@.regions, address@.ip),
            None => None,
        }),
        facts.sites == old(router)@.geosite.sites,
    ensures
        route_views(routes@) == routes_by(old(router)@.merged, facts),
        exits@.len() == routes@.len(),
        forall|i: int| 0 <= i < routes@.len() ==> #[trigger] exits@[i]@ == routes@[i].exit@,
        final(router)@.merged == old(router)@.merged,
        final(router)@.kept_names == old(router)@.kept_names,
{
    let known = MatchFacts {
        address: optional_address(address),
        domain: destination.routing_domain_text(),
        protocol: destination.routing_protocol,
        region_codes: match address {
            Some(address) => codes_at(old(router)@.regions, address@.ip),
            None => None,
        },
        sites: old(router)@.geosite.sites,
    };
    assert(known == facts);
    let found = routes_by(old(router)@.merged, facts);
    let views = crate::primitives::route::exit_views(exits@);
    assert(views =~= found.map_values(|route: RouteModel| route.exit));
    assert(route_views(routes@).len() == routes@.len() && views.len() == exits@.len());
    assert forall|i: int| 0 <= i < routes@.len() implies #[trigger] exits@[i]@
        == routes@[i].exit@ by {
        assert(views[i] == exits@[i]@);
        assert(route_views(routes@)[i] == routes@[i]@);
    }
}

/// Registering rules replaces those that the same source gave before, leaves the other sources
/// alone, and forgets every kept route.
pub proof fn law_registering_replaces_the_rules_of_a_source(
    router: &mut Router,
    rules: Vec<AnyRule>,
    start_updating: bool,
    index: int,
)
    requires
        old(router).wf(),
        call_ensures(Router::register_local_rules, (router, rules), start_updating),
    ensures
        final(router)@.kept_routes == no_routes(),
        final(router)@.kept_names == no_routes(),
        ({
            let before = old(router)@.entries;
            let after = final(router)@.entries;
            &&& 0 <= index < before.len() && before[index].source == RulesSource::Local
                ==> after.len() == before.len() && after[index].rules == rules@
            &&& 0 <= index < before.len() && before[index].source != RulesSource::Local
                ==> after[index] == before[index]
            &&& (forall|i: int|
                0 <= i < before.len() ==> (#[trigger] before[i]).source != RulesSource::Local)
                ==> after.len() == before.len() + 1 && after.last().rules == rules@
                && after.last().source == RulesSource::Local
        }),
        start_updating ==> !old(router)@.geosite.updating,
        (exists|i: int| 0 <= i < rules@.len() && (#[trigger] rules@[i]).needs_geosite())
            && !old(router)@.geosite.updating ==> start_updating,
{
    let before = old(router)@.entries;
    old(router).law_kept_routes_follow_the_rules_in_force();
    lemma_entry_at(before, RulesSource::Local, index);
}

proof fn lemma_entry_at(entries: Seq<RulesEntry>, source: RulesSource, index: int)
    requires
        sources_differ(entries),
    ensures
        0 <= index < entries.len() && entries[index].source == source ==> entry_index(
            entries,
            source,
        ) == Some(index),
        entry_index(entries, source) matches Some(at) ==> 0 <= at < entries.len()
            && entries[at].source == source,
        (forall|i: int| 0 <= i < entries.len() ==> (#[trigger] entries[i]).source != source)
            ==> entry_index(entries, source) is None,
    decreases entries.len(),
{
    if entries.len() > 0 {
        let front = entries.drop_last();
        assert(sources_differ(front)) by {
            assert forall|i: int, j: int| 0 <= i < j < front.len() implies (
            #[trigger] front[i]).source != (#[trigger] front[j]).source by {
                assert(entries[i].source != entries[j].source);
            }
        }
        lemma_entry_at(front, source, index);
        if 0 <= index < front.len() && entries[index].source == source {
            assert(front[index] == entries[index]);
            assert(entries[index].source != entries[entries.len() - 1].source);
        }
        if entries.last().source != source {
            if entry_index(front, source) is Some {
                let at = entry_index(front, source)->Some_0;
                assert(front[at] == entries[at]);
            }
        } else {
            assert(entries[entries.len() - 1].source == source);
        }
        if forall|i: int| 0 <= i < entries.len() ==> (#[trigger] entries[i]).source != source {
            assert(entries[entries.len() - 1].source != source);
            assert forall|i: int| 0 <= i < front.len() implies (#[trigger] front[i]).source
                != source by {
                assert(entries[i].source != source);
            }
        }
    }
}

/// Once a node is gone, so are its rules and every kept route; the other sources stay.
pub proof fn law_rules_of_a_node_go_with_it(router: &mut Router, node_id: NodeId, index: int)
    requires
        old(router).wf(),
        call_ensures(Router::unregister_node_rules, (router, node_id), ()),
    ensures
        entry_index(final(router)@.entries, RulesSource::Node(node_id@)) is None,
        0 <= index < old(router)@.entries.len() && old(router)@.entries[index].source
            != RulesSource::Node(node_id@) ==> final(router)@.entries.contains(
            old(router)@.entries[index],
        ),
        final(router)@.kept_routes == no_routes(),
        final(router)@.kept_names == no_routes(),
{
    old(router).law_kept_routes_follow_the_rules_in_force();
    law_dropped_sources_are_gone(old(router)@.entries, RulesSource::Node(node_id@));
}

/// New Geosite lists take effect at once for connections: kept routes are forgotten. Regions that
/// cannot be read change nothing.
pub proof fn law_new_lists_take_effect_at_once(
    lists: &mut Router,
    database: GeositeDatabase,
    regions: &mut Router,
    bytes: Vec<u8>,
    result: Result<(), InvalidDatabase>,
)
    requires
        old(lists).wf(),
        database.wf(),
        call_ensures(Router::install_geosite, (lists, database), ()),
        old(regions).wf(),
        call_ensures(Router::install_regions, (regions, bytes), result),
    ensures
        final(lists)@.geosite.sites == Some(database@),
        final(lists)@.kept_routes == no_routes(),
        final(lists)@.merged == old(lists)@.merged,
        result is Err ==> final(regions)@ == old(regions)@,
        result is Ok ==> final(regions)@.regions == Some(bytes@),
        final(regions)@.merged == old(regions)@.merged,
{
}

/// A name is looked up without the dots at its end and in lower case, and what is found is kept
/// under that name.
pub proof fn law_found_name_routes_are_kept(
    router: &mut Router,
    domain: &str,
    routes: Vec<RouteMatch>,
)
    requires
        old(router).wf(),
        call_ensures(Router::match_dns, (router, domain), routes),
    ensures
        final(router)@.kept_names.contains_key(name_key(comparable(domain@))),
        route_views(final(router)@.kept_names[name_key(comparable(domain@))]) == route_views(
            routes@,
        ),
        !old(router)@.kept_names.contains_key(name_key(comparable(domain@))) ==> route_views(
            routes@,
        ) == dns_routes(
            old(router)@.merged,
            comparable(domain@),
            old(router)@.geosite.sites,
        ),
        routes@.len() > 0,
        final(router)@.kept_routes == old(router)@.kept_routes,
        final(router)@.merged == old(router)@.merged,
{
    let sites = choose|sites: Option<Sites>|
        route_views(routes@) == #[trigger] dns_routes(
            old(router)@.merged,
            comparable(domain@),
            sites,
        );
    assert(route_views(routes@).len() == routes@.len());
}

/// What a router tells others are its rules without the fallbacks, in their order.
pub proof fn law_fallbacks_are_not_told(router: Router, rules: Vec<Arc<AnyRule>>, rule: AnyRule)
    requires
        call_ensures(Router::build_rules, (&router,), rules),
    ensures
        rule_list(rules@).contains(rule) <==> router@.merged.contains(rule) && !(rule is Fallback),
{
    let told = |rule: AnyRule| !(rule is Fallback);
    let merged = router@.merged;
    if merged.contains(rule) && told(rule) {
        let i = choose|i: int| 0 <= i < merged.len() && merged[i] == rule;
        merged.lemma_filter_contains(told, i);
    }
    if rule_list(rules@).contains(rule) {
        merged.lemma_filter_contains_rev(told, rule);
        let kept = merged.filter(told);
        let i = choose|i: int| 0 <= i < kept.len() && kept[i] == rule;
        merged.lemma_filter_pred(told, i);
    }
}

/// The rules in force are those of the sources, and nothing else but the fallback that is added
/// where none of them has one.
pub proof fn law_rules_in_force_come_from_the_sources(router: Router, rule: AnyRule)
    requires
        router.wf(),
    ensures
        router@.merged.contains(rule) && !(rule is Fallback) ==> exists|i: int|
            0 <= i < router@.entries.len() && (#[trigger] router@.entries[i]).rules.contains(rule),
        (exists|i: int|
            0 <= i < router@.entries.len() && (#[trigger] router@.entries[i]).rules.contains(rule))
            ==> router@.merged.contains(rule),
{
    router.law_kept_routes_follow_the_rules_in_force();
    let all = all_rules(router@.entries);
    lemma_all_rules_hold(router@.entries, rule);
    if is_merged(all, router@.merged) {
        if all.contains(rule) {
            lemma_merged_holds(all, router@.merged, rule);
        }
        if router@.merged.contains(rule) && !(rule is Fallback) {
            lemma_merged_holds_no_other(all, router@.merged, rule);
        }
    }
}

} // verus!
