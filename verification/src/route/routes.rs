//! Routes: the exits that rules give.

use std::sync::Arc;

use vstd::prelude::*;

use super::domain::{comparable, end_dots, lemma_comparable_names, lowered_text};
use super::geosite::{Geosite, Sites};
use super::order::{is_sorted, rule_list};
use super::rule::{facts_of, optional_address, AnyRule, MatchFacts, RuleKind};
use crate::address::{SocketAddress, SocketAddressModel};
use crate::primitives::route::{exit_views, Exit, OutExit};
use crate::sniff::SniffedProtocol;

verus! {

/// An exit that a destination may use.
#[derive(Debug, PartialEq, Eq)]
pub struct RouteMatch {
    pub exit: OutExit,
    /// By what kinds of condition the rule matched.
    pub rule_kinds: Vec<RuleKind>,
    pub matched_address: Option<SocketAddress>,
}

/// A route in mathematical form.
#[verifier::ext_equal]
pub struct RouteModel {
    pub exit: Exit,
    pub rule_kinds: Seq<RuleKind>,
    pub matched_address: Option<SocketAddressModel>,
}

impl View for RouteMatch {
    type V = RouteModel;

    open spec fn view(&self) -> RouteModel {
        RouteModel {
            exit: self.exit@,
            rule_kinds: self.rule_kinds@,
            matched_address: optional_address(self.matched_address),
        }
    }
}

fn copy_kinds(kinds: &Vec<RuleKind>) -> (copy: Vec<RuleKind>)
    ensures
        copy@ == kinds@,
{
    let mut copy: Vec<RuleKind> = Vec::new();
    let mut index: usize = 0;
    while index < kinds.len()
        invariant
            index <= kinds@.len(),
            copy@ =~= kinds@.take(index as int),
        decreases kinds@.len() - index,
    {
        copy.push(kinds[index]);
        index += 1;
    }
    copy
}

impl Clone for RouteMatch {
    fn clone(&self) -> (route: Self)
        ensures
            route@ == self@,
    {
        RouteMatch {
            exit: self.exit.clone(),
            rule_kinds: copy_kinds(&self.rule_kinds),
            matched_address: self.matched_address,
        }
    }
}

/// The route that is taken whatever rules say.
pub open spec fn fixed_route(exit: Exit) -> RouteModel {
    RouteModel { exit, rule_kinds: seq![RuleKind::Fallback], matched_address: None }
}

impl RouteMatch {
    /// A route by no rule.
    pub fn fixed(exit: OutExit) -> (route: Self)
        ensures
            route@ == fixed_route(exit@),
    {
        let rule_kinds: Vec<RuleKind> = vec![RuleKind::Fallback];
        assert(rule_kinds@ =~= seq![RuleKind::Fallback]);
        RouteMatch { exit, rule_kinds, matched_address: None }
    }
}

/// The views of routes.
pub open spec fn route_views(routes: Seq<RouteMatch>) -> Seq<RouteModel> {
    routes.map_values(|route: RouteMatch| route@)
}

/// Whether one of the routes has an exit.
pub open spec fn offers(routes: Seq<RouteModel>, exit: Exit) -> bool {
    exists|i: int| 0 <= i < routes.len() && (#[trigger] routes[i]).exit == exit
}

/// The routes with one more for each exit that none of them has.
pub open spec fn with_exits(
    routes: Seq<RouteModel>,
    exits: Seq<Exit>,
    kinds: Seq<RuleKind>,
    address: Option<SocketAddressModel>,
) -> Seq<RouteModel>
    decreases exits.len(),
{
    if exits.len() == 0 {
        routes
    } else {
        let before = with_exits(routes, exits.drop_last(), kinds, address);
        if offers(before, exits.last()) {
            before
        } else {
            before.push(
                RouteModel { exit: exits.last(), rule_kinds: kinds, matched_address: address },
            )
        }
    }
}

/// What one more rule adds to the routes. A fallback rule adds nothing where there are routes.
pub open spec fn with_rule(
    routes: Seq<RouteModel>,
    rule: AnyRule,
    facts: MatchFacts,
    address: Option<SocketAddressModel>,
) -> Seq<RouteModel> {
    match rule.outcome(facts) {
        Some(kinds) => if rule is Fallback && routes.len() > 0 {
            routes
        } else {
            with_exits(routes, exit_views(rule.own_exits()), kinds, address)
        },
        None => routes,
    }
}

/// The routes of a connection by rules in their order. Rules for name resolution alone do not
/// count.
pub open spec fn routes_by(rules: Seq<AnyRule>, facts: MatchFacts) -> Seq<RouteModel>
    decreases rules.len(),
{
    if rules.len() == 0 {
        Seq::empty()
    } else {
        let before = routes_by(rules.drop_last(), facts);
        if rules.last().is_dns_only() {
            before
        } else {
            with_rule(before, rules.last(), facts, facts.address)
        }
    }
}

/// What is known of a name that is to be resolved.
pub open spec fn name_facts(domain: Seq<char>, sites: Option<Sites>) -> MatchFacts {
    MatchFacts { address: None, domain: Some(domain), protocol: None, region_codes: None, sites }
}

/// The routes that rules by domain give for a name.
pub open spec fn name_routes_by(
    rules: Seq<AnyRule>,
    domain: Seq<char>,
    sites: Option<Sites>,
) -> Seq<RouteModel>
    decreases rules.len(),
{
    if rules.len() == 0 {
        Seq::empty()
    } else {
        let before = name_routes_by(rules.drop_last(), domain, sites);
        if rules.last() is Domain {
            with_rule(before, rules.last(), name_facts(domain, sites), None)
        } else {
            before
        }
    }
}

/// The routes of a name to resolve: directly, where no rule by domain matches.
pub open spec fn dns_routes(
    rules: Seq<AnyRule>,
    domain: Seq<char>,
    sites: Option<Sites>,
) -> Seq<RouteModel> {
    let routes = name_routes_by(rules, domain, sites);
    if routes.len() == 0 {
        seq![fixed_route(Exit::Direct)]
    } else {
        routes
    }
}

fn check_offered(routes: &Vec<RouteMatch>, exit: &OutExit) -> (result: bool)
    ensures
        result == offers(route_views(routes@), exit@),
{
    let ghost views = route_views(routes@);
    let mut index: usize = 0;
    while index < routes.len()
        invariant
            index <= routes@.len(),
            views == route_views(routes@),
            forall|i: int| 0 <= i < index ==> (#[trigger] views[i]).exit != exit@,
        decreases routes@.len() - index,
    {
        assert(views[index as int] == routes@[index as int]@);
        if routes[index].exit.same(exit) {
            return true;
        }
        index += 1;
    }
    false
}

fn add_exits(
    routes: &mut Vec<RouteMatch>,
    exits: &[OutExit],
    kinds: &Vec<RuleKind>,
    address: Option<SocketAddress>,
)
    ensures
        route_views(final(routes)@) == with_exits(
            route_views(old(routes)@),
            exit_views(exits@),
            kinds@,
            optional_address(address),
        ),
{
    let ghost before = route_views(routes@);
    let ghost all = exit_views(exits@);
    let mut index: usize = 0;
    assert(all.take(0) =~= Seq::empty());
    while index < exits.len()
        invariant
            index <= exits@.len(),
            all == exit_views(exits@),
            route_views(routes@) == with_exits(
                before,
                all.take(index as int),
                kinds@,
                optional_address(address),
            ),
        decreases exits@.len() - index,
    {
        let ghost held = route_views(routes@);
        proof {
            assert(all.take(index + 1).drop_last() =~= all.take(index as int));
            assert(all.take(index + 1).last() == exits@[index as int]@);
        }
        if !check_offered(routes, &exits[index]) {
            let route = RouteMatch {
                exit: exits[index].clone(),
                rule_kinds: copy_kinds(kinds),
                matched_address: address,
            };
            let ghost model = route@;
            routes.push(route);
            assert(route_views(routes@) =~= held.push(model));
        }
        index += 1;
    }
    assert(all.take(all.len() as int) =~= all);
}

/// The routes of a connection by rules in their order.
pub fn find_routes(
    rules: &Vec<Arc<AnyRule>>,
    address: &Option<SocketAddress>,
    domain: &Option<String>,
    protocol: &Option<SniffedProtocol>,
    region_codes: &Option<Vec<String>>,
    geosite: &mut Geosite,
) -> (routes: Vec<RouteMatch>)
    requires
        old(geosite).wf(),
    ensures
        final(geosite).wf(),
        final(geosite)@ == old(geosite)@,
        route_views(routes@) == routes_by(
            rule_list(rules@),
            facts_of(*address, *domain, *protocol, *region_codes, old(geosite)@),
        ),
{
    let ghost facts = facts_of(*address, *domain, *protocol, *region_codes, geosite@);
    let ghost all = rule_list(rules@);
    let mut routes: Vec<RouteMatch> = Vec::new();
    let mut index: usize = 0;
    proof {
        assert(all.take(0) =~= Seq::empty());
        assert(route_views(routes@) =~= Seq::empty());
    }
    while index < rules.len()
        invariant
            index <= rules@.len(),
            all == rule_list(rules@),
            geosite.wf(),
            geosite@ == old(geosite)@,
            facts == facts_of(*address, *domain, *protocol, *region_codes, geosite@),
            route_views(routes@) == routes_by(all.take(index as int), facts),
        decreases rules@.len() - index,
    {
        let rule = &*rules[index];
        proof {
            assert(all.take(index + 1).drop_last() =~= all.take(index as int));
            assert(all.take(index + 1).last() == *rule);
            assert(route_views(routes@).len() == routes@.len());
        }
        if !rule.dns_only() {
            match rule.test(address, domain, protocol, region_codes, geosite) {
                Some(kinds) => {
                    let is_fallback = match rule {
                        AnyRule::Fallback(_) => true,
                        _ => false,
                    };
                    if !(is_fallback && routes.len() > 0) {
                        add_exits(&mut routes, rule.exits(), &kinds, *address);
                    }
                },
                None => {},
            }
        }
        index += 1;
    }
    assert(all.take(all.len() as int) =~= all);
    routes
}

/// The routes of a name to resolve, given in the form that rules compare. Only rules by domain
/// count.
pub fn find_name_routes(
    rules: &Vec<Arc<AnyRule>>,
    domain: &String,
    geosite: &mut Geosite,
) -> (routes: Vec<RouteMatch>)
    requires
        old(geosite).wf(),
    ensures
        final(geosite).wf(),
        final(geosite)@ == old(geosite)@,
        route_views(routes@) == dns_routes(rule_list(rules@), domain@, old(geosite)@.sites),
{
    let ghost sites = geosite@.sites;
    let ghost all = rule_list(rules@);
    let known = Some(domain.clone());
    let ghost facts = name_facts(domain@, sites);
    let mut routes: Vec<RouteMatch> = Vec::new();
    let mut index: usize = 0;
    proof {
        assert(all.take(0) =~= Seq::empty());
        assert(route_views(routes@) =~= Seq::empty());
    }
    while index < rules.len()
        invariant
            index <= rules@.len(),
            all == rule_list(rules@),
            geosite.wf(),
            geosite@ == old(geosite)@,
            sites == geosite@.sites,
            known == Some(*domain),
            facts == name_facts(domain@, sites),
            route_views(routes@) == name_routes_by(all.take(index as int), domain@, sites),
        decreases rules@.len() - index,
    {
        let rule = &*rules[index];
        proof {
            assert(all.take(index + 1).drop_last() =~= all.take(index as int));
            assert(all.take(index + 1).last() == *rule);
        }
        match rule {
            AnyRule::Domain(_) => {
                assert(facts_of(None, known, None, None, geosite@) == facts);
                match rule.test(&None, &known, &None, &None, geosite) {
                    Some(kinds) => {
                        add_exits(&mut routes, rule.exits(), &kinds, None);
                    },
                    None => {},
                }
            },
            _ => {},
        }
        index += 1;
    }
    assert(all.take(all.len() as int) =~= all);
    assert(route_views(routes@).len() == routes@.len());
    if routes.len() == 0 {
        let route = RouteMatch::fixed(OutExit::Direct);
        let ghost model = route@;
        routes.push(route);
        assert(route_views(routes@) =~= seq![model]);
    }
    routes
}

/// The exits of routes, in their order.
pub fn exits_of_routes(routes: &Vec<RouteMatch>) -> (exits: Vec<OutExit>)
    ensures
        exits@ == routes@.map_values(|route: RouteMatch| route.exit),
{
    let mut exits: Vec<OutExit> = Vec::new();
    let mut index: usize = 0;
    while index < routes.len()
        invariant
            index <= routes@.len(),
            exits@ =~= routes@.take(index as int).map_values(|route: RouteMatch| route.exit),
        decreases routes@.len() - index,
    {
        assert(routes@.take(index + 1) =~= routes@.take(index as int).push(routes@[index as int]));
        exits.push(routes[index].exit.clone());
        index += 1;
    }
    assert(routes@.take(routes@.len() as int) =~= routes@);
    exits
}

/// No two routes have the same exit.
pub open spec fn exits_differ(routes: Seq<RouteModel>) -> bool {
    forall|i: int, j: int|
        0 <= i < j < routes.len() ==> (#[trigger] routes[i]).exit != (#[trigger] routes[j]).exit
}

proof fn lemma_with_exits(
    routes: Seq<RouteModel>,
    exits: Seq<Exit>,
    kinds: Seq<RuleKind>,
    address: Option<SocketAddressModel>,
)
    requires
        exits_differ(routes),
    ensures
        exits_differ(with_exits(routes, exits, kinds, address)),
        routes.len() <= with_exits(routes, exits, kinds, address).len(),
        exits.len() > 0 ==> with_exits(routes, exits, kinds, address).len() > 0,
        forall|i: int|
            0 <= i < routes.len() ==> #[trigger] with_exits(routes, exits, kinds, address)[i]
                == routes[i],
        forall|i: int|
            routes.len() <= i < with_exits(routes, exits, kinds, address).len() ==> {
                let route = #[trigger] with_exits(routes, exits, kinds, address)[i];
                &&& exits.contains(route.exit)
                &&& !offers(routes, route.exit)
                &&& route.rule_kinds == kinds
                &&& route.matched_address == address
            },
        forall|exit: Exit| #[trigger]
            offers(with_exits(routes, exits, kinds, address), exit) <==> offers(routes, exit)
                || exits.contains(exit),
    decreases exits.len(),
{
    if exits.len() > 0 {
        let front = exits.drop_last();
        let before = with_exits(routes, front, kinds, address);
        let all = with_exits(routes, exits, kinds, address);
        lemma_with_exits(routes, front, kinds, address);
        assert(exits.contains(exits.last())) by {
            assert(exits[exits.len() - 1] == exits.last());
        }
        assert forall|exit: Exit| front.contains(exit) implies exits.contains(exit) by {
            let i = choose|i: int| 0 <= i < front.len() && front[i] == exit;
            assert(exits[i] == exit);
        }
        assert forall|i: int| 0 <= i < before.len() implies all[i] == #[trigger] before[i] by {}
        if !offers(before, exits.last()) {
            assert forall|i: int, j: int| 0 <= i < j < all.len() implies (
            #[trigger] all[i]).exit != (#[trigger] all[j]).exit by {
                if j == before.len() {
                    assert(before[i].exit != exits.last());
                }
            }
            assert(all[before.len() as int].exit == exits.last());
            assert(!offers(routes, exits.last())) by {
                if offers(routes, exits.last()) {
                    let i = choose|i: int|
                        0 <= i < routes.len() && (#[trigger] routes[i]).exit == exits.last();
                    assert(before[i].exit == exits.last());
                }
            }
        }
        assert forall|exit: Exit| #[trigger]
            offers(all, exit) <==> offers(routes, exit) || exits.contains(exit) by {
            assert(offers(before, exit) <==> offers(routes, exit) || front.contains(exit));
            if offers(all, exit) {
                let i = choose|i: int| 0 <= i < all.len() && (#[trigger] all[i]).exit == exit;
                if i < before.len() {
                    assert(before[i].exit == exit);
                }
            }
            if offers(before, exit) {
                let i = choose|i: int| 0 <= i < before.len() && (#[trigger] before[i]).exit == exit;
                assert(all[i].exit == exit);
            }
            if exits.contains(exit) {
                let i = choose|i: int| 0 <= i < exits.len() && exits[i] == exit;
                if i < front.len() {
                    assert(front[i] == exit);
                } else if offers(before, exits.last()) {
                    assert(offers(before, exit));
                } else {
                    assert(all[before.len() as int].exit == exit);
                }
            }
        }
    }
}

/// Whether a rule can give a connection a route to an exit.
pub open spec fn gives_route(rule: AnyRule, facts: MatchFacts, exit: Exit) -> bool {
    !rule.is_dns_only() && rule.outcome(facts) is Some && exit_views(rule.own_exits()).contains(
        exit,
    )
}

/// Whether the rule at `index` gives a route, and no rule before it but a fallback rule could.
pub open spec fn is_first_for(
    rules: Seq<AnyRule>,
    facts: MatchFacts,
    route: RouteModel,
    index: int,
) -> bool {
    &&& 0 <= index < rules.len()
    &&& gives_route(rules[index], facts, route.exit)
    &&& rules[index].outcome(facts) == Some(route.rule_kinds)
    &&& forall|i: int|
        0 <= i < index && !((#[trigger] rules[i]) is Fallback) ==> !gives_route(
            rules[i],
            facts,
            route.exit,
        )
}

proof fn lemma_routes_by(rules: Seq<AnyRule>, facts: MatchFacts)
    ensures
        exits_differ(routes_by(rules, facts)),
        forall|i: int|
            0 <= i < routes_by(rules, facts).len() ==> (#[trigger] routes_by(
                rules,
                facts,
            )[i]).matched_address == facts.address && exists|index: int| #[trigger]
                is_first_for(rules, facts, routes_by(rules, facts)[i], index),
        forall|index: int, exit: Exit|
            0 <= index < rules.len() && !(rules[index] is Fallback) && #[trigger] gives_route(
                rules[index],
                facts,
                exit,
            ) ==> offers(routes_by(rules, facts), exit),
    decreases rules.len(),
{
    if rules.len() > 0 {
        let front = rules.drop_last();
        let rule = rules.last();
        let before = routes_by(front, facts);
        let all = routes_by(rules, facts);
        let exits = exit_views(rule.own_exits());
        lemma_routes_by(front, facts);
        assert forall|i: int| 0 <= i < front.len() implies front[i] == #[trigger] rules[i] by {}
        assert forall|route: RouteModel, index: int| #[trigger]
            is_first_for(front, facts, route, index) implies is_first_for(
            rules,
            facts,
            route,
            index,
        ) by {}
        if !rule.is_dns_only() && rule.outcome(facts) is Some && !(rule is Fallback && before.len()
            > 0) {
            let kinds = rule.outcome(facts)->Some_0;
            lemma_with_exits(before, exits, kinds, facts.address);
            assert(all == with_exits(before, exits, kinds, facts.address));
            assert forall|i: int| 0 <= i < all.len() implies (
            #[trigger] all[i]).matched_address == facts.address && exists|index: int| #[trigger]
                is_first_for(rules, facts, all[i], index) by {
                if i < before.len() {
                    assert(all[i] == before[i]);
                    let index = choose|index: int| #[trigger]
                        is_first_for(front, facts, before[i], index);
                    assert(is_first_for(rules, facts, all[i], index));
                } else {
                    let route = all[i];
                    assert(!offers(before, route.exit));
                    assert forall|k: int|
                        0 <= k < rules.len() - 1 && !((#[trigger] rules[k])
                            is Fallback) implies !gives_route(rules[k], facts, route.exit) by {
                        if gives_route(rules[k], facts, route.exit) {
                            assert(gives_route(front[k], facts, route.exit));
                        }
                    }
                    assert(is_first_for(rules, facts, route, rules.len() - 1));
                }
            }
        } else {
            assert(all == before);
            assert forall|i: int| 0 <= i < all.len() implies (
            #[trigger] all[i]).matched_address == facts.address && exists|index: int| #[trigger]
                is_first_for(rules, facts, all[i], index) by {
                let index = choose|index: int| #[trigger]
                    is_first_for(front, facts, before[i], index);
                assert(is_first_for(rules, facts, all[i], index));
            }
        }
        assert forall|index: int, exit: Exit|
            0 <= index < rules.len() && !(rules[index] is Fallback) && #[trigger] gives_route(
                rules[index],
                facts,
                exit,
            ) implies offers(all, exit) by {
            if index < front.len() {
                assert(gives_route(front[index], facts, exit));
                assert(offers(before, exit));
                let i = choose|i: int| 0 <= i < before.len() && (#[trigger] before[i]).exit == exit;
                assert(all[i] == before[i]);
            }
        }
    }
}

/// A destination gets each exit once, from the first rule that gives it.
pub proof fn law_first_rule_for_an_exit_gives_the_route(rules: Seq<AnyRule>, facts: MatchFacts)
    ensures
        exits_differ(routes_by(rules, facts)),
        forall|i: int|
            0 <= i < routes_by(rules, facts).len() ==> (#[trigger] routes_by(
                rules,
                facts,
            )[i]).matched_address == facts.address && exists|index: int| #[trigger]
                is_first_for(rules, facts, routes_by(rules, facts)[i], index),
{
    lemma_routes_by(rules, facts);
}

/// Every exit of a rule that matches is among the routes, but for fallback rules.
pub proof fn law_matching_rules_give_their_exits(
    rules: Seq<AnyRule>,
    facts: MatchFacts,
    index: int,
    exit: Exit,
)
    requires
        0 <= index < rules.len(),
        !(rules[index] is Fallback),
        gives_route(rules[index], facts, exit),
    ensures
        offers(routes_by(rules, facts), exit),
{
    lemma_routes_by(rules, facts);
}

/// Where a fallback rule has an exit, every destination gets a route.
pub proof fn law_fallback_covers_every_destination(
    rules: Seq<AnyRule>,
    facts: MatchFacts,
    index: int,
)
    requires
        0 <= index < rules.len(),
        rules[index] is Fallback,
        rules[index].own_exits().len() > 0,
    ensures
        routes_by(rules, facts).len() > 0,
    decreases rules.len(),
{
    let front = rules.drop_last();
    let rule = rules.last();
    let before = routes_by(front, facts);
    lemma_routes_by(front, facts);
    if index < front.len() {
        assert(front[index] == rules[index]);
        law_fallback_covers_every_destination(front, facts, index);
    }
    if !rule.is_dns_only() && rule.outcome(facts) is Some {
        lemma_with_exits(
            before,
            exit_views(rule.own_exits()),
            rule.outcome(facts)->Some_0,
            facts.address,
        );
    }
}

/// Rules for name resolution alone do not change the routes of connections.
pub proof fn law_dns_only_rules_do_not_route_connections(rules: Seq<AnyRule>, facts: MatchFacts)
    ensures
        routes_by(rules, facts) == routes_by(
            rules.filter(|rule: AnyRule| !rule.is_dns_only()),
            facts,
        ),
    decreases rules.len(),
{
    reveal(Seq::filter);
    let kept = |rule: AnyRule| !rule.is_dns_only();
    if rules.len() > 0 {
        let front = rules.drop_last();
        law_dns_only_rules_do_not_route_connections(front, facts);
        if kept(rules.last()) {
            assert(rules.filter(kept) == front.filter(kept).push(rules.last()));
            assert(front.filter(kept).push(rules.last()).drop_last() =~= front.filter(kept));
        } else {
            assert(rules.filter(kept) == front.filter(kept));
        }
    } else {
        assert(rules.filter(kept) =~= rules);
    }
}

/// Only rules by domain decide how names are resolved.
pub proof fn law_only_domain_rules_resolve_names(
    rules: Seq<AnyRule>,
    domain: Seq<char>,
    sites: Option<Sites>,
)
    ensures
        dns_routes(rules, domain, sites) == dns_routes(
            rules.filter(|rule: AnyRule| rule is Domain),
            domain,
            sites,
        ),
        dns_routes(rules, domain, sites).len() > 0,
{
    lemma_only_domain_rules(rules, domain, sites);
}

proof fn lemma_only_domain_rules(rules: Seq<AnyRule>, domain: Seq<char>, sites: Option<Sites>)
    ensures
        name_routes_by(rules, domain, sites) == name_routes_by(
            rules.filter(|rule: AnyRule| rule is Domain),
            domain,
            sites,
        ),
    decreases rules.len(),
{
    reveal(Seq::filter);
    let kept = |rule: AnyRule| rule is Domain;
    if rules.len() > 0 {
        let front = rules.drop_last();
        lemma_only_domain_rules(front, domain, sites);
        if kept(rules.last()) {
            assert(rules.filter(kept) == front.filter(kept).push(rules.last()));
            assert(front.filter(kept).push(rules.last()).drop_last() =~= front.filter(kept));
        } else {
            assert(rules.filter(kept) == front.filter(kept));
        }
    } else {
        assert(rules.filter(kept) =~= rules);
    }
}

/// Whether a rule can give a name a route to an exit. Only rules by domain can, those for name
/// resolution alone among them.
pub open spec fn gives_name_route(rule: AnyRule, facts: MatchFacts, exit: Exit) -> bool {
    rule is Domain && rule.outcome(facts) is Some && exit_views(rule.own_exits()).contains(exit)
}

/// Whether the rule at `index` gives a name a route, and no rule before it could.
pub open spec fn is_first_for_name(
    rules: Seq<AnyRule>,
    facts: MatchFacts,
    route: RouteModel,
    index: int,
) -> bool {
    &&& 0 <= index < rules.len()
    &&& gives_name_route(rules[index], facts, route.exit)
    &&& rules[index].outcome(facts) == Some(route.rule_kinds)
    &&& forall|i: int|
        0 <= i < index ==> !gives_name_route(#[trigger] rules[i], facts, route.exit)
}

proof fn lemma_name_routes(rules: Seq<AnyRule>, domain: Seq<char>, sites: Option<Sites>)
    ensures
        ({
            let facts = name_facts(domain, sites);
            let routes = name_routes_by(rules, domain, sites);
            &&& exits_differ(routes)
            &&& forall|i: int|
                0 <= i < routes.len() ==> (#[trigger] routes[i]).matched_address is None
                    && exists|index: int| #[trigger]
                    is_first_for_name(rules, facts, routes[i], index)
            &&& forall|i: int, j: int, a: int, b: int|
                0 <= i < j < routes.len() && #[trigger] is_first_for_name(
                    rules,
                    facts,
                    routes[i],
                    a,
                ) && #[trigger] is_first_for_name(rules, facts, routes[j], b) ==> a <= b
            &&& forall|index: int, exit: Exit|
                0 <= index < rules.len() && #[trigger] gives_name_route(rules[index], facts, exit)
                    ==> offers(routes, exit)
        }),
    decreases rules.len(),
{
    if rules.len() > 0 {
        let front = rules.drop_last();
        let rule = rules.last();
        let facts = name_facts(domain, sites);
        let before = name_routes_by(front, domain, sites);
        let all = name_routes_by(rules, domain, sites);
        let exits = exit_views(rule.own_exits());
        lemma_name_routes(front, domain, sites);
        assert forall|i: int| 0 <= i < front.len() implies front[i] == #[trigger] rules[i] by {}
        assert forall|route: RouteModel, index: int| #[trigger]
            is_first_for_name(front, facts, route, index) implies is_first_for_name(
            rules,
            facts,
            route,
            index,
        ) by {}
        if rule is Domain && rule.outcome(facts) is Some {
            let kinds = rule.outcome(facts)->Some_0;
            lemma_with_exits(before, exits, kinds, None);
            assert(all == with_exits(before, exits, kinds, None));
        } else {
            assert(all == before);
        }
        assert forall|i: int| 0 <= i < before.len() implies all[i] == #[trigger] before[i] by {}
        assert forall|i: int| before.len() <= i < all.len() implies is_first_for_name(
            rules,
            facts,
            #[trigger] all[i],
            rules.len() - 1,
        ) by {
            assert(!offers(before, all[i].exit));
            assert forall|k: int| 0 <= k < rules.len() - 1 implies !gives_name_route(
                #[trigger] rules[k],
                facts,
                all[i].exit,
            ) by {
                if gives_name_route(rules[k], facts, all[i].exit) {
                    assert(gives_name_route(front[k], facts, all[i].exit));
                }
            }
        }
        assert forall|i: int| 0 <= i < all.len() implies (#[trigger] all[i]).matched_address is None
            && exists|index: int| #[trigger]
            is_first_for_name(rules, facts, all[i], index) by {
            if i < before.len() {
                assert(all[i] == before[i]);
                let index = choose|index: int| #[trigger]
                    is_first_for_name(front, facts, before[i], index);
                assert(is_first_for_name(rules, facts, all[i], index));
            } else {
                assert(is_first_for_name(rules, facts, all[i], rules.len() - 1));
            }
        }
        assert forall|i: int, j: int, a: int, b: int|
            0 <= i < j < all.len() && #[trigger] is_first_for_name(rules, facts, all[i], a)
                && #[trigger] is_first_for_name(rules, facts, all[j], b) implies a <= b by {
            if j < before.len() {
                assert(all[i] == before[i] && all[j] == before[j]);
                let first = choose|index: int| #[trigger]
                    is_first_for_name(front, facts, before[i], index);
                let second = choose|index: int| #[trigger]
                    is_first_for_name(front, facts, before[j], index);
                lemma_first_for_name_is_one(rules, facts, all[i], first, a);
                lemma_first_for_name_is_one(rules, facts, all[j], second, b);
            } else {
                lemma_first_for_name_is_one(rules, facts, all[j], rules.len() - 1, b);
            }
        }
        assert forall|index: int, exit: Exit|
            0 <= index < rules.len() && #[trigger] gives_name_route(
                rules[index],
                facts,
                exit,
            ) implies offers(all, exit) by {
            if index < front.len() {
                assert(gives_name_route(front[index], facts, exit));
                assert(offers(before, exit));
                let i = choose|i: int| 0 <= i < before.len() && (#[trigger] before[i]).exit == exit;
                assert(all[i] == before[i]);
            }
        }
    }
}

proof fn lemma_first_for_name_is_one(
    rules: Seq<AnyRule>,
    facts: MatchFacts,
    route: RouteModel,
    a: int,
    b: int,
)
    requires
        is_first_for_name(rules, facts, route, a),
        is_first_for_name(rules, facts, route, b),
    ensures
        a == b,
{
    assert(gives_name_route(rules[a], facts, route.exit));
    assert(gives_name_route(rules[b], facts, route.exit));
}

/// A name to resolve always gets routes, each with another exit and none with an address.
pub proof fn law_name_routes_differ_and_have_no_address(
    rules: Seq<AnyRule>,
    domain: Seq<char>,
    sites: Option<Sites>,
)
    ensures
        dns_routes(rules, domain, sites).len() > 0,
        exits_differ(dns_routes(rules, domain, sites)),
        forall|i: int|
            0 <= i < dns_routes(rules, domain, sites).len() ==> (#[trigger] dns_routes(
                rules,
                domain,
                sites,
            )[i]).matched_address is None,
{
    lemma_name_routes(rules, domain, sites);
}

/// Whether one of the rules can give a name a route.
pub open spec fn some_gives_name_route(rules: Seq<AnyRule>, facts: MatchFacts) -> bool {
    exists|index: int, exit: Exit|
        0 <= index < rules.len() && #[trigger] gives_name_route(rules[index], facts, exit)
}

/// Whether a route of a name comes from the first rule that gives its exit.
pub open spec fn is_from_first_rule(
    rules: Seq<AnyRule>,
    facts: MatchFacts,
    route: RouteModel,
) -> bool {
    exists|index: int| #[trigger] is_first_for_name(rules, facts, route, index)
}

/// A name gets the exits of all rules by domain that match it, each from the first rule that gives
/// it, and the routes stand in the order of those rules, which is that of their priorities. Where
/// no such rule gives an exit, the name is resolved directly.
pub proof fn law_domain_rules_give_name_routes_in_order(
    rules: Seq<AnyRule>,
    domain: Seq<char>,
    sites: Option<Sites>,
)
    requires
        is_sorted(rules),
    ensures
        !some_gives_name_route(rules, name_facts(domain, sites)) ==> dns_routes(
            rules,
            domain,
            sites,
        ) == seq![fixed_route(Exit::Direct)],
        some_gives_name_route(rules, name_facts(domain, sites)) ==> forall|i: int|
            0 <= i < dns_routes(rules, domain, sites).len() ==> is_from_first_rule(
                rules,
                name_facts(domain, sites),
                #[trigger] dns_routes(rules, domain, sites)[i],
            ),
        some_gives_name_route(rules, name_facts(domain, sites)) ==> forall|
            i: int,
            j: int,
            a: int,
            b: int,
        |
            0 <= i < j < dns_routes(rules, domain, sites).len() && #[trigger] is_first_for_name(
                rules,
                name_facts(domain, sites),
                dns_routes(rules, domain, sites)[i],
                a,
            ) && #[trigger] is_first_for_name(
                rules,
                name_facts(domain, sites),
                dns_routes(rules, domain, sites)[j],
                b,
            ) ==> a <= b && rules[a].own_priority() <= rules[b].own_priority(),
        forall|index: int, exit: Exit|
            0 <= index < rules.len() && #[trigger] gives_name_route(
                rules[index],
                name_facts(domain, sites),
                exit,
            ) ==> offers(dns_routes(rules, domain, sites), exit),
{
    let facts = name_facts(domain, sites);
    let found = name_routes_by(rules, domain, sites);
    lemma_name_routes(rules, domain, sites);
    if some_gives_name_route(rules, facts) {
        let (index, exit) = choose|index: int, exit: Exit|
            0 <= index < rules.len() && #[trigger] gives_name_route(rules[index], facts, exit);
        assert(offers(found, exit));
        assert(dns_routes(rules, domain, sites) == found);
        assert forall|i: int| 0 <= i < found.len() implies is_from_first_rule(
            rules,
            facts,
            #[trigger] found[i],
        ) by {
            assert(found[i].matched_address is None);
        }
        assert forall|i: int, j: int, a: int, b: int|
            0 <= i < j < found.len() && #[trigger] is_first_for_name(rules, facts, found[i], a)
                && #[trigger] is_first_for_name(rules, facts, found[j], b) implies a <= b
            && rules[a].own_priority() <= rules[b].own_priority() by {
            if a < b {
                assert(rules[a].own_priority() <= rules[b].own_priority());
            }
        }
    } else if found.len() > 0 {
        assert(found[0].matched_address is None);
        let index = choose|index: int| #[trigger]
            is_first_for_name(rules, facts, found[0], index);
        assert(gives_name_route(rules[index], facts, found[0].exit));
    }
}

/// Names that differ only in the case of ASCII letters and in the dots at their ends get the same
/// routes.
pub proof fn law_names_alike_get_the_same_routes(
    rules: Seq<AnyRule>,
    sites: Option<Sites>,
    domain: Seq<char>,
    other: Seq<char>,
    dots: nat,
    other_dots: nat,
)
    requires
        lowered_text(domain) == lowered_text(other),
    ensures
        comparable(domain + end_dots(dots)) == comparable(other + end_dots(other_dots)),
        dns_routes(rules, comparable(domain + end_dots(dots)), sites) == dns_routes(
            rules,
            comparable(other + end_dots(other_dots)),
            sites,
        ),
{
    lemma_comparable_names(domain, other, dots, other_dots);
}

/// A rule that comes later adds its routes behind those of the rules before it: the order of the
/// routes is that of the rules.
pub proof fn law_later_rules_only_append(rules: Seq<AnyRule>, rule: AnyRule, facts: MatchFacts)
    ensures
        routes_by(rules, facts).is_prefix_of(routes_by(rules.push(rule), facts)),
        rule.is_dns_only() || rule.outcome(facts) is None ==> routes_by(rules.push(rule), facts)
            == routes_by(rules, facts),
{
    assert(rules.push(rule).drop_last() =~= rules);
    assert(rules.push(rule).last() == rule);
    let before = routes_by(rules, facts);
    if let Some(kinds) = rule.outcome(facts) {
        lemma_with_exits_appends(before, exit_views(rule.own_exits()), kinds, facts.address);
    }
}

proof fn lemma_with_exits_appends(
    routes: Seq<RouteModel>,
    exits: Seq<Exit>,
    kinds: Seq<RuleKind>,
    address: Option<SocketAddressModel>,
)
    ensures
        routes.is_prefix_of(with_exits(routes, exits, kinds, address)),
    decreases exits.len(),
{
    if exits.len() > 0 {
        lemma_with_exits_appends(routes, exits.drop_last(), kinds, address);
    }
}

/// The routes that exits give by a rule, in the order of the exits.
pub open spec fn routes_for(
    exits: Seq<Exit>,
    kinds: Seq<RuleKind>,
    address: Option<SocketAddressModel>,
) -> Seq<RouteModel> {
    exits.map_values(
        |exit: Exit| RouteModel { exit, rule_kinds: kinds, matched_address: address },
    )
}

proof fn lemma_new_exits(
    routes: Seq<RouteModel>,
    exits: Seq<Exit>,
    kinds: Seq<RuleKind>,
    address: Option<SocketAddressModel>,
)
    requires
        exits.no_duplicates(),
        forall|i: int| 0 <= i < exits.len() ==> !offers(routes, #[trigger] exits[i]),
    ensures
        with_exits(routes, exits, kinds, address) == routes + routes_for(exits, kinds, address),
    decreases exits.len(),
{
    if exits.len() == 0 {
        assert(routes + routes_for(exits, kinds, address) =~= routes);
    } else {
        let front = exits.drop_last();
        let last = exits.last();
        assert forall|i: int| 0 <= i < front.len() implies !offers(routes, #[trigger] front[i]) by {
            assert(front[i] == exits[i]);
        }
        lemma_new_exits(routes, front, kinds, address);
        let before = routes + routes_for(front, kinds, address);
        assert(!offers(before, last)) by {
            if offers(before, last) {
                let i = choose|i: int| 0 <= i < before.len() && (#[trigger] before[i]).exit == last;
                if i < routes.len() {
                    assert(routes[i].exit == last);
                    assert(offers(routes, exits[exits.len() - 1]));
                } else {
                    let at = i - routes.len();
                    assert(before[i] == routes_for(front, kinds, address)[at]);
                    assert(exits[at] == last);
                    assert(exits[exits.len() - 1] == last);
                }
            }
        }
        assert(with_exits(routes, exits, kinds, address) =~= routes + routes_for(
            exits,
            kinds,
            address,
        ));
    }
}

/// A matching rule whose exits are new gives a route for each of them, in their order, with the
/// kinds that it matched by and the address; a fallback does so only where nothing else did.
pub proof fn law_matching_rules_add_their_routes(
    rules: Seq<AnyRule>,
    rule: AnyRule,
    facts: MatchFacts,
    kinds: Seq<RuleKind>,
)
    requires
        !rule.is_dns_only(),
        rule.outcome(facts) == Some(kinds),
        exit_views(rule.own_exits()).no_duplicates(),
        forall|i: int|
            0 <= i < rule.own_exits().len() ==> !offers(
                routes_by(rules, facts),
                #[trigger] exit_views(rule.own_exits())[i],
            ),
    ensures
        !(rule is Fallback) ==> routes_by(rules.push(rule), facts) == routes_by(rules, facts)
            + routes_for(exit_views(rule.own_exits()), kinds, facts.address),
        rule is Fallback && routes_by(rules, facts).len() == 0 ==> routes_by(
            rules.push(rule),
            facts,
        ) == routes_for(exit_views(rule.own_exits()), kinds, facts.address),
        rule is Fallback && routes_by(rules, facts).len() > 0 ==> routes_by(rules.push(rule), facts)
            == routes_by(rules, facts),
{
    assert(rules.push(rule).drop_last() =~= rules);
    assert(rules.push(rule).last() == rule);
    let before = routes_by(rules, facts);
    lemma_new_exits(before, exit_views(rule.own_exits()), kinds, facts.address);
    if before.len() == 0 {
        assert(before + routes_for(exit_views(rule.own_exits()), kinds, facts.address)
            =~= routes_for(exit_views(rule.own_exits()), kinds, facts.address));
    }
}

/// A domain rule that matches a name adds its exits behind those before it, also where it is for
/// name resolution alone; no other rule adds any, and a name that no rule matches goes out
/// directly.
pub proof fn law_names_are_routed_by_domain_rules(
    rules: Seq<AnyRule>,
    rule: AnyRule,
    domain: Seq<char>,
    sites: Option<Sites>,
)
    ensures
        name_routes_by(rules, domain, sites).is_prefix_of(
            name_routes_by(rules.push(rule), domain, sites),
        ),
        !(rule is Domain) || rule.outcome(name_facts(domain, sites)) is None ==> name_routes_by(
            rules.push(rule),
            domain,
            sites,
        ) == name_routes_by(rules, domain, sites),
        rule is Domain && rule.outcome(name_facts(domain, sites)) is Some && rule.own_exits().len()
            > 0 ==> name_routes_by(rules.push(rule), domain, sites).len() > 0,
        name_routes_by(rules, domain, sites).len() > 0 ==> dns_routes(rules, domain, sites)
            == name_routes_by(rules, domain, sites),
        name_routes_by(rules, domain, sites).len() == 0 ==> dns_routes(rules, domain, sites).len()
            == 1 && dns_routes(rules, domain, sites)[0].exit == Exit::Direct && dns_routes(
            rules,
            domain,
            sites,
        )[0].matched_address is None,
{
    assert(rules.push(rule).drop_last() =~= rules);
    assert(rules.push(rule).last() == rule);
    let before = name_routes_by(rules, domain, sites);
    if let Some(kinds) = rule.outcome(name_facts(domain, sites)) {
        let exits = exit_views(rule.own_exits());
        lemma_with_exits_appends(before, exits, kinds, None);
        assert(exits.len() == rule.own_exits().len());
        assert(exits.len() > 0 ==> with_exits(before, exits, kinds, None).len() > 0);
    }
}

} // verus!
