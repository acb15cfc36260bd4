//! The configuration of rules.

use vstd::prelude::*;

use super::ip_net::IpNet;
use super::rule::{
    AddressRule, AndRule, AnyDomainMatcher, AnyRule, DomainRule, FallbackRule, GeoIpRule,
    ProtocolRule,
};
use crate::out::config::OutExitConfig;
use crate::primitives::route::OutExit;
use crate::sniff::SniffedProtocol;

verus! {

pub struct RouteConfig {
    pub rules: Vec<RouteRuleConfig>,
    /// The priority of rules that give none.
    pub priority: Option<i64>,
}

pub enum RouteRuleConfig {
    GeoIp(FullRuleConfig<GeoIpFilterConfig>),
    Address(FullRuleConfig<AddressFilterConfig>),
    Domain(FullRuleConfig<DomainFilterConfig>),
    Protocol(FullRuleConfig<ProtocolFilterConfig>),
    Fallback(FallbackRuleConfig),
    And(AndRuleConfig),
}

/// What a rule matches, and what every rule has.
pub struct FullRuleConfig<TFilter> {
    pub filter: TFilter,
    pub common: RuleCommonConfig,
}

pub struct RuleCommonConfig {
    pub priority: Option<i64>,
    pub exit: Vec<OutExitConfig>,
}

/// A rule that matches where all of its conditions do.
pub struct AndRuleConfig {
    pub conditions: Vec<RouteRuleFilterConfig>,
    pub priority: Option<i64>,
    pub exit: Vec<OutExitConfig>,
}

pub enum RouteRuleFilterConfig {
    GeoIp(GeoIpFilterConfig),
    Address(AddressFilterConfig),
    Domain(DomainFilterConfig),
    Protocol(ProtocolFilterConfig),
}

pub struct GeoIpFilterConfig {
    pub matches: Vec<String>,
    pub negate: bool,
}

pub struct AddressFilterConfig {
    pub match_ip: Option<Vec<IpNet>>,
    pub match_port: Option<Vec<u16>>,
    pub negate: bool,
}

pub struct DomainFilterConfig {
    pub matches: Vec<DomainMatcherConfig>,
    pub negate: bool,
    /// Whether the rule is for name resolution alone. It means nothing in a condition.
    pub dns_only: bool,
}

pub struct ProtocolFilterConfig {
    pub matches: Vec<SniffedProtocol>,
    pub negate: bool,
}

pub struct DomainMatcherConfig(pub AnyDomainMatcher);

impl From<DomainMatcherConfig> for AnyDomainMatcher {
    fn from(value: DomainMatcherConfig) -> (matcher: Self) {
        value.0
    }
}

impl vstd::std_specs::convert::FromSpecImpl<DomainMatcherConfig> for AnyDomainMatcher {
    open spec fn obeys_from_spec() -> bool {
        true
    }

    open spec fn from_spec(value: DomainMatcherConfig) -> AnyDomainMatcher {
        value.0
    }
}

pub struct FallbackRuleConfig {
    pub exit: Vec<OutExitConfig>,
}

/// The exits that a configuration names.
pub open spec fn configured_exits(exits: Seq<OutExitConfig>) -> Seq<OutExit> {
    exits.map_values(|exit: OutExitConfig| exit.0)
}

/// The matchers of a configuration.
pub open spec fn configured_matchers(matchers: Seq<DomainMatcherConfig>) -> Seq<AnyDomainMatcher> {
    matchers.map_values(|matcher: DomainMatcherConfig| matcher.0)
}

/// The given priority, or the default one.
pub open spec fn priority_or(priority: Option<i64>, default_priority: i64) -> i64 {
    match priority {
        Some(priority) => priority,
        None => default_priority,
    }
}

fn exits_of(configs: Vec<OutExitConfig>) -> (exits: Vec<OutExit>)
    ensures
        exits@ == configured_exits(configs@),
{
    let ghost all = configs@;
    let mut exits: Vec<OutExit> = Vec::new();
    for config in iter: configs
        invariant
            iter.seq() == all,
            exits@ =~= configured_exits(all.take(iter.index() as int)),
    {
        assert(all.take(iter.index() + 1) =~= all.take(iter.index() as int).push(config));
        exits.push(config.0);
    }
    assert(all.take(all.len() as int) =~= all);
    exits
}

fn matchers_of(configs: Vec<DomainMatcherConfig>) -> (matchers: Vec<AnyDomainMatcher>)
    ensures
        matchers@ == configured_matchers(configs@),
{
    let ghost all = configs@;
    let mut matchers: Vec<AnyDomainMatcher> = Vec::new();
    for config in iter: configs
        invariant
            iter.seq() == all,
            matchers@ =~= configured_matchers(all.take(iter.index() as int)),
    {
        assert(all.take(iter.index() + 1) =~= all.take(iter.index() as int).push(config));
        matchers.push(config.0);
    }
    assert(all.take(all.len() as int) =~= all);
    matchers
}

impl GeoIpFilterConfig {
    /// Whether a rule has this filter, a priority and exits.
    pub open spec fn gives(&self, priority: i64, exits: Seq<OutExit>, rule: AnyRule) -> bool {
        rule matches AnyRule::GeoIp(rule) && rule.matches == self.matches && rule.negate
            == self.negate && rule.priority == priority && rule.exits@ == exits
    }

    pub fn into_rule(self, priority: i64, exits: Vec<OutExit>) -> (rule: AnyRule)
        ensures
            self.gives(priority, exits@, rule),
    {
        AnyRule::GeoIp(
            GeoIpRule { matches: self.matches, priority, negate: self.negate, exits },
        )
    }
}

impl AddressFilterConfig {
    /// Whether a rule has this filter, a priority and exits.
    pub open spec fn gives(&self, priority: i64, exits: Seq<OutExit>, rule: AnyRule) -> bool {
        rule matches AnyRule::Address(rule) && rule.match_ips == self.match_ip && rule.match_ports
            == self.match_port && rule.negate == self.negate && rule.priority == priority
            && rule.exits@ == exits
    }

    pub fn into_rule(self, priority: i64, exits: Vec<OutExit>) -> (rule: AnyRule)
        ensures
            self.gives(priority, exits@, rule),
    {
        AnyRule::Address(
            AddressRule {
                match_ips: self.match_ip,
                match_ports: self.match_port,
                priority,
                negate: self.negate,
                exits,
            },
        )
    }
}

impl DomainFilterConfig {
    /// Whether a rule has this filter, a priority and exits.
    pub open spec fn gives(&self, priority: i64, exits: Seq<OutExit>, rule: AnyRule) -> bool {
        rule matches AnyRule::Domain(rule) && rule.matchers@ == configured_matchers(self.matches@)
            && rule.negate == self.negate && rule.dns_only == self.dns_only && rule.priority
            == priority && rule.exits@ == exits
    }

    pub fn into_rule(self, priority: i64, exits: Vec<OutExit>) -> (rule: AnyRule)
        ensures
            self.gives(priority, exits@, rule),
    {
        AnyRule::Domain(
            DomainRule {
                matchers: matchers_of(self.matches),
                priority,
                negate: self.negate,
                exits,
                dns_only: self.dns_only,
            },
        )
    }
}

impl ProtocolFilterConfig {
    /// Whether a rule has this filter, a priority and exits.
    pub open spec fn gives(&self, priority: i64, exits: Seq<OutExit>, rule: AnyRule) -> bool {
        rule matches AnyRule::Protocol(rule) && rule.matches == self.matches && rule.negate
            == self.negate && rule.priority == priority && rule.exits@ == exits
    }

    pub fn into_rule(self, priority: i64, exits: Vec<OutExit>) -> (rule: AnyRule)
        ensures
            self.gives(priority, exits@, rule),
    {
        AnyRule::Protocol(
            ProtocolRule { matches: self.matches, priority, negate: self.negate, exits },
        )
    }
}

impl RouteRuleFilterConfig {
    /// Whether a rule is this condition. It has no exits and no priority of its own.
    pub open spec fn gives(&self, rule: AnyRule) -> bool {
        match self {
            RouteRuleFilterConfig::GeoIp(filter) => filter.gives(i64::MAX, Seq::empty(), rule),
            RouteRuleFilterConfig::Address(filter) => filter.gives(i64::MAX, Seq::empty(), rule),
            RouteRuleFilterConfig::Domain(filter) => filter.gives(i64::MAX, Seq::empty(), rule),
            RouteRuleFilterConfig::Protocol(filter) => filter.gives(i64::MAX, Seq::empty(), rule),
        }
    }

    /// The condition as a rule, which only matches: priority and exits are those of the rule that
    /// it is part of.
    pub fn into_condition_rule(self) -> (rule: AnyRule)
        ensures
            self.gives(rule),
    {
        match self {
            RouteRuleFilterConfig::GeoIp(filter) => filter.into_rule(i64::MAX, Vec::new()),
            RouteRuleFilterConfig::Address(filter) => filter.into_rule(i64::MAX, Vec::new()),
            RouteRuleFilterConfig::Domain(filter) => filter.into_rule(i64::MAX, Vec::new()),
            RouteRuleFilterConfig::Protocol(filter) => filter.into_rule(i64::MAX, Vec::new()),
        }
    }
}

/// Whether rules are these conditions, in their order.
pub open spec fn conditions_give(
    conditions: Seq<RouteRuleFilterConfig>,
    rules: Seq<AnyRule>,
) -> bool {
    rules.len() == conditions.len() && forall|i: int|
        0 <= i < rules.len() ==> #[trigger] conditions[i].gives(rules[i])
}

impl RouteRuleConfig {
    /// Whether a rule is what this configuration asks for.
    pub open spec fn gives(&self, default_priority: i64, rule: AnyRule) -> bool {
        match self {
            RouteRuleConfig::GeoIp(config) => config.filter.gives(
                priority_or(config.common.priority, default_priority),
                configured_exits(config.common.exit@),
                rule,
            ),
            RouteRuleConfig::Address(config) => config.filter.gives(
                priority_or(config.common.priority, default_priority),
                configured_exits(config.common.exit@),
                rule,
            ),
            RouteRuleConfig::Domain(config) => config.filter.gives(
                priority_or(config.common.priority, default_priority),
                configured_exits(config.common.exit@),
                rule,
            ),
            RouteRuleConfig::Protocol(config) => config.filter.gives(
                priority_or(config.common.priority, default_priority),
                configured_exits(config.common.exit@),
                rule,
            ),
            RouteRuleConfig::Fallback(config) => rule matches AnyRule::Fallback(rule)
                && rule.exits@ == configured_exits(config.exit@),
            RouteRuleConfig::And(config) => rule matches AnyRule::And(rule) && conditions_give(
                config.conditions@,
                rule.rules@,
            ) && rule.priority == priority_or(config.priority, default_priority) && rule.exits@
                == configured_exits(config.exit@),
        }
    }

    /// The rule that the configuration asks for.
    pub fn into_rule(self, priority_default: i64) -> (rule: AnyRule)
        ensures
            self.gives(priority_default, rule),
    {
        match self {
            RouteRuleConfig::GeoIp(config) => config.filter.into_rule(
                config.common.priority.unwrap_or(priority_default),
                exits_of(config.common.exit),
            ),
            RouteRuleConfig::Address(config) => config.filter.into_rule(
                config.common.priority.unwrap_or(priority_default),
                exits_of(config.common.exit),
            ),
            RouteRuleConfig::Domain(config) => config.filter.into_rule(
                config.common.priority.unwrap_or(priority_default),
                exits_of(config.common.exit),
            ),
            RouteRuleConfig::Protocol(config) => config.filter.into_rule(
                config.common.priority.unwrap_or(priority_default),
                exits_of(config.common.exit),
            ),
            RouteRuleConfig::Fallback(config) => AnyRule::Fallback(
                FallbackRule { exits: exits_of(config.exit) },
            ),
            RouteRuleConfig::And(config) => {
                let ghost all = config.conditions@;
                let mut rules: Vec<AnyRule> = Vec::new();
                for condition in iter: config.conditions
                    invariant
                        iter.seq() == all,
                        conditions_give(all.take(iter.index() as int), rules@),
                {
                    let ghost before = rules@;
                    let ghost taken = all.take(iter.index() as int);
                    proof {
                        assert(all.take(iter.index() + 1) =~= taken.push(condition));
                    }
                    rules.push(condition.into_condition_rule());
                    assert forall|i: int| 0 <= i < rules@.len() implies #[trigger] taken.push(
                        condition,
                    )[i].gives(rules@[i]) by {
                        if i < before.len() {
                            assert(taken[i].gives(before[i]));
                        }
                    }
                }
                assert(all.take(all.len() as int) =~= all);
                AnyRule::And(
                    AndRule {
                        rules,
                        priority: config.priority.unwrap_or(priority_default),
                        exits: exits_of(config.exit),
                    },
                )
            },
        }
    }
}

/// Whether rules are what the configurations ask for, in their order.
pub open spec fn configs_give(
    configs: Seq<RouteRuleConfig>,
    default_priority: i64,
    rules: Seq<AnyRule>,
) -> bool {
    rules.len() == configs.len() && forall|i: int|
        0 <= i < rules.len() ==> #[trigger] configs[i].gives(default_priority, rules[i])
}

impl RouteConfig {
    /// The rules that the configuration asks for. Rules without any priority come last.
    pub fn into_rules(self) -> (rules: Vec<AnyRule>)
        ensures
            configs_give(self.rules@, priority_or(self.priority, i64::MAX), rules@),
    {
        let priority: i64 = self.priority.unwrap_or(i64::MAX);
        let ghost all = self.rules@;
        let mut rules: Vec<AnyRule> = Vec::new();
        for config in iter: self.rules
            invariant
                iter.seq() == all,
                configs_give(all.take(iter.index() as int), priority, rules@),
        {
            let ghost before = rules@;
            let ghost taken = all.take(iter.index() as int);
            proof {
                assert(all.take(iter.index() + 1) =~= taken.push(config));
            }
            rules.push(config.into_rule(priority));
            assert forall|i: int| 0 <= i < rules@.len() implies #[trigger] taken.push(
                config,
            )[i].gives(priority, rules@[i]) by {
                if i < before.len() {
                    assert(taken[i].gives(priority, before[i]));
                }
            }
        }
        assert(all.take(all.len() as int) =~= all);
        rules
    }
}

/// A rule is what its configuration says: with its own priority where it has one, else with the
/// default, with the exits in their order, and negated where it says so.
pub proof fn law_rules_follow_their_configuration(
    config: RouteRuleConfig,
    default_priority: i64,
    rule: AnyRule,
)
    requires
        call_ensures(RouteRuleConfig::into_rule, (config, default_priority), rule),
    ensures
        config matches RouteRuleConfig::Domain(full) ==> (rule matches AnyRule::Domain(made)
            && made.negate == full.filter.negate && made.dns_only == full.filter.dns_only
            && made.matchers@.len() == full.filter.matches@.len() && (forall|i: int|
            0 <= i < made.matchers@.len() ==> #[trigger] made.matchers@[i]
                == full.filter.matches@[i].0) && (full.common.priority is None ==> made.priority
            == default_priority) && (full.common.priority is Some ==> made.priority
            == full.common.priority->Some_0)),
        config matches RouteRuleConfig::GeoIp(full) ==> (rule matches AnyRule::GeoIp(made)
            && made.negate == full.filter.negate && made.matches == full.filter.matches && (
        full.common.priority is None ==> made.priority == default_priority) && (
        full.common.priority is Some ==> made.priority == full.common.priority->Some_0)),
        config matches RouteRuleConfig::Address(full) ==> (rule matches AnyRule::Address(made)
            && made.negate == full.filter.negate && made.match_ips == full.filter.match_ip
            && made.match_ports == full.filter.match_port && (full.common.priority is None
            ==> made.priority == default_priority) && (full.common.priority is Some
            ==> made.priority == full.common.priority->Some_0)),
        config matches RouteRuleConfig::Protocol(full) ==> (rule matches AnyRule::Protocol(made)
            && made.negate == full.filter.negate && made.matches == full.filter.matches && (
        full.common.priority is None ==> made.priority == default_priority) && (
        full.common.priority is Some ==> made.priority == full.common.priority->Some_0)),
        config is Fallback ==> rule is Fallback,
        config matches RouteRuleConfig::And(full) ==> (rule matches AnyRule::And(made)
            && made.rules@.len() == full.conditions@.len() && (full.priority is None
            ==> made.priority == default_priority) && (full.priority is Some ==> made.priority
            == full.priority->Some_0)),
{
}

/// The exits of a rule are the configured ones, in their order.
pub proof fn law_rules_have_the_configured_exits(
    config: RouteRuleConfig,
    default_priority: i64,
    rule: AnyRule,
    exits: Seq<OutExitConfig>,
)
    requires
        call_ensures(RouteRuleConfig::into_rule, (config, default_priority), rule),
        exits == (match config {
            RouteRuleConfig::GeoIp(full) => full.common.exit@,
            RouteRuleConfig::Address(full) => full.common.exit@,
            RouteRuleConfig::Domain(full) => full.common.exit@,
            RouteRuleConfig::Protocol(full) => full.common.exit@,
            RouteRuleConfig::Fallback(full) => full.exit@,
            RouteRuleConfig::And(full) => full.exit@,
        }),
    ensures
        rule.own_exits().len() == exits.len(),
        forall|i: int|
            0 <= i < exits.len() ==> #[trigger] rule.own_exits()[i] == exits[i].0,
{
}

} // verus!
