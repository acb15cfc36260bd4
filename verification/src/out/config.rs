//! The configuration of an OUT node.

use vstd::prelude::*;

use super::dispatcher::{
    bound_exits, default_exits, valid_interface, DefaultLocalExit, DispatcherModel,
    LocalOutDispatcher,
};
use super::node::OutHubOptions;
use crate::address::SocketAddress;
use crate::primitives::route::{exit_named, Exit, OutExit, OutExitTag};

verus! {

/// The connections to the hub where the configuration gives no number.
pub const DEFAULT_HUB_CONNECTIONS: usize = 4;

#[derive(Debug, PartialEq, Eq)]
pub struct OutHubConfig {
    pub address: SocketAddress,
    pub connections: Option<usize>,
}

impl From<OutHubConfig> for OutHubOptions {
    fn from(config: OutHubConfig) -> (options: Self) {
        OutHubOptions {
            address: config.address,
            connections: match config.connections {
                Some(connections) => connections,
                None => DEFAULT_HUB_CONNECTIONS,
            },
        }
    }
}

impl vstd::std_specs::convert::FromSpecImpl<OutHubConfig> for OutHubOptions {
    open spec fn obeys_from_spec() -> bool {
        true
    }

    open spec fn from_spec(config: OutHubConfig) -> OutHubOptions {
        OutHubOptions {
            address: config.address,
            connections: match config.connections {
                Some(connections) => connections,
                None => DEFAULT_HUB_CONNECTIONS,
            },
        }
    }
}

#[derive(Debug, PartialEq, Eq)]
pub struct OutConfig {
    pub hub: OutHubConfig,
    pub exits: Vec<ExitConfig>,
}

#[derive(Debug, PartialEq, Eq)]
pub enum ExitConfig {
    Local(LocalExitConfig),
}

#[derive(Debug, PartialEq, Eq)]
pub struct LocalExitConfig {
    pub tags: Vec<OutExitTag>,
    pub bind: Option<LocalExitBindConfig>,
}

#[derive(Debug, PartialEq, Eq)]
pub struct LocalExitBindConfig {
    pub interface: Option<String>,
}

impl LocalExitConfig {
    /// The interface that the exit is bound to.
    pub open spec fn bound_interface(&self) -> Option<String> {
        match self.bind {
            Some(bind) => bind.interface,
            None => None,
        }
    }
}

/// Why a list of exits cannot be used.
#[derive(Debug, PartialEq, Eq)]
pub enum DispatcherError {
    /// No interface can have this name.
    InvalidInterface(String),
    /// Only one exit can be the default one.
    MultipleDefaults,
}

/// The mathematical form of a `DispatcherError`.
pub enum DispatcherFault {
    InvalidInterface(Seq<char>),
    MultipleDefaults,
}

impl View for DispatcherError {
    type V = DispatcherFault;

    open spec fn view(&self) -> DispatcherFault {
        match self {
            DispatcherError::InvalidInterface(name) => DispatcherFault::InvalidInterface(name@),
            DispatcherError::MultipleDefaults => DispatcherFault::MultipleDefaults,
        }
    }
}

/// The default exit and the bound dispatchers that configurations ask for, up to the first that
/// is wrong.
pub open spec fn planned_exits(configs: Seq<ExitConfig>) -> Result<
    (Option<Vec<OutExitTag>>, Seq<DispatcherModel>),
    DispatcherFault,
>
    decreases configs.len(),
{
    if configs.len() == 0 {
        Ok((None, Seq::empty()))
    } else {
        match planned_exits(configs.drop_last()) {
            Err(fault) => Err(fault),
            Ok((default, bound)) => match configs.last() {
                ExitConfig::Local(config) => match config.bound_interface() {
                    Some(name) => if valid_interface(vstd::utf8::encode_utf8(name@)) {
                        Ok(
                            (
                                default,
                                bound.push(
                                    DispatcherModel {
                                        exits: bound_exits(config.tags@),
                                        interface: Some(name@),
                                    },
                                ),
                            ),
                        )
                    } else {
                        Err(DispatcherFault::InvalidInterface(name@))
                    },
                    None => if default is Some {
                        Err(DispatcherFault::MultipleDefaults)
                    } else {
                        Ok((Some(config.tags), bound))
                    },
                },
            },
        }
    }
}

/// What the default exit is for: others may use it only where it is configured.
pub open spec fn default_exit(tags: Option<Vec<OutExitTag>>) -> DefaultLocalExit {
    match tags {
        Some(tags) => DefaultLocalExit::Advertised { tags },
        None => DefaultLocalExit::Private,
    }
}

/// The views of dispatchers.
pub open spec fn dispatcher_views(dispatchers: Seq<LocalOutDispatcher>) -> Seq<DispatcherModel> {
    dispatchers.map_values(|dispatcher: LocalOutDispatcher| dispatcher@)
}

proof fn lemma_fault_persists(configs: Seq<ExitConfig>, length: int)
    requires
        0 <= length <= configs.len(),
        planned_exits(configs.take(length)) is Err,
    ensures
        planned_exits(configs) == planned_exits(configs.take(length)),
    decreases configs.len() - length,
{
    if length < configs.len() {
        assert(configs.take(length + 1).drop_last() =~= configs.take(length));
        lemma_fault_persists(configs, length + 1);
    } else {
        assert(configs.take(length) =~= configs);
    }
}

/// The dispatchers of a node: the default one first, then one for each exit that is bound to an
/// interface, in their order.
pub fn build_local_out_dispatchers(exit_configs: Vec<ExitConfig>) -> (result: Result<
    Vec<LocalOutDispatcher>,
    DispatcherError,
>)
    ensures
        match planned_exits(exit_configs@) {
            Ok((default, bound)) => result matches Ok(dispatchers) && dispatcher_views(dispatchers@)
                == seq![
                DispatcherModel { exits: default_exits(default_exit(default)), interface: None },
            ] + bound,
            Err(fault) => result matches Err(error) && error@ == fault,
        },
{
    let mut default_tags: Option<Vec<OutExitTag>> = None;
    let mut bound: Vec<LocalOutDispatcher> = Vec::new();
    let ghost all = exit_configs@;
    proof {
        assert(all.take(0) =~= Seq::empty());
        assert(dispatcher_views(bound@) =~= Seq::empty());
    }
    for exit_config in iter: exit_configs
        invariant
            iter.seq() == all,
            planned_exits(all.take(iter.index() as int)) == Ok::<_, DispatcherFault>(
                (default_tags, dispatcher_views(bound@)),
            ),
    {
        let ghost index = iter.index() as int;
        proof {
            assert(all.take(index + 1).drop_last() =~= all.take(index));
            assert(all.take(index + 1).last() == exit_config);
        }
        match exit_config {
            ExitConfig::Local(config) => {
                let interface = match config.bind {
                    Some(bind) => bind.interface,
                    None => None,
                };
                match interface {
                    Some(name) => {
                        let ghost before = bound@;
                        match LocalOutDispatcher::new_bound(config.tags, name.clone()) {
                            Some(dispatcher) => {
                                let ghost model = dispatcher@;
                                bound.push(dispatcher);
                                assert(dispatcher_views(bound@) =~= dispatcher_views(before).push(
                                    model,
                                ));
                            },
                            None => {
                                proof {
                                    lemma_fault_persists(all, index + 1);
                                }
                                return Err(DispatcherError::InvalidInterface(name));
                            },
                        }
                    },
                    None => {
                        if default_tags.is_some() {
                            proof {
                                lemma_fault_persists(all, index + 1);
                            }
                            return Err(DispatcherError::MultipleDefaults);
                        }
                        default_tags = Some(config.tags);
                    },
                }
            },
        }
    }
    assert(all.take(all.len() as int) =~= all);
    let ghost planned = default_tags;
    let exit = match default_tags {
        Some(tags) => DefaultLocalExit::Advertised { tags },
        None => DefaultLocalExit::Private,
    };
    let default_dispatcher = LocalOutDispatcher::new_default(exit);
    let ghost first = default_dispatcher@;
    let ghost rest = dispatcher_views(bound@);
    let mut dispatchers: Vec<LocalOutDispatcher> = vec![default_dispatcher];
    dispatchers.append(&mut bound);
    assert(dispatcher_views(dispatchers@) =~= seq![first] + rest);
    Ok(dispatchers)
}

/// An exit as a configuration names it.
#[derive(Debug, PartialEq, Eq)]
pub struct OutExitConfig(pub OutExit);

impl OutExitConfig {
    pub fn named(text: &str) -> (config: Self)
        ensures
            config.0@ == exit_named(text@),
    {
        OutExitConfig(OutExit::named(text))
    }
}

impl From<OutExitConfig> for OutExit {
    fn from(value: OutExitConfig) -> (exit: Self) {
        value.0
    }
}

impl vstd::std_specs::convert::FromSpecImpl<OutExitConfig> for OutExit {
    open spec fn obeys_from_spec() -> bool {
        true
    }

    open spec fn from_spec(value: OutExitConfig) -> OutExit {
        value.0
    }
}

/// The number of connections to a hub is the configured one, four where none is.
pub proof fn law_hubs_have_four_connections_by_default(config: OutHubConfig, options: OutHubOptions)
    requires
        call_ensures(
            <OutHubOptions as From<OutHubConfig>>::from,
            (config,),
            options,
        ),
    ensures
        options.address == config.address,
        config.connections is None ==> options.connections == 4,
        config.connections matches Some(connections) ==> options.connections == connections,
{
}

/// At most one exit may be without an interface, and every interface must have a valid name. Then
/// each bound exit has a dispatcher of its own, in their order, and the one without an interface
/// gives the default dispatcher its tags.
pub proof fn law_exits_become_dispatchers(configs: Seq<ExitConfig>, i: int, j: int)
    ensures
        0 <= i < j < configs.len() && configs[i]->Local_0.bound_interface() is None
            && configs[j]->Local_0.bound_interface() is None ==> planned_exits(configs) is Err,
        0 <= i < configs.len() && configs[i]->Local_0.bound_interface() is Some && !valid_interface(
            vstd::utf8::encode_utf8(configs[i]->Local_0.bound_interface()->Some_0@),
        ) ==> planned_exits(configs) is Err,
        planned_exits(configs) is Ok && 0 <= i < configs.len()
            && configs[i]->Local_0.bound_interface() is None ==> planned_exits(configs)->Ok_0.0
            == Some(configs[i]->Local_0.tags),
        planned_exits(configs) is Ok && 0 <= i < configs.len()
            && configs[i]->Local_0.bound_interface() is Some ==> exists|k: int|
            0 <= k < planned_exits(configs)->Ok_0.1.len() && (#[trigger] planned_exits(
                configs,
            )->Ok_0.1[k]).interface == Some(configs[i]->Local_0.bound_interface()->Some_0@)
                && planned_exits(configs)->Ok_0.1[k].exits == bound_exits(
                configs[i]->Local_0.tags@,
            ),
        planned_exits(configs) is Ok && (forall|k: int|
            0 <= k < configs.len() ==> (#[trigger] configs[k])->Local_0.bound_interface() is Some)
            ==> planned_exits(configs)->Ok_0.0 is None && planned_exits(configs)->Ok_0.1.len()
            == configs.len(),
    decreases configs.len(),
{
    if configs.len() > 0 {
        let front = configs.drop_last();
        law_exits_become_dispatchers(front, i, j);
        if 0 <= i < front.len() {
            assert(front[i] == configs[i]);
            law_exits_become_dispatchers(front, i, i);
        }
        if 0 <= j < front.len() {
            assert(front[j] == configs[j]);
        }
        if forall|k: int|
            0 <= k < configs.len() ==> (#[trigger] configs[k])->Local_0.bound_interface() is Some {
            assert forall|k: int| 0 <= k < front.len() implies (
            #[trigger] front[k])->Local_0.bound_interface() is Some by {
                assert(front[k] == configs[k]);
            }
            assert(configs[configs.len() - 1]->Local_0.bound_interface() is Some);
        }
        if planned_exits(configs) is Ok && 0 <= i < configs.len()
            && configs[i]->Local_0.bound_interface() is Some {
            let all = planned_exits(configs)->Ok_0.1;
            let before = planned_exits(front)->Ok_0.1;
            if i < front.len() {
                let k = choose|k: int|
                    0 <= k < before.len() && (#[trigger] before[k]).interface == Some(
                        configs[i]->Local_0.bound_interface()->Some_0@,
                    ) && before[k].exits == bound_exits(configs[i]->Local_0.tags@);
                assert(all[k] == before[k]);
            } else {
                assert(all[before.len() as int].interface == Some(
                    configs[i]->Local_0.bound_interface()->Some_0@,
                ));
            }
        }
    }
}

/// The default dispatcher comes first and has no interface; without a configuration for it the
/// node keeps it to itself.
pub proof fn law_default_dispatcher_comes_first(
    configs: Vec<ExitConfig>,
    result: Result<Vec<LocalOutDispatcher>, DispatcherError>,
)
    requires
        call_ensures(build_local_out_dispatchers, (configs,), result),
    ensures
        result is Ok <==> planned_exits(configs@) is Ok,
        result matches Ok(dispatchers) ==> dispatchers@.len() > 0 && dispatchers@[0]@.interface
            is None && dispatchers@.len() == planned_exits(configs@)->Ok_0.1.len() + 1,
        result matches Ok(dispatchers) && planned_exits(configs@)->Ok_0.0 is None
            ==> result->Ok_0@[0]@.exits == seq![Exit::Direct],
{
    if let Ok(dispatchers) = result {
        let views = dispatcher_views(dispatchers@);
        assert(views.len() == dispatchers@.len());
        assert(views[0] == dispatchers@[0]@);
    }
}

} // verus!
