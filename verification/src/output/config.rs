//! The outputs of a node and their tags.

use vstd::prelude::*;

use super::local::{InterfaceAddress, LocalIpOrInterface, LocalOutput};
use super::socks5::Socks5Output;
use crate::address::{unscoped, IpAddress, SocketAddress};
use crate::assoc::AssocMap;

verus! {

/// SOCKS5 authentication.
#[derive(Clone, Debug, PartialEq, Eq)]
pub struct Socks5AuthConfig {
    pub username: String,
    pub password: String,
}

/// An output of this machine, bound to an address or an interface or not.
#[derive(Clone, Debug, PartialEq, Eq)]
pub struct LocalOutputConfig {
    pub tag: String,
    pub bind: Option<LocalIpOrInterface>,
}

/// An output through another SOCKS5 proxy.
#[derive(Clone, Debug, PartialEq, Eq)]
pub struct Socks5OutputConfig {
    pub tag: String,
    pub address: SocketAddress,
    pub auth: Option<Socks5AuthConfig>,
}

#[derive(Clone, Debug, PartialEq, Eq)]
pub enum OutputConfig {
    Local(LocalOutputConfig),
    Socks5(Socks5OutputConfig),
}

/// The output of a node that has none for a tag.
#[derive(Clone, Copy, Debug, PartialEq, Eq, Structural)]
pub struct DirectOutput;

/// What an output does.
pub enum OutputPlan {
    Direct(DirectOutput),
    Local(LocalOutput),
    Socks5(Socks5Output),
}

/// The proxy that is used where the configuration names none.
pub fn default_socks5_address() -> (address: SocketAddress)
    ensures
        address@ == unscoped((seq![127u8, 0u8, 0u8, 1u8], 1080u16)),
{
    let address = SocketAddress::new(IpAddress::V4([127, 0, 0, 1]), 1080);
    assert(address@.ip =~= seq![127u8, 0u8, 0u8, 1u8]);
    address
}

impl OutputConfig {
    pub open spec fn tag_text(&self) -> Seq<char> {
        match self {
            OutputConfig::Local(config) => config.tag@,
            OutputConfig::Socks5(config) => config.tag@,
        }
    }

    /// What the output does on a machine with these interfaces.
    pub open spec fn planned(self, interfaces: Seq<InterfaceAddress>) -> OutputPlan {
        match self {
            OutputConfig::Local(config) => OutputPlan::Local(
                LocalOutput { bind_addr: LocalOutput::bound_to(config.bind, interfaces) },
            ),
            OutputConfig::Socks5(config) => OutputPlan::Socks5(
                Socks5Output {
                    proxy_addr: config.address,
                    auth: match config.auth {
                        Some(auth) => Some((auth.username, auth.password)),
                        None => None,
                    },
                },
            ),
        }
    }

    pub fn tag(&self) -> (tag: &str)
        ensures
            tag@ == self.tag_text(),
    {
        match self {
            OutputConfig::Local(config) => config.tag.as_str(),
            OutputConfig::Socks5(config) => config.tag.as_str(),
        }
    }

    /// What the output does on a machine with these interfaces.
    pub fn into_output(self, interfaces: &Vec<InterfaceAddress>) -> (plan: OutputPlan)
        ensures
            plan == self.planned(interfaces@),
    {
        match self {
            OutputConfig::Local(config) => OutputPlan::Local(
                LocalOutput::new(config.bind, interfaces),
            ),
            OutputConfig::Socks5(config) => {
                let output = Socks5Output::new(config.address);
                match config.auth {
                    Some(auth) => OutputPlan::Socks5(output.with_auth(auth.username, auth.password)),
                    None => OutputPlan::Socks5(output),
                }
            },
        }
    }
}

/// The outputs that configurations name: the last one with a tag counts.
pub open spec fn planned_outputs(
    configs: Seq<OutputConfig>,
    interfaces: Seq<InterfaceAddress>,
) -> Map<Seq<char>, OutputPlan>
    decreases configs.len(),
{
    if configs.len() == 0 {
        Map::empty()
    } else {
        planned_outputs(configs.drop_last(), interfaces).insert(
            configs.last().tag_text(),
            configs.last().planned(interfaces),
        )
    }
}

/// The outputs by their tags.
pub struct OutputMap {
    outputs: AssocMap<String, OutputPlan>,
    direct: OutputPlan,
}

impl View for OutputMap {
    type V = Map<Seq<char>, OutputPlan>;

    closed spec fn view(&self) -> Map<Seq<char>, OutputPlan> {
        self.outputs@
    }
}

impl Default for OutputMap {
    fn default() -> (map: Self)
        ensures
            map.wf(),
            map@ == Map::<Seq<char>, OutputPlan>::empty(),
    {
        OutputMap::new()
    }
}

impl OutputMap {
    pub closed spec fn wf(&self) -> bool {
        self.outputs.wf() && self.direct == OutputPlan::Direct(DirectOutput)
    }

    /// A map without outputs: everything leaves directly.
    pub fn new() -> (map: Self)
        ensures
            map.wf(),
            map@ == Map::<Seq<char>, OutputPlan>::empty(),
    {
        OutputMap { outputs: AssocMap::new(), direct: OutputPlan::Direct(DirectOutput) }
    }

    /// The outputs that configurations name, on a machine with these interfaces.
    pub fn from_configs(configs: Vec<OutputConfig>, interfaces: &Vec<InterfaceAddress>) -> (map: Self)
        ensures
            map.wf(),
            map@ == planned_outputs(configs@, interfaces@),
    {
        let mut map = OutputMap::new();
        let ghost all = configs@;
        assert(all.take(0) =~= Seq::empty());
        for config in iter: configs
            invariant
                iter.seq() == all,
                map.wf(),
                map@ == planned_outputs(all.take(iter.index() as int), interfaces@),
        {
            proof {
                let index = iter.index() as int;
                assert(all.take(index + 1).drop_last() =~= all.take(index));
                assert(all.take(index + 1).last() == config);
            }
            let tag = config.tag().to_owned();
            let plan = config.into_output(interfaces);
            map.outputs.insert(tag, plan);
        }
        assert(all.take(all.len() as int) =~= all);
        map
    }

    /// The output of a tag. Without a tag, or for an unknown one, traffic leaves directly.
    pub fn get(&self, tag: Option<&str>) -> (plan: &OutputPlan)
        requires
            self.wf(),
        ensures
            *plan == match tag {
                Some(tag) => if self@.contains_key(tag@) {
                    self@[tag@]
                } else {
                    OutputPlan::Direct(DirectOutput)
                },
                None => OutputPlan::Direct(DirectOutput),
            },
    {
        match tag {
            Some(tag) => match self.outputs.get(&tag.to_owned()) {
                Some(plan) => plan,
                None => &self.direct,
            },
            None => &self.direct,
        }
    }

    pub fn has(&self, tag: &str) -> (result: bool)
        requires
            self.wf(),
        ensures
            result == self@.contains_key(tag@),
    {
        self.outputs.contains(&tag.to_owned())
    }

    /// The tags that have an output, each once.
    pub fn tags(&self) -> (tags: Vec<&str>)
        requires
            self.wf(),
        ensures
            forall|tag: Seq<char>| #[trigger]
                self@.contains_key(tag) <==> exists|i: int|
                    0 <= i < tags@.len() && (#[trigger] tags@[i])@ == tag,
            forall|i: int, j: int|
                0 <= i < j < tags@.len() ==> (#[trigger] tags@[i])@ != (#[trigger] tags@[j])@,
    {
        let mut tags: Vec<&str> = Vec::new();
        let count: usize = self.outputs.len();
        let ghost entries = self.outputs.entry_list();
        proof {
            self.outputs.lemma_entry_list();
        }
        let mut index: usize = 0;
        while index < count
            invariant
                self.outputs.wf(),
                entries == self.outputs.entry_list(),
                index <= count == entries.len(),
                tags@.len() == index,
                forall|i: int| 0 <= i < index ==> (#[trigger] tags@[i])@ == entries[i].0@,
            decreases count - index,
        {
            let (tag, _) = self.outputs.entry(index);
            tags.push(tag.as_str());
            index += 1;
        }
        proof {
            assert forall|tag: Seq<char>| #[trigger] self@.contains_key(tag) <==> exists|i: int|
                0 <= i < tags@.len() && (#[trigger] tags@[i])@ == tag by {
                if self@.contains_key(tag) {
                    let i = choose|i: int|
                        0 <= i < entries.len() && (#[trigger] entries[i]).0@ == tag;
                    assert(tags@[i]@ == tag);
                }
                if exists|i: int| 0 <= i < tags@.len() && (#[trigger] tags@[i])@ == tag {
                    let i = choose|i: int| 0 <= i < tags@.len() && (#[trigger] tags@[i])@ == tag;
                    assert(entries[i].0@ == tag);
                }
            }
            assert forall|i: int, j: int| 0 <= i < j < tags@.len() implies (#[trigger] tags@[i])@
                != (#[trigger] tags@[j])@ by {
                assert(entries[i].0@ != entries[j].0@);
            }
        }
        tags
    }
}

/// A tag stands for the last configuration that names it, and a tag that none names stands for a
/// direct connection; so does no tag at all.
pub proof fn law_last_output_of_a_tag_counts(
    configs: Seq<OutputConfig>,
    interfaces: Seq<InterfaceAddress>,
    index: int,
    tag: Seq<char>,
)
    ensures
        0 <= index < configs.len() && configs[index].tag_text() == tag && (forall|i: int|
            index < i < configs.len() ==> (#[trigger] configs[i]).tag_text() != tag)
            ==> planned_outputs(configs, interfaces).contains_key(tag) && planned_outputs(
            configs,
            interfaces,
        )[tag] == configs[index].planned(interfaces),
        (forall|i: int| 0 <= i < configs.len() ==> (#[trigger] configs[i]).tag_text() != tag)
            ==> !planned_outputs(configs, interfaces).contains_key(tag),
    decreases configs.len(),
{
    if configs.len() > 0 {
        let front = configs.drop_last();
        let last = configs[configs.len() - 1];
        law_last_output_of_a_tag_counts(front, interfaces, index, tag);
        if 0 <= index < configs.len() - 1 && forall|i: int|
            index < i < configs.len() ==> (#[trigger] configs[i]).tag_text() != tag {
            assert(last.tag_text() != tag);
            assert forall|i: int| index < i < front.len() implies (#[trigger] front[i]).tag_text()
                != tag by {
                assert(configs[i].tag_text() != tag);
            }
        }
        if forall|i: int| 0 <= i < configs.len() ==> (#[trigger] configs[i]).tag_text() != tag {
            assert(last.tag_text() != tag);
            assert forall|i: int| 0 <= i < front.len() implies (#[trigger] front[i]).tag_text()
                != tag by {
                assert(configs[i].tag_text() != tag);
            }
        }
    }
}

/// An output is found by its tag; without a tag, or with an unknown one, a direct one is given.
pub proof fn law_unknown_tags_are_direct(map: &OutputMap, tag: Option<&str>, plan: &OutputPlan)
    requires
        map.wf(),
        call_ensures(OutputMap::get, (map, tag), plan),
    ensures
        tag is None || !map@.contains_key(tag->Some_0@) ==> *plan is Direct,
        tag is Some && map@.contains_key(tag->Some_0@) ==> *plan == map@[tag->Some_0@],
{
}

/// An output is of the kind that its configuration says and goes where it says: through the proxy,
/// with the credentials, or from the bound address.
pub proof fn law_outputs_follow_their_configuration(
    config: OutputConfig,
    interfaces: Seq<InterfaceAddress>,
)
    ensures
        config matches OutputConfig::Socks5(proxy) ==> (config.planned(
            interfaces,
        ) matches OutputPlan::Socks5(output) && output.proxy_addr == proxy.address && (output.auth
            is Some <==> proxy.auth is Some) && (proxy.auth is Some ==> output.auth->Some_0.0
            == proxy.auth->Some_0.username && output.auth->Some_0.1
            == proxy.auth->Some_0.password)),
        config matches OutputConfig::Local(local) ==> (config.planned(
            interfaces,
        ) matches OutputPlan::Local(output) && (local.bind is None ==> output.bind_addr is None)
            && (local.bind matches Some(LocalIpOrInterface::Ip(ip)) ==> output.bind_addr == Some(
            ip,
        ))),
{
}

/// The proxy that is used where none is named is port 1080 of this machine.
pub proof fn law_default_proxy_is_local(address: SocketAddress)
    requires
        call_ensures(default_socks5_address, (), address),
    ensures
        address@.ip == seq![127u8, 0u8, 0u8, 1u8],
        address@.port == 1080,
{
}

} // verus!
