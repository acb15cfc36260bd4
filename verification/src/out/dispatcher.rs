//! The exits of this machine.

use vstd::prelude::*;

use crate::primitives::route::{
    exit_views, is_normal, law_normal_form_keeps_the_named_exits, lemma_normalized, normalized,
    Exit, OutExit, OutExitTag, OutExits,
};

verus! {

/// The longest name of a network interface.
pub const MAX_INTERFACE_NAME: usize = 15;

/// What the default exit of a node is for.
#[derive(Debug, PartialEq, Eq)]
pub enum DefaultLocalExit {
    /// For the node itself alone.
    Private,
    /// For other nodes too, under these tags.
    Advertised { tags: Vec<OutExitTag> },
}

/// Tags as exits.
pub open spec fn tag_exits(tags: Seq<OutExitTag>) -> Seq<Exit> {
    tags.map_values(|tag: OutExitTag| Exit::Tag(tag@))
}

/// A name that an interface can have.
pub open spec fn valid_interface(name: Seq<u8>) -> bool {
    0 < name.len() <= MAX_INTERFACE_NAME && forall|i: int|
        0 <= i < name.len() ==> #[trigger] name[i] != 0
}

fn check_interface(name: &str) -> (result: bool)
    ensures
        result == valid_interface(vstd::utf8::encode_utf8(name@)),
{
    let bytes = name.as_bytes();
    if bytes.len() == 0 || bytes.len() > MAX_INTERFACE_NAME {
        return false;
    }
    let mut index: usize = 0;
    while index < bytes.len()
        invariant
            index <= bytes@.len(),
            bytes@ == vstd::utf8::encode_utf8(name@),
            forall|i: int| 0 <= i < index ==> #[trigger] bytes@[i] != 0,
        decreases bytes@.len() - index,
    {
        if bytes[index] == 0 {
            return false;
        }
        index += 1;
    }
    true
}

/// An exit of this machine, over its default route or over one interface.
#[derive(Debug, PartialEq, Eq)]
pub struct LocalOutDispatcher {
    exits: OutExits,
    interface: Option<String>,
}

/// The exits of a dispatcher and its interface.
pub struct DispatcherModel {
    pub exits: Seq<Exit>,
    pub interface: Option<Seq<char>>,
}

impl View for LocalOutDispatcher {
    type V = DispatcherModel;

    closed spec fn view(&self) -> DispatcherModel {
        DispatcherModel {
            exits: self.exits@,
            interface: match self.interface {
                Some(name) => Some(name@),
                None => None,
            },
        }
    }
}

/// The exits of the default dispatcher.
pub open spec fn default_exits(exit: DefaultLocalExit) -> Seq<Exit> {
    match exit {
        DefaultLocalExit::Private => seq![Exit::Direct],
        DefaultLocalExit::Advertised { tags } => normalized(
            seq![Exit::Direct, Exit::Proxy] + tag_exits(tags@),
        ),
    }
}

/// The exits of a dispatcher that is bound to an interface.
pub open spec fn bound_exits(tags: Seq<OutExitTag>) -> Seq<Exit> {
    normalized(seq![Exit::Proxy] + tag_exits(tags))
}

fn push_tags(exits: &mut Vec<OutExit>, tags: &Vec<OutExitTag>)
    ensures
        exit_views(final(exits)@) == exit_views(old(exits)@) + tag_exits(tags@),
{
    let ghost before = exit_views(exits@);
    let mut index: usize = 0;
    assert(before + tag_exits(tags@.take(0)) =~= before);
    while index < tags.len()
        invariant
            index <= tags@.len(),
            exit_views(exits@) == before + tag_exits(tags@.take(index as int)),
        decreases tags@.len() - index,
    {
        let ghost held = exit_views(exits@);
        exits.push(OutExit::Tag(tags[index].clone()));
        proof {
            assert(exit_views(exits@) =~= held.push(Exit::Tag(tags@[index as int]@)));
            assert(tag_exits(tags@.take(index + 1)) =~= tag_exits(tags@.take(index as int)).push(
                Exit::Tag(tags@[index as int]@),
            ));
            assert(exit_views(exits@) =~= before + tag_exits(tags@.take(index + 1)));
        }
        index += 1;
    }
    assert(tags@.take(tags@.len() as int) =~= tags@);
}

impl LocalOutDispatcher {
    /// The dispatcher over the default route.
    pub fn new_default(exit: DefaultLocalExit) -> (dispatcher: Self)
        ensures
            dispatcher@ == (DispatcherModel { exits: default_exits(exit), interface: None }),
            is_normal(dispatcher@.exits),
    {
        let exits = match &exit {
            DefaultLocalExit::Private => {
                let list: Vec<OutExit> = vec![OutExit::Direct];
                assert(exit_views(list@) =~= seq![Exit::Direct]);
                proof {
                    reveal_with_fuel(normalized, 2);
                    assert(seq![Exit::Direct].drop_last() =~= Seq::empty());
                    assert(Seq::<Exit>::empty().push(Exit::Direct) =~= seq![Exit::Direct]);
                }
                OutExits::new(list)
            },
            DefaultLocalExit::Advertised { tags } => {
                let mut list: Vec<OutExit> = vec![OutExit::Direct, OutExit::Proxy];
                assert(exit_views(list@) =~= seq![Exit::Direct, Exit::Proxy]);
                push_tags(&mut list, tags);
                assert(exit_views(list@)[1] == Exit::Proxy);
                assert(exit_views(list@).contains(Exit::Proxy));
                OutExits::new(list)
            },
        };
        LocalOutDispatcher { exits, interface: None }
    }

    /// The dispatcher over one interface, or `None` where no interface can have the name.
    pub fn new_bound(tags: Vec<OutExitTag>, interface: String) -> (dispatcher: Option<Self>)
        ensures
            match dispatcher {
                Some(dispatcher) => valid_interface(vstd::utf8::encode_utf8(interface@))
                    && dispatcher@ == (DispatcherModel {
                    exits: bound_exits(tags@),
                    interface: Some(interface@),
                }) && is_normal(dispatcher@.exits),
                None => !valid_interface(vstd::utf8::encode_utf8(interface@)),
            },
    {
        if !check_interface(interface.as_str()) {
            return None;
        }
        let mut list: Vec<OutExit> = vec![OutExit::Proxy];
        assert(exit_views(list@) =~= seq![Exit::Proxy]);
        push_tags(&mut list, &tags);
        assert(exit_views(list@)[0] == Exit::Proxy);
        assert(exit_views(list@).contains(Exit::Proxy));
        Some(LocalOutDispatcher { exits: OutExits::new(list), interface: Some(interface) })
    }

    pub fn exits(&self) -> (exits: &OutExits)
        ensures
            exits@ == self@.exits,
    {
        &self.exits
    }

    pub fn interface(&self) -> (interface: Option<&str>)
        ensures
            match interface {
                Some(name) => self@.interface == Some(name@),
                None => self@.interface is None,
            },
    {
        match &self.interface {
            Some(name) => Some(name.as_str()),
            None => None,
        }
    }
}

/// Only the default dispatcher serves direct connections; a bound one always needs a proxy
/// request or one of its tags.
pub proof fn law_bound_dispatchers_offer_no_direct_exit(tags: Seq<OutExitTag>)
    ensures
        !bound_exits(tags).contains(Exit::Direct),
        bound_exits(tags).contains(Exit::Proxy),
{
    let all = seq![Exit::Proxy] + tag_exits(tags);
    lemma_normalized(all);
    assert(all[0] == Exit::Proxy);
    assert(!all.contains(Exit::Direct)) by {
        if all.contains(Exit::Direct) {
            let i = choose|i: int| 0 <= i < all.len() && all[i] == Exit::Direct;
            if i > 0 {
                assert(all[i] == tag_exits(tags)[i - 1]);
            }
        }
    }
}

/// The default exit is direct. Where it is advertised it is a proxy too and has the tags; where it
/// is private it has nothing else. A bound dispatcher is a proxy with its tags.
pub proof fn law_dispatchers_offer_what_they_are_for(tags: Vec<OutExitTag>, exit: Exit)
    ensures
        default_exits(DefaultLocalExit::Private).contains(exit) <==> exit is Direct,
        default_exits(DefaultLocalExit::Advertised { tags }).contains(exit) <==> exit is Direct
            || exit is Proxy || tag_exits(tags@).contains(exit),
        bound_exits(tags@).contains(exit) <==> exit is Proxy || tag_exits(tags@).contains(exit),
{
    let listed = tag_exits(tags@);
    let advertised = seq![Exit::Direct, Exit::Proxy] + listed;
    let bound = seq![Exit::Proxy] + listed;
    law_normal_form_keeps_the_named_exits(advertised);
    law_normal_form_keeps_the_named_exits(bound);
    assert(seq![Exit::Direct].contains(Exit::Direct)) by {
        assert(seq![Exit::Direct][0] == Exit::Direct);
    }
    assert(advertised.contains(exit) <==> exit is Direct || exit is Proxy || listed.contains(exit))
        by {
        if advertised.contains(exit) {
            let i = choose|i: int| 0 <= i < advertised.len() && advertised[i] == exit;
            if i >= 2 {
                assert(listed[i - 2] == exit);
            }
        }
        assert(advertised[0] == Exit::Direct && advertised[1] == Exit::Proxy);
        if listed.contains(exit) {
            let i = choose|i: int| 0 <= i < listed.len() && listed[i] == exit;
            assert(advertised[i + 2] == exit);
        }
    }
    assert(bound.contains(exit) <==> exit is Proxy || listed.contains(exit)) by {
        if bound.contains(exit) {
            let i = choose|i: int| 0 <= i < bound.len() && bound[i] == exit;
            if i >= 1 {
                assert(listed[i - 1] == exit);
            }
        }
        assert(bound[0] == Exit::Proxy);
        if listed.contains(exit) {
            let i = choose|i: int| 0 <= i < listed.len() && listed[i] == exit;
            assert(bound[i + 1] == exit);
        }
    }
    if listed.contains(exit) {
        let i = choose|i: int| 0 <= i < listed.len() && listed[i] == exit;
        assert(listed[i] == Exit::Tag(tags@[i]@));
    }
}

/// A dispatcher is bound to the interface it is given, exactly where the name is of one to 15 bytes
/// without a zero byte.
pub proof fn law_bound_dispatchers_keep_their_interface(
    tags: Vec<OutExitTag>,
    interface: String,
    dispatcher: Option<LocalOutDispatcher>,
)
    requires
        call_ensures(LocalOutDispatcher::new_bound, (tags, interface), dispatcher),
    ensures
        ({
            let name = vstd::utf8::encode_utf8(interface@);
            dispatcher is Some <==> 1 <= name.len() <= 15 && forall|i: int|
                0 <= i < name.len() ==> #[trigger] name[i] != 0
        }),
        dispatcher matches Some(made) ==> made@.interface == Some(interface@),
{
}

} // verus!
