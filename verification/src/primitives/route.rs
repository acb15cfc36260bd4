//! Exits: the ways in which traffic can leave, as rules ask for them and nodes offer them.

use vstd::prelude::*;

use crate::text::same_text;

verus! {

/// The name of an exit.
#[derive(Debug, PartialEq, Eq, Hash)]
pub struct OutExitTag(pub String);

/// An exit that a rule asks for or a node offers.
#[derive(Debug, PartialEq, Eq, Hash)]
pub enum OutExit {
    /// From this node, without a proxy.
    Direct,
    /// Through a node that offers the tag.
    Tag(OutExitTag),
    /// Through any node that offers an exit.
    Proxy,
    /// Directly or through any node.
    Any,
}

/// The mathematical form of an `OutExit`.
pub enum Exit {
    Direct,
    Tag(Seq<char>),
    Proxy,
    Any,
}

impl View for OutExitTag {
    type V = Seq<char>;

    open spec fn view(&self) -> Seq<char> {
        self.0@
    }
}

impl View for OutExit {
    type V = Exit;

    open spec fn view(&self) -> Exit {
        match self {
            OutExit::Direct => Exit::Direct,
            OutExit::Tag(tag) => Exit::Tag(tag@),
            OutExit::Proxy => Exit::Proxy,
            OutExit::Any => Exit::Any,
        }
    }
}

impl Clone for OutExitTag {
    fn clone(&self) -> (tag: Self)
        ensures
            tag == *self,
    {
        OutExitTag(self.0.clone())
    }
}

impl Clone for OutExit {
    fn clone(&self) -> (exit: Self)
        ensures
            exit == *self,
    {
        match self {
            OutExit::Direct => OutExit::Direct,
            OutExit::Tag(tag) => OutExit::Tag(tag.clone()),
            OutExit::Proxy => OutExit::Proxy,
            OutExit::Any => OutExit::Any,
        }
    }
}

/// The exit that a text names: three words have a meaning of their own, the rest are tags.
pub open spec fn exit_named(text: Seq<char>) -> Exit {
    if text == "DIRECT"@ {
        Exit::Direct
    } else if text == "PROXY"@ {
        Exit::Proxy
    } else if text == "ANY"@ {
        Exit::Any
    } else {
        Exit::Tag(text)
    }
}

/// The text that names an exit.
pub open spec fn exit_text(exit: Exit) -> Seq<char> {
    match exit {
        Exit::Direct => "DIRECT"@,
        Exit::Tag(tag) => tag,
        Exit::Proxy => "PROXY"@,
        Exit::Any => "ANY"@,
    }
}

impl OutExitTag {
    pub fn named(text: &str) -> (tag: Self)
        ensures
            tag@ == text@,
    {
        OutExitTag(text.to_owned())
    }
}

impl OutExit {
    /// The exit that a text names.
    pub fn named(text: &str) -> (exit: Self)
        ensures
            exit@ == exit_named(text@),
    {
        if same_text(text, "DIRECT") {
            OutExit::Direct
        } else if same_text(text, "PROXY") {
            OutExit::Proxy
        } else if same_text(text, "ANY") {
            OutExit::Any
        } else {
            OutExit::Tag(OutExitTag::named(text))
        }
    }

    /// The text that names the exit.
    pub fn to_text(&self) -> (text: String)
        ensures
            text@ == exit_text(self@),
    {
        match self {
            OutExit::Direct => "DIRECT".to_owned(),
            OutExit::Tag(tag) => tag.0.clone(),
            OutExit::Proxy => "PROXY".to_owned(),
            OutExit::Any => "ANY".to_owned(),
        }
    }

    /// Whether two exits are the same.
    pub fn same(&self, other: &OutExit) -> (result: bool)
        ensures
            result == (self@ == other@),
    {
        match (self, other) {
            (OutExit::Direct, OutExit::Direct) => true,
            (OutExit::Proxy, OutExit::Proxy) => true,
            (OutExit::Any, OutExit::Any) => true,
            (OutExit::Tag(tag), OutExit::Tag(other)) => same_text(
                tag.0.as_str(),
                other.0.as_str(),
            ),
            _ => false,
        }
    }
}

/// Reading the text of an exit gives the exit back, unless it is a tag that is spelled like one
/// of the three words.
pub proof fn law_exit_text_round_trip(exit: Exit)
    requires
        exit matches Exit::Tag(tag) ==> tag != "DIRECT"@ && tag != "PROXY"@ && tag != "ANY"@,
    ensures
        exit_named(exit_text(exit)) == exit,
{
    reveal_strlit("DIRECT");
    reveal_strlit("PROXY");
    reveal_strlit("ANY");
    assert("DIRECT"@.len() == 6);
    assert("PROXY"@.len() == 5);
    assert("ANY"@.len() == 3);
}

impl From<&str> for OutExit {
    /// The exit that a text names.
    fn from(value: &str) -> (exit: Self)
        ensures
            exit@ == exit_named(value@),
    {
        OutExit::named(value)
    }
}

impl vstd::std_specs::convert::FromSpecImpl<&str> for OutExit {
    open spec fn obeys_from_spec() -> bool {
        false
    }

    open spec fn from_spec(value: &str) -> OutExit {
        choose|exit: OutExit| #[trigger] exit@ == exit_named(value@)
    }
}

impl From<String> for OutExit {
    /// The exit that a text names.
    fn from(value: String) -> (exit: Self)
        ensures
            exit@ == exit_named(value@),
    {
        OutExit::named(value.as_str())
    }
}

impl vstd::std_specs::convert::FromSpecImpl<String> for OutExit {
    open spec fn obeys_from_spec() -> bool {
        false
    }

    open spec fn from_spec(value: String) -> OutExit {
        choose|exit: OutExit| #[trigger] exit@ == exit_named(value@)
    }
}

impl From<OutExitTag> for OutExit {
    /// The exit with a tag, whatever its text is.
    fn from(value: OutExitTag) -> (exit: Self)
        ensures
            exit == OutExit::Tag(value),
    {
        OutExit::Tag(value)
    }
}

impl vstd::std_specs::convert::FromSpecImpl<OutExitTag> for OutExit {
    open spec fn obeys_from_spec() -> bool {
        true
    }

    open spec fn from_spec(value: OutExitTag) -> OutExit {
        OutExit::Tag(value)
    }
}

impl From<&str> for OutExitTag {
    /// The tag with a text.
    fn from(value: &str) -> (tag: Self)
        ensures
            tag@ == value@,
    {
        OutExitTag::named(value)
    }
}

impl vstd::std_specs::convert::FromSpecImpl<&str> for OutExitTag {
    open spec fn obeys_from_spec() -> bool {
        false
    }

    open spec fn from_spec(value: &str) -> OutExitTag {
        choose|tag: OutExitTag| #[trigger] tag@ == value@
    }
}

impl From<String> for OutExitTag {
    /// The tag with a text.
    fn from(value: String) -> (tag: Self)
        ensures
            tag == OutExitTag(value),
    {
        OutExitTag(value)
    }
}

impl vstd::std_specs::convert::FromSpecImpl<String> for OutExitTag {
    open spec fn obeys_from_spec() -> bool {
        true
    }

    open spec fn from_spec(value: String) -> OutExitTag {
        OutExitTag(value)
    }
}

/// The views of a list of exits.
pub open spec fn exit_views(exits: Seq<OutExit>) -> Seq<Exit> {
    exits.map_values(|exit: OutExit| exit@)
}

/// Exits without `Any` and without repetitions, in the order in which they first occur.
pub open spec fn normalized(exits: Seq<Exit>) -> Seq<Exit>
    decreases exits.len(),
{
    if exits.len() == 0 {
        Seq::empty()
    } else {
        let front = normalized(exits.drop_last());
        if exits.last() is Any || front.contains(exits.last()) {
            front
        } else {
            front.push(exits.last())
        }
    }
}

/// A tag is offered only together with `Proxy`.
pub open spec fn tags_have_proxy(exits: Seq<Exit>) -> bool {
    (exists|i: int| 0 <= i < exits.len() && (#[trigger] exits[i]) is Tag) ==> exits.contains(
        Exit::Proxy,
    )
}

/// What a list of exits looks like after it was normalised.
pub open spec fn is_normal(exits: Seq<Exit>) -> bool {
    exits.no_duplicates() && !exits.contains(Exit::Any) && tags_have_proxy(exits)
}

/// The tags among exits.
pub open spec fn tags_among(exits: Seq<Exit>) -> Seq<Exit> {
    exits.filter(|exit: Exit| exit is Tag)
}

/// What a node tells others of its exits: `Proxy` and the tags, without `Direct`, which is for
/// itself alone; and nothing where it is no proxy.
pub open spec fn advertised(exits: Seq<Exit>) -> Seq<Exit> {
    if exits.contains(Exit::Proxy) {
        seq![Exit::Proxy] + tags_among(exits)
    } else {
        Seq::empty()
    }
}

/// How good a match is: the earlier, the better.
#[derive(Clone, Copy, Debug, PartialEq, Eq, PartialOrd, Ord, Structural)]
pub enum OutExitMatchPriority {
    /// The default exit of the node itself.
    DefaultLocal,
    /// An exit that was published.
    Provider,
}

/// An exit that serves a request.
#[derive(Debug, PartialEq, Eq)]
pub struct OutExitMatch {
    pub priority: OutExitMatchPriority,
    /// What is asked of the chosen exit.
    pub resolved_exit: OutExit,
}

impl View for OutExitMatch {
    type V = (OutExitMatchPriority, Exit);

    open spec fn view(&self) -> (OutExitMatchPriority, Exit) {
        (self.priority, self.resolved_exit@)
    }
}

/// How exits serve a request. `Any` takes the direct exit before a proxy.
pub open spec fn matched(exits: Seq<Exit>, requested: Exit) -> Option<(OutExitMatchPriority, Exit)> {
    let direct = exits.contains(Exit::Direct);
    let proxy = exits.contains(Exit::Proxy);
    match requested {
        Exit::Direct => if direct {
            Some((OutExitMatchPriority::DefaultLocal, Exit::Direct))
        } else {
            None
        },
        Exit::Proxy => if proxy {
            Some((OutExitMatchPriority::Provider, Exit::Proxy))
        } else {
            None
        },
        Exit::Any => if direct {
            Some((OutExitMatchPriority::DefaultLocal, Exit::Direct))
        } else if proxy {
            Some((OutExitMatchPriority::Provider, Exit::Proxy))
        } else {
            None
        },
        Exit::Tag(_) => if proxy && exits.contains(requested) {
            Some((OutExitMatchPriority::Provider, requested))
        } else {
            None
        },
    }
}

pub proof fn lemma_normalized(exits: Seq<Exit>)
    ensures
        normalized(exits).no_duplicates(),
        forall|exit: Exit| #[trigger]
            normalized(exits).contains(exit) <==> exits.contains(exit) && exit !is Any,
    decreases exits.len(),
{
    if exits.len() > 0 {
        let before = exits.drop_last();
        let last = exits.last();
        lemma_normalized(before);
        let front = normalized(before);
        assert forall|exit: Exit| #[trigger] normalized(exits).contains(exit) <==> exits.contains(
            exit,
        ) && exit !is Any by {
            if exits.contains(exit) {
                let i = choose|i: int| 0 <= i < exits.len() && exits[i] == exit;
                if i < before.len() {
                    assert(before[i] == exit);
                }
            }
            if before.contains(exit) {
                let i = choose|i: int| 0 <= i < before.len() && before[i] == exit;
                assert(exits[i] == exit);
            }
            if !(last is Any || front.contains(last)) {
                assert(front.push(last)[front.len() as int] == last);
                if front.contains(exit) {
                    let i = choose|i: int| 0 <= i < front.len() && front[i] == exit;
                    assert(front.push(last)[i] == exit);
                }
                if front.push(last).contains(exit) {
                    let i = choose|i: int| 0 <= i < front.push(last).len() && front.push(last)[i]
                        == exit;
                    if i < front.len() {
                        assert(front[i] == exit);
                    }
                }
            }
            assert(exits[exits.len() - 1] == last);
        }
    }
}

/// Normalising exits of which every tag comes with `Proxy` gives a normal list.
pub proof fn lemma_normalized_is_normal(exits: Seq<Exit>)
    requires
        tags_have_proxy(exits),
    ensures
        is_normal(normalized(exits)),
{
    lemma_normalized(exits);
    let result = normalized(exits);
    if exists|i: int| 0 <= i < result.len() && (#[trigger] result[i]) is Tag {
        let i = choose|i: int| 0 <= i < result.len() && (#[trigger] result[i]) is Tag;
        assert(result.contains(result[i]));
        assert(exits.contains(result[i]));
        let j = choose|j: int| 0 <= j < exits.len() && exits[j] == result[i];
        assert(exits[j] is Tag);
    }
}

/// A normal list stays as it is when it is normalised again.
pub proof fn law_normalizing_twice_changes_nothing(exits: Seq<Exit>)
    requires
        is_normal(exits),
    ensures
        normalized(exits) == exits,
    decreases exits.len(),
{
    lemma_normalized_keeps(exits);
}

proof fn lemma_normalized_keeps(exits: Seq<Exit>)
    requires
        exits.no_duplicates(),
        !exits.contains(Exit::Any),
    ensures
        normalized(exits) == exits,
    decreases exits.len(),
{
    if exits.len() > 0 {
        let before = exits.drop_last();
        assert(before.no_duplicates());
        assert(!before.contains(Exit::Any)) by {
            if before.contains(Exit::Any) {
                let i = choose|i: int| 0 <= i < before.len() && before[i] == Exit::Any;
                assert(exits[i] == Exit::Any);
            }
        }
        lemma_normalized_keeps(before);
        assert(!before.contains(exits.last())) by {
            if before.contains(exits.last()) {
                let i = choose|i: int| 0 <= i < before.len() && before[i] == exits.last();
                assert(exits[i] == exits[exits.len() - 1]);
            }
        }
        assert(exits.last() !is Any) by {
            assert(exits[exits.len() - 1] == exits.last());
        }
        assert(before.push(exits.last()) =~= exits);
    }
}

proof fn lemma_tags_among(exits: Seq<Exit>)
    ensures
        forall|exit: Exit| #[trigger]
            tags_among(exits).contains(exit) <==> exit is Tag && exits.contains(exit),
        forall|i: int| 0 <= i < tags_among(exits).len() ==> (#[trigger] tags_among(exits)[i]) is Tag,
        exits.no_duplicates() ==> tags_among(exits).no_duplicates(),
    decreases exits.len(),
{
    reveal(Seq::filter);
    if exits.len() > 0 {
        let before = exits.drop_last();
        let last = exits.last();
        lemma_tags_among(before);
        let kept = tags_among(before);
        let all = tags_among(exits);
        assert forall|exit: Exit| #[trigger] all.contains(exit) <==> exit is Tag && exits.contains(
            exit,
        ) by {
            if exits.contains(exit) {
                let i = choose|i: int| 0 <= i < exits.len() && exits[i] == exit;
                if i < before.len() {
                    assert(before[i] == exit);
                    assert(before.contains(exit));
                }
            }
            if before.contains(exit) {
                let i = choose|i: int| 0 <= i < before.len() && before[i] == exit;
                assert(exits[i] == exit);
            }
            assert(exits[exits.len() - 1] == last);
            if last is Tag {
                assert(all == kept.push(last));
                assert(all[kept.len() as int] == last);
                if kept.contains(exit) {
                    let i = choose|i: int| 0 <= i < kept.len() && kept[i] == exit;
                    assert(all[i] == exit);
                }
                if all.contains(exit) {
                    let i = choose|i: int| 0 <= i < all.len() && all[i] == exit;
                    if i < kept.len() {
                        assert(kept[i] == exit);
                    }
                }
            }
        }
        if exits.no_duplicates() {
            assert(before.no_duplicates());
            assert(!before.contains(last)) by {
                if before.contains(last) {
                    let i = choose|i: int| 0 <= i < before.len() && before[i] == last;
                    assert(exits[i] == exits[exits.len() - 1]);
                }
            }
            assert(!kept.contains(last));
        }
    }
}

/// The tags of a normal list, behind `Proxy`, are again a normal list.
pub proof fn lemma_advertised(exits: Seq<Exit>)
    requires
        is_normal(exits),
    ensures
        is_normal(advertised(exits)),
        forall|exit: Exit| #[trigger]
            advertised(exits).contains(exit) <==> exits.contains(Exit::Proxy) && (exit
                == Exit::Proxy || (exit is Tag && exits.contains(exit))),
{
    let tags = tags_among(exits);
    lemma_tags_among(exits);
    let all = advertised(exits);
    if exits.contains(Exit::Proxy) {
        assert(all[0] == Exit::Proxy);
        assert(all.no_duplicates()) by {
            assert forall|i: int, j: int| 0 <= i < all.len() && 0 <= j < all.len() && i != j implies all[i]
                != all[j] by {
                if i > 0 && j > 0 {
                    assert(all[i] == tags[i - 1]);
                    assert(all[j] == tags[j - 1]);
                } else if i > 0 {
                    assert(all[i] == tags[i - 1]);
                } else {
                    assert(all[j] == tags[j - 1]);
                }
            }
        }
        assert forall|exit: Exit| #[trigger] all.contains(exit) <==> exit == Exit::Proxy || (
        exit is Tag && exits.contains(exit)) by {
            if all.contains(exit) {
                let i = choose|i: int| 0 <= i < all.len() && all[i] == exit;
                if i > 0 {
                    assert(tags[i - 1] == exit);
                    assert(tags.contains(exit));
                }
            }
            if exit is Tag && exits.contains(exit) {
                assert(tags.contains(exit));
                let k = choose|k: int| 0 <= k < tags.len() && tags[k] == exit;
                assert(all[k + 1] == exit);
            }
        }
    }
}

/// What a node tells others holds neither `Direct` nor `Any`, and telling it on changes nothing.
pub proof fn law_advertised_exits_are_safe_to_pass_on(exits: Seq<Exit>)
    requires
        is_normal(exits),
    ensures
        !advertised(exits).contains(Exit::Direct),
        !advertised(exits).contains(Exit::Any),
        advertised(advertised(exits)) == advertised(exits),
{
    lemma_advertised(exits);
    let once = advertised(exits);
    if exits.contains(Exit::Proxy) {
        assert(once[0] == Exit::Proxy);
        assert(once.contains(Exit::Proxy));
        let is_tag = |exit: Exit| exit is Tag;
        let tags = tags_among(exits);
        lemma_tags_among(exits);
        lemma_filter_of_tags(tags);
        Seq::filter_distributes_over_add(seq![Exit::Proxy], tags, is_tag);
        reveal_with_fuel(Seq::filter, 2);
        assert(seq![Exit::Proxy].drop_last() =~= Seq::empty());
        assert(seq![Exit::Proxy].filter(is_tag) =~= Seq::empty());
        assert(tags_among(once) =~= tags);
    }
}

proof fn lemma_filter_of_tags(tags: Seq<Exit>)
    requires
        forall|i: int| 0 <= i < tags.len() ==> (#[trigger] tags[i]) is Tag,
    ensures
        tags_among(tags) == tags,
    decreases tags.len(),
{
    reveal(Seq::filter);
    if tags.len() > 0 {
        lemma_filter_of_tags(tags.drop_last());
        assert(tags[tags.len() - 1] is Tag);
        assert(tags.drop_last().push(tags.last()) =~= tags);
    }
}

/// A match hands on an exit that the list offers, never `Any`; and each exit that a normal list
/// offers is matched by itself.
pub proof fn law_matches_resolve_to_offered_exits(exits: Seq<Exit>, requested: Exit)
    requires
        is_normal(exits),
    ensures
        matched(exits, requested) matches Some((_, resolved)) ==> exits.contains(resolved)
            && resolved !is Any,
        exits.contains(requested) ==> matched(exits, requested) is Some,
{
    if exits.contains(requested) && requested is Tag {
        let i = choose|i: int| 0 <= i < exits.len() && exits[i] == requested;
        assert(exits[i] is Tag);
    }
}

/// The exits that a node offers, in normal form.
#[derive(Debug, PartialEq, Eq)]
pub struct OutExits(Vec<OutExit>);

impl View for OutExits {
    type V = Seq<Exit>;

    closed spec fn view(&self) -> Seq<Exit> {
        exit_views(self.0@)
    }
}

fn list_contains(exits: &Vec<OutExit>, exit: &OutExit) -> (result: bool)
    ensures
        result == exit_views(exits@).contains(exit@),
{
    let mut index: usize = 0;
    while index < exits.len()
        invariant
            index <= exits@.len(),
            forall|i: int| 0 <= i < index ==> exit_views(exits@)[i] != exit@,
        decreases exits@.len() - index,
    {
        if exits[index].same(exit) {
            assert(exit_views(exits@)[index as int] == exit@);
            return true;
        }
        index += 1;
    }
    false
}

/// Whether every tag comes with `Proxy`.
pub fn check_tags_have_proxy(exits: &Vec<OutExit>) -> (result: bool)
    ensures
        result == tags_have_proxy(exit_views(exits@)),
{
    if list_contains(exits, &OutExit::Proxy) {
        return true;
    }
    let mut index: usize = 0;
    while index < exits.len()
        invariant
            index <= exits@.len(),
            !exit_views(exits@).contains(Exit::Proxy),
            forall|i: int| 0 <= i < index ==> !((#[trigger] exit_views(exits@)[i]) is Tag),
        decreases exits@.len() - index,
    {
        if let OutExit::Tag(_) = &exits[index] {
            assert(exit_views(exits@)[index as int] is Tag);
            return false;
        }
        index += 1;
    }
    true
}

impl OutExits {
    /// The exits in the order in which they were first given.
    pub closed spec fn list(&self) -> Seq<OutExit> {
        self.0@
    }

    #[verifier::type_invariant]
    spec fn normal(self) -> bool {
        is_normal(exit_views(self.0@))
    }

    /// Normalises exits. Every tag must come with `Proxy`.
    pub fn new(exits: Vec<OutExit>) -> (result: Self)
        requires
            tags_have_proxy(exit_views(exits@)),
        ensures
            result@ == normalized(exit_views(exits@)),
            is_normal(result@),
    {
        let mut kept: Vec<OutExit> = Vec::new();
        let mut index: usize = 0;
        let ghost all = exit_views(exits@);
        assert(exit_views(kept@) =~= normalized(all.take(0)));
        while index < exits.len()
            invariant
                index <= exits@.len(),
                all == exit_views(exits@),
                exit_views(kept@) == normalized(all.take(index as int)),
            decreases exits@.len() - index,
        {
            proof {
                assert(all.take(index + 1).drop_last() =~= all.take(index as int));
                assert(all.take(index + 1).last() == exits@[index as int]@);
            }
            let ghost before = kept@;
            let skip = match &exits[index] {
                OutExit::Any => true,
                _ => list_contains(&kept, &exits[index]),
            };
            if !skip {
                kept.push(exits[index].clone());
                assert(exit_views(kept@) =~= exit_views(before).push(exits@[index as int]@));
            }
            index += 1;
        }
        proof {
            assert(all.take(all.len() as int) =~= all);
            lemma_normalized_is_normal(all);
        }
        OutExits(kept)
    }

    /// No exits.
    pub fn none() -> (result: Self)
        ensures
            result@ == Seq::<Exit>::empty(),
    {
        let kept: Vec<OutExit> = Vec::new();
        assert(exit_views(kept@) =~= Seq::empty());
        OutExits(kept)
    }

    /// What the node tells others of its exits.
    pub fn for_advertising(&self) -> (result: Self)
        ensures
            result@ == advertised(self@),
            is_normal(result@),
    {
        proof {
            use_type_invariant(self);
            lemma_advertised(self@);
        }
        if !list_contains(&self.0, &OutExit::Proxy) {
            return OutExits::none();
        }
        let mut kept: Vec<OutExit> = vec![OutExit::Proxy];
        let mut index: usize = 0;
        let ghost all = exit_views(self.0@);
        proof {
            reveal(Seq::filter);
            assert(tags_among(all.take(0)) =~= Seq::empty());
            assert(exit_views(kept@) =~= seq![Exit::Proxy] + tags_among(all.take(0)));
        }
        while index < self.0.len()
            invariant
                index <= self.0@.len(),
                all == exit_views(self.0@),
                exit_views(kept@) == seq![Exit::Proxy] + tags_among(all.take(index as int)),
            decreases self.0@.len() - index,
        {
            proof {
                reveal(Seq::filter);
                assert(all.take(index + 1).drop_last() =~= all.take(index as int));
                assert(all.take(index + 1).last() == self.0@[index as int]@);
            }
            let ghost before = kept@;
            if let OutExit::Tag(_) = &self.0[index] {
                kept.push(self.0[index].clone());
                assert(exit_views(kept@) =~= exit_views(before).push(self.0@[index as int]@));
                assert(exit_views(kept@) =~= seq![Exit::Proxy] + tags_among(all.take(index + 1)));
            }
            index += 1;
        }
        assert(all.take(all.len() as int) =~= all);
        OutExits(kept)
    }

    /// How the exits serve a request.
    pub fn match_exit(&self, requested: &OutExit) -> (result: Option<OutExitMatch>)
        ensures
            match result {
                Some(found) => matched(self@, requested@) == Some(found@),
                None => matched(self@, requested@) is None,
            },
    {
        let has_direct = list_contains(&self.0, &OutExit::Direct);
        let has_proxy = list_contains(&self.0, &OutExit::Proxy);
        match requested {
            OutExit::Direct => if has_direct {
                Some(
                    OutExitMatch {
                        priority: OutExitMatchPriority::DefaultLocal,
                        resolved_exit: OutExit::Direct,
                    },
                )
            } else {
                None
            },
            OutExit::Proxy => if has_proxy {
                Some(
                    OutExitMatch {
                        priority: OutExitMatchPriority::Provider,
                        resolved_exit: OutExit::Proxy,
                    },
                )
            } else {
                None
            },
            OutExit::Any => if has_direct {
                Some(
                    OutExitMatch {
                        priority: OutExitMatchPriority::DefaultLocal,
                        resolved_exit: OutExit::Direct,
                    },
                )
            } else if has_proxy {
                Some(
                    OutExitMatch {
                        priority: OutExitMatchPriority::Provider,
                        resolved_exit: OutExit::Proxy,
                    },
                )
            } else {
                None
            },
            OutExit::Tag(_) => if has_proxy && list_contains(&self.0, requested) {
                Some(
                    OutExitMatch {
                        priority: OutExitMatchPriority::Provider,
                        resolved_exit: requested.clone(),
                    },
                )
            } else {
                None
            },
        }
    }

    pub fn as_slice(&self) -> (exits: &[OutExit])
        ensures
            exits@ == self.list(),
            exit_views(exits@) == self@,
            is_normal(self@),
    {
        proof {
            use_type_invariant(self);
        }
        self.0.as_slice()
    }

    pub fn iter(&self) -> (exits: std::slice::Iter<'_, OutExit>)
        ensures
            vstd::std_specs::iter::IteratorSpec::remaining(&exits).unref() == self.list(),
    {
        self.0.iter()
    }
}

/// Exits in normal form are those that were given, `ANY` aside, each once, in the order in which
/// they were first named.
pub proof fn law_normal_form_keeps_the_named_exits(exits: Seq<Exit>)
    ensures
        normalized(exits).no_duplicates(),
        forall|exit: Exit| #[trigger]
            normalized(exits).contains(exit) <==> exits.contains(exit) && exit !is Any,
        forall|i: int, j: int|
            #![trigger normalized(exits)[i], normalized(exits)[j]]
            0 <= i < j < normalized(exits).len() ==> named_before(
                exits,
                normalized(exits)[i],
                normalized(exits)[j],
            ),
    decreases exits.len(),
{
    if exits.len() > 0 {
        let front = exits.drop_last();
        let last = exits.last();
        let before = normalized(front);
        let all = normalized(exits);
        law_normal_form_keeps_the_named_exits(front);
        assert forall|exit: Exit| exits.contains(exit) <==> #[trigger] front.contains(exit) || exit
            == last by {
            if exits.contains(exit) {
                let i = choose|i: int| 0 <= i < exits.len() && exits[i] == exit;
                if i < front.len() {
                    assert(front[i] == exit);
                }
            }
            if front.contains(exit) {
                let i = choose|i: int| 0 <= i < front.len() && front[i] == exit;
                assert(exits[i] == exit);
            }
            assert(exits[exits.len() - 1] == last);
        }
        assert forall|exit: Exit| #[trigger] all.contains(exit) <==> exits.contains(exit) && exit
            !is Any by {
            assert(front.contains(exit) || !front.contains(exit));
            if all != before {
                assert(all == before.push(last));
                assert(all[before.len() as int] == last);
                if before.contains(exit) {
                    let i = choose|i: int| 0 <= i < before.len() && before[i] == exit;
                    assert(all[i] == exit);
                }
                if all.contains(exit) {
                    let i = choose|i: int| 0 <= i < all.len() && all[i] == exit;
                    if i < before.len() {
                        assert(before[i] == exit);
                    }
                }
            }
        }
        assert forall|i: int, j: int|
            #![trigger all[i], all[j]]
            0 <= i < j < all.len() implies named_before(exits, all[i], all[j]) by {
            assert(all[i] == before[i]);
            if j < before.len() {
                assert(all[j] == before[j]);
                assert(named_before(front, before[i], before[j]));
                let at = choose|at: int|
                    0 <= at < front.len() && front[at] == before[i] && !#[trigger] front.take(
                        at + 1,
                    ).contains(before[j]);
                assert(exits[at] == before[i]);
                assert(exits.take(at + 1) =~= front.take(at + 1));
            } else {
                assert(before.contains(before[i]));
                assert(front.contains(before[i]));
                let at = choose|at: int| 0 <= at < front.len() && front[at] == before[i];
                assert(exits[at] == all[i]);
                assert(!front.contains(last)) by {
                    if front.contains(last) {
                        assert(before.contains(last));
                    }
                }
                assert(!exits.take(at + 1).contains(last)) by {
                    let start = exits.take(at + 1);
                    if start.contains(last) {
                        let k = choose|k: int| 0 <= k < start.len() && start[k] == last;
                        assert(front[k] == last);
                    }
                }
            }
        }
    }
}

/// An exit is named before the other is named for the first time.
pub open spec fn named_before(exits: Seq<Exit>, exit: Exit, other: Exit) -> bool {
    exists|at: int|
        0 <= at < exits.len() && exits[at] == exit && !#[trigger] exits.take(at + 1).contains(other)
}

/// A request is served exactly where the exits hold what it needs: `DIRECT` itself, `PROXY` itself,
/// a tag together with `PROXY`, and `ANY` one of the first two, the direct one first. What is
/// served directly is local, anything else is the provider's.
pub proof fn law_requests_are_served_by_what_is_offered(exits: Seq<Exit>, tag: Seq<char>)
    ensures
        matched(exits, Exit::Direct) is Some <==> exits.contains(Exit::Direct),
        matched(exits, Exit::Proxy) is Some <==> exits.contains(Exit::Proxy),
        matched(exits, Exit::Tag(tag)) is Some <==> exits.contains(Exit::Tag(tag))
            && exits.contains(Exit::Proxy),
        matched(exits, Exit::Any) == if exits.contains(Exit::Direct) {
            matched(exits, Exit::Direct)
        } else {
            matched(exits, Exit::Proxy)
        },
        forall|requested: Exit| #[trigger]
            matched(exits, requested) matches Some((priority, resolved)) ==> (priority
                == OutExitMatchPriority::DefaultLocal <==> resolved is Direct) && (requested
                !is Any ==> resolved == requested),
{
}

/// What is advertised is the proxy and every tag, in their order, where there is a proxy to serve
/// them; the direct exit is never passed on.
pub proof fn law_advertised_exits_are_the_proxied_ones(exits: Seq<Exit>, exit: Exit)
    ensures
        advertised(exits).contains(exit) <==> exits.contains(Exit::Proxy) && exits.contains(exit)
            && (exit is Proxy || exit is Tag),
        exits.contains(Exit::Proxy) ==> advertised(exits)[0] == Exit::Proxy,
{
    let tags = tags_among(exits);
    let is_tag = |exit: Exit| exit is Tag;
    broadcast use vstd::seq_lib::group_filter_ensures;

    if exits.contains(Exit::Proxy) {
        let all = seq![Exit::Proxy] + tags;
        if all.contains(exit) {
            let i = choose|i: int| 0 <= i < all.len() && all[i] == exit;
            if i > 0 {
                assert(tags[i - 1] == exit);
                assert(is_tag(tags[i - 1]));
                assert(tags.contains(tags[i - 1]));
                exits.lemma_filter_contains_rev(is_tag, exit);
            }
        }
        if exit is Proxy {
            assert(all[0] == exit);
        }
        if exits.contains(exit) && exit is Tag {
            assert(is_tag(exit));
            let at = choose|at: int| 0 <= at < exits.len() && exits[at] == exit;
            exits.lemma_filter_contains(is_tag, at);
            let i = choose|i: int| 0 <= i < tags.len() && tags[i] == exit;
            assert(all[i + 1] == exit);
        }
    }
}

/// Tags may stand among exits only where the proxy does.
pub proof fn law_tags_need_the_proxy(exits: Vec<OutExit>, usable: bool)
    requires
        call_ensures(check_tags_have_proxy, (&exits,), usable),
    ensures
        !usable <==> !exit_views(exits@).contains(Exit::Proxy) && exists|i: int|
            0 <= i < exits@.len() && (#[trigger] exits@[i]) is Tag,
{
    let views = exit_views(exits@);
    assert forall|i: int| 0 <= i < exits@.len() implies (#[trigger] views[i] is Tag <==> exits@[i]
        is Tag) by {
        assert(views[i] == exits@[i]@);
    }
    if !usable {
        let i = choose|i: int| 0 <= i < views.len() && (#[trigger] views[i]) is Tag;
        assert(exits@[i] is Tag);
    }
    if exists|i: int| 0 <= i < exits@.len() && (#[trigger] exits@[i]) is Tag {
        let i = choose|i: int| 0 <= i < exits@.len() && (#[trigger] exits@[i]) is Tag;
        assert(views[i] is Tag);
    }
}

} // verus!
