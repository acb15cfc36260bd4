//! The order of rules.

use std::sync::Arc;

use vstd::prelude::*;

use super::rule::{AnyRule, FallbackRule};
use crate::primitives::route::{exit_views, Exit, OutExit};

verus! {

/// `Arc::clone`: another pointer to the same value.
#[verifier::external_body]
pub(crate) fn share<T>(value: &Arc<T>) -> (shared: Arc<T>)
    ensures
        shared == *value,
{
    Arc::clone(value)
}

/// The rules behind pointers.
pub open spec fn rule_list(rules: Seq<Arc<AnyRule>>) -> Seq<AnyRule> {
    rules.map_values(|rule: Arc<AnyRule>| *rule)
}

/// The rules of one priority, in their order.
pub open spec fn with_priority(rules: Seq<AnyRule>, priority: i64) -> Seq<AnyRule>
    decreases rules.len(),
{
    if rules.len() == 0 {
        Seq::empty()
    } else {
        let front = with_priority(rules.drop_last(), priority);
        if rules.last().own_priority() == priority {
            front.push(rules.last())
        } else {
            front
        }
    }
}

/// Whether no rule comes before one of a lower number.
pub open spec fn is_sorted(rules: Seq<AnyRule>) -> bool {
    forall|i: int, j: int|
        0 <= i < j < rules.len() ==> (#[trigger] rules[i]).own_priority() <= (
        #[trigger] rules[j]).own_priority()
}

/// Whether `ordered` holds the rules of `all` by priority, those of one priority in the order that
/// they had.
pub open spec fn is_stable_order(all: Seq<AnyRule>, ordered: Seq<AnyRule>) -> bool {
    &&& is_sorted(ordered)
    &&& forall|priority: i64| #[trigger]
        with_priority(ordered, priority) == with_priority(all, priority)
}

/// Whether one of the rules is a fallback rule.
pub open spec fn has_fallback(rules: Seq<AnyRule>) -> bool {
    exists|i: int| 0 <= i < rules.len() && (#[trigger] rules[i]) is Fallback
}

/// Whether a rule lets everything connect directly.
pub open spec fn is_direct_fallback(rule: AnyRule) -> bool {
    rule matches AnyRule::Fallback(rule) && exit_views(rule.exits@) == seq![Exit::Direct]
}

/// Whether `merged` holds the rules of `all` in their order, with a fallback rule at the end where
/// there is none.
pub open spec fn is_merged(all: Seq<AnyRule>, merged: Seq<AnyRule>) -> bool {
    if has_fallback(all) {
        is_stable_order(all, merged)
    } else {
        merged.len() > 0 && is_stable_order(all, merged.drop_last()) && is_direct_fallback(
            merged.last(),
        )
    }
}

pub proof fn lemma_with_priority_joins(front: Seq<AnyRule>, back: Seq<AnyRule>, priority: i64)
    ensures
        with_priority(front + back, priority) == with_priority(front, priority) + with_priority(
            back,
            priority,
        ),
    decreases back.len(),
{
    if back.len() == 0 {
        assert(front + back =~= front);
        assert(with_priority(front, priority) + Seq::<AnyRule>::empty() =~= with_priority(
            front,
            priority,
        ));
    } else {
        assert((front + back).drop_last() =~= front + back.drop_last());
        lemma_with_priority_joins(front, back.drop_last(), priority);
        assert(with_priority(front + back, priority) =~= with_priority(front, priority)
            + with_priority(back, priority));
    }
}

proof fn lemma_no_priority(rules: Seq<AnyRule>, priority: i64)
    requires
        forall|i: int|
            0 <= i < rules.len() ==> (#[trigger] rules[i]).own_priority() != priority,
    ensures
        with_priority(rules, priority) == Seq::<AnyRule>::empty(),
    decreases rules.len(),
{
    if rules.len() > 0 {
        lemma_no_priority(rules.drop_last(), priority);
        assert(rules[rules.len() - 1].own_priority() != priority);
    }
}

/// A rule after those of its own or a lower number, before the rest, keeps the order.
proof fn lemma_insert_keeps_order(
    all: Seq<AnyRule>,
    ordered: Seq<AnyRule>,
    rule: AnyRule,
    at: int,
)
    requires
        is_stable_order(all, ordered),
        0 <= at <= ordered.len(),
        forall|i: int|
            0 <= i < at ==> (#[trigger] ordered[i]).own_priority() <= rule.own_priority(),
        forall|i: int|
            at <= i < ordered.len() ==> (#[trigger] ordered[i]).own_priority()
                > rule.own_priority(),
    ensures
        is_stable_order(all.push(rule), ordered.insert(at, rule)),
{
    let inserted = ordered.insert(at, rule);
    let front = ordered.take(at);
    let back = ordered.skip(at);
    assert(ordered =~= front + back);
    assert(inserted =~= front.push(rule) + back);
    assert forall|priority: i64| #[trigger]
        with_priority(inserted, priority) == with_priority(all.push(rule), priority) by {
        lemma_with_priority_joins(front, back, priority);
        lemma_with_priority_joins(front.push(rule), back, priority);
        assert(front.push(rule).drop_last() =~= front);
        assert(all.push(rule).drop_last() =~= all);
        assert(with_priority(ordered, priority) == with_priority(all, priority));
        if priority == rule.own_priority() {
            assert forall|i: int| 0 <= i < back.len() implies (#[trigger] back[i]).own_priority()
                != priority by {
                assert(back[i] == ordered[at + i]);
            }
            lemma_no_priority(back, priority);
            assert(with_priority(inserted, priority) =~= with_priority(ordered, priority).push(
                rule,
            ));
        }
    }
    assert forall|i: int, j: int| 0 <= i < j < inserted.len() implies (
    #[trigger] inserted[i]).own_priority() <= (#[trigger] inserted[j]).own_priority() by {
        if i < at {
            assert(inserted[i] == ordered[i]);
            if j > at {
                assert(inserted[j] == ordered[j - 1]);
            } else if j < at {
                assert(inserted[j] == ordered[j]);
            }
        } else {
            assert(inserted[j] == ordered[j - 1]);
            if i > at {
                assert(inserted[i] == ordered[i - 1]);
            }
        }
    }
}

/// The rules by priority.
pub(crate) fn order_rules(rules: &Vec<Arc<AnyRule>>) -> (ordered: Vec<Arc<AnyRule>>)
    ensures
        is_stable_order(rule_list(rules@), rule_list(ordered@)),
{
    let mut ordered: Vec<Arc<AnyRule>> = Vec::new();
    let ghost all = rule_list(rules@);
    let mut index: usize = 0;
    assert(rule_list(ordered@) =~= all.take(0));
    while index < rules.len()
        invariant
            index <= rules@.len(),
            all == rule_list(rules@),
            is_stable_order(all.take(index as int), rule_list(ordered@)),
        decreases rules@.len() - index,
    {
        let rule = share(&rules[index]);
        let priority: i64 = rule.priority();
        let ghost before = rule_list(ordered@);
        let mut at: usize = ordered.len();
        while at > 0 && ordered[at - 1].priority() > priority
            invariant
                at <= ordered@.len(),
                before == rule_list(ordered@),
                is_sorted(before),
                forall|i: int|
                    at <= i < before.len() ==> (#[trigger] before[i]).own_priority() > priority,
            decreases at,
        {
            assert(before[at - 1] == *ordered@[at - 1]);
            at -= 1;
        }
        proof {
            if at > 0 {
                assert(before[at - 1] == *ordered@[at - 1]);
                assert forall|i: int| 0 <= i < at implies (#[trigger] before[i]).own_priority()
                    <= priority by {
                    if i < at - 1 {
                        assert(before[i].own_priority() <= before[at - 1].own_priority());
                    }
                }
            }
            lemma_insert_keeps_order(all.take(index as int), before, all[index as int], at as int);
            assert(all.take(index + 1) =~= all.take(index as int).push(all[index as int]));
        }
        ordered.insert(at, rule);
        assert(rule_list(ordered@) =~= before.insert(at as int, all[index as int]));
        index += 1;
    }
    assert(all.take(all.len() as int) =~= all);
    ordered
}

proof fn lemma_stable_order_holds_the_same(all: Seq<AnyRule>, ordered: Seq<AnyRule>, rule: AnyRule)
    requires
        is_stable_order(all, ordered),
    ensures
        all.contains(rule) <==> ordered.contains(rule),
{
    let priority = rule.own_priority();
    assert(with_priority(ordered, priority) == with_priority(all, priority));
    lemma_with_priority_holds(all, rule);
    lemma_with_priority_holds(ordered, rule);
}

proof fn lemma_with_priority_holds(rules: Seq<AnyRule>, rule: AnyRule)
    ensures
        rules.contains(rule) <==> with_priority(rules, rule.own_priority()).contains(rule),
    decreases rules.len(),
{
    let priority = rule.own_priority();
    if rules.len() > 0 {
        let front = rules.drop_last();
        lemma_with_priority_holds(front, rule);
        let kept = with_priority(front, priority);
        let all = with_priority(rules, priority);
        if rules.contains(rule) {
            let i = choose|i: int| 0 <= i < rules.len() && rules[i] == rule;
            if i < front.len() {
                assert(front[i] == rule);
                let k = choose|k: int| 0 <= k < kept.len() && kept[k] == rule;
                assert(all[k] == rule);
            } else {
                assert(all[kept.len() as int] == rule);
            }
        }
        if all.contains(rule) {
            let k = choose|k: int| 0 <= k < all.len() && all[k] == rule;
            if k < kept.len() {
                assert(kept[k] == rule);
                let i = choose|i: int| 0 <= i < front.len() && front[i] == rule;
                assert(rules[i] == rule);
            } else {
                assert(rules[rules.len() - 1] == rule);
            }
        }
    }
}

/// The rules by priority, with a fallback rule at the end where there is none.
pub(crate) fn merge_rules(rules: &Vec<Arc<AnyRule>>) -> (merged: Vec<Arc<AnyRule>>)
    ensures
        is_merged(rule_list(rules@), rule_list(merged@)),
{
    let mut merged = order_rules(rules);
    let ghost all = rule_list(rules@);
    let ghost ordered = rule_list(merged@);
    let mut found = false;
    let mut index: usize = 0;
    while index < merged.len()
        invariant
            index <= merged@.len(),
            ordered == rule_list(merged@),
            found ==> has_fallback(ordered),
            !found ==> forall|i: int| 0 <= i < index ==> !((#[trigger] ordered[i]) is Fallback),
        decreases merged@.len() - index,
    {
        assert(ordered[index as int] == *merged@[index as int]);
        match &*merged[index] {
            AnyRule::Fallback(_) => {
                assert(ordered[index as int] is Fallback);
                found = true;
            },
            _ => {},
        }
        index += 1;
    }
    proof {
        if has_fallback(all) {
            let i = choose|i: int| 0 <= i < all.len() && (#[trigger] all[i]) is Fallback;
            lemma_stable_order_holds_the_same(all, ordered, all[i]);
            let k = choose|k: int| 0 <= k < ordered.len() && ordered[k] == all[i];
            assert(ordered[k] is Fallback);
        }
        if has_fallback(ordered) {
            let i = choose|i: int| 0 <= i < ordered.len() && (#[trigger] ordered[i]) is Fallback;
            lemma_stable_order_holds_the_same(all, ordered, ordered[i]);
            let k = choose|k: int| 0 <= k < all.len() && all[k] == ordered[i];
            assert(all[k] is Fallback);
        }
    }
    if !found {
        let exits: Vec<OutExit> = vec![OutExit::Direct];
        assert(exit_views(exits@) =~= seq![Exit::Direct]);
        let fallback = Arc::new(AnyRule::Fallback(FallbackRule { exits }));
        merged.push(fallback);
        assert(rule_list(merged@).drop_last() =~= ordered);
        assert(rule_list(merged@).last() == *fallback);
    }
    merged
}

proof fn lemma_last_of_priority(rules: Seq<AnyRule>)
    requires
        rules.len() > 0,
    ensures
        with_priority(rules, rules.last().own_priority()).len() > 0,
        with_priority(rules, rules.last().own_priority()).last() == rules.last(),
{
}

proof fn lemma_priority_occurs(rules: Seq<AnyRule>, priority: i64)
    requires
        with_priority(rules, priority).len() > 0,
    ensures
        exists|i: int| 0 <= i < rules.len() && (#[trigger] rules[i]).own_priority() == priority,
    decreases rules.len(),
{
    if rules.len() > 0 {
        if rules.last().own_priority() == priority {
            assert(rules[rules.len() - 1].own_priority() == priority);
        } else {
            let front = rules.drop_last();
            lemma_priority_occurs(front, priority);
            let i = choose|i: int|
                0 <= i < front.len() && (#[trigger] front[i]).own_priority() == priority;
            assert(rules[i].own_priority() == priority);
        }
    }
}

proof fn lemma_same_order(a: Seq<AnyRule>, b: Seq<AnyRule>)
    requires
        is_sorted(a),
        is_sorted(b),
        forall|priority: i64| #[trigger] with_priority(a, priority) == with_priority(b, priority),
    ensures
        a == b,
    decreases a.len(),
{
    if a.len() == 0 {
        if b.len() > 0 {
            lemma_last_of_priority(b);
            assert(with_priority(a, b.last().own_priority()).len() > 0);
        }
        assert(a =~= b);
    } else {
        let p = a.last().own_priority();
        lemma_last_of_priority(a);
        assert(with_priority(a, p) == with_priority(b, p));
        lemma_priority_occurs(b, p);
        let i = choose|i: int| 0 <= i < b.len() && (#[trigger] b[i]).own_priority() == p;
        let q = b.last().own_priority();
        lemma_last_of_priority(b);
        assert(with_priority(a, q) == with_priority(b, q));
        lemma_priority_occurs(a, q);
        let j = choose|j: int| 0 <= j < a.len() && (#[trigger] a[j]).own_priority() == q;
        if j < a.len() - 1 {
            assert(a[j].own_priority() <= a[a.len() - 1].own_priority());
        }
        if i < b.len() - 1 {
            assert(b[i].own_priority() <= b[b.len() - 1].own_priority());
        }
        assert(p == q);
        let front = a.drop_last();
        let other = b.drop_last();
        assert forall|priority: i64| #[trigger]
            with_priority(front, priority) == with_priority(other, priority) by {
            assert(with_priority(a, priority) == with_priority(b, priority));
            if priority == p {
                assert(with_priority(a, p).drop_last() =~= with_priority(front, p));
                assert(with_priority(b, p).drop_last() =~= with_priority(other, p));
            }
        }
        lemma_same_order(front, other);
        assert(a =~= front.push(a.last()));
        assert(b =~= other.push(b.last()));
    }
}

/// The order of rules is fixed by the rules and the order that they came in.
pub proof fn law_order_of_rules_is_unique(
    all: Seq<AnyRule>,
    ordered: Seq<AnyRule>,
    other: Seq<AnyRule>,
)
    requires
        is_stable_order(all, ordered),
        is_stable_order(all, other),
    ensures
        ordered == other,
{
    assert forall|priority: i64| #[trigger]
        with_priority(ordered, priority) == with_priority(other, priority) by {
        assert(with_priority(ordered, priority) == with_priority(all, priority));
        assert(with_priority(other, priority) == with_priority(all, priority));
    }
    lemma_same_order(ordered, other);
}

/// Every rule is among the merged ones.
pub proof fn lemma_merged_holds(all: Seq<AnyRule>, merged: Seq<AnyRule>, rule: AnyRule)
    requires
        is_merged(all, merged),
        all.contains(rule),
    ensures
        merged.contains(rule),
{
    if has_fallback(all) {
        lemma_stable_order_holds_the_same(all, merged, rule);
    } else {
        let ordered = merged.drop_last();
        lemma_stable_order_holds_the_same(all, ordered, rule);
        let i = choose|i: int| 0 <= i < ordered.len() && ordered[i] == rule;
        assert(merged[i] == rule);
    }
}

/// Merged rules always hold a fallback rule.
pub proof fn law_merged_rules_have_a_fallback(all: Seq<AnyRule>, merged: Seq<AnyRule>)
    requires
        is_merged(all, merged),
    ensures
        has_fallback(merged),
{
    if has_fallback(all) {
        let i = choose|i: int| 0 <= i < all.len() && (#[trigger] all[i]) is Fallback;
        assert(all.contains(all[i]));
        lemma_stable_order_holds_the_same(all, merged, all[i]);
        let k = choose|k: int| 0 <= k < merged.len() && merged[k] == all[i];
        assert(merged[k] is Fallback);
    } else {
        assert(merged[merged.len() - 1] is Fallback);
    }
}

/// Merged rules are by priority.
pub proof fn law_merged_rules_are_sorted(all: Seq<AnyRule>, merged: Seq<AnyRule>)
    requires
        is_merged(all, merged),
    ensures
        is_sorted(merged),
{
    if !has_fallback(all) {
        let ordered = merged.drop_last();
        assert forall|i: int, j: int| 0 <= i < j < merged.len() implies (
        #[trigger] merged[i]).own_priority() <= (#[trigger] merged[j]).own_priority() by {
            if j < ordered.len() {
                assert(ordered[i].own_priority() <= ordered[j].own_priority());
            }
        }
    }
}

/// Rules come in the order of their numbers, the lowest first; among equal numbers they keep the
/// order in which they were given, and none is lost or added.
pub proof fn law_lower_numbers_come_first(
    all: Seq<AnyRule>,
    ordered: Seq<AnyRule>,
    i: int,
    j: int,
    priority: i64,
)
    requires
        is_stable_order(all, ordered),
    ensures
        0 <= i < j < ordered.len() ==> ordered[i].own_priority() <= ordered[j].own_priority(),
        ordered.filter(|rule: AnyRule| rule.own_priority() == priority) == all.filter(
            |rule: AnyRule| rule.own_priority() == priority,
        ),
{
    lemma_with_priority_is_filter(all, priority);
    lemma_with_priority_is_filter(ordered, priority);
    assert(with_priority(ordered, priority) == with_priority(all, priority));
}

proof fn lemma_with_priority_is_filter(rules: Seq<AnyRule>, priority: i64)
    ensures
        with_priority(rules, priority) == rules.filter(
            |rule: AnyRule| rule.own_priority() == priority,
        ),
    decreases rules.len(),
{
    reveal(Seq::filter);
    if rules.len() > 0 {
        lemma_with_priority_is_filter(rules.drop_last(), priority);
    }
}

/// Where no fallback is given, one that goes out directly is put behind all the others; where one
/// is given, nothing is added.
pub proof fn law_missing_fallback_is_direct(all: Seq<AnyRule>, merged: Seq<AnyRule>)
    requires
        is_merged(all, merged),
    ensures
        (exists|i: int| 0 <= i < all.len() && (#[trigger] all[i]) is Fallback) ==> is_stable_order(
            all,
            merged,
        ),
        !(exists|i: int| 0 <= i < all.len() && (#[trigger] all[i]) is Fallback) ==> merged.len() > 0
            && is_stable_order(all, merged.drop_last()) && merged.last() is Fallback && exit_views(
            merged.last().own_exits(),
        ) == seq![Exit::Direct],
{
}

/// But for an added fallback no rule is among the merged ones that was not given.
pub proof fn lemma_merged_holds_no_other(all: Seq<AnyRule>, merged: Seq<AnyRule>, rule: AnyRule)
    requires
        is_merged(all, merged),
        merged.contains(rule),
        !(rule is Fallback),
    ensures
        all.contains(rule),
{
    if has_fallback(all) {
        lemma_stable_order_holds_the_same(all, merged, rule);
    } else {
        let ordered = merged.drop_last();
        let i = choose|i: int| 0 <= i < merged.len() && merged[i] == rule;
        assert(i < ordered.len());
        assert(ordered[i] == rule);
        lemma_stable_order_holds_the_same(all, ordered, rule);
    }
}

} // verus!
