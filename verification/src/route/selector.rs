//! Selectors of Geosite lists.

use vstd::prelude::*;
use vstd::string::*;

use super::domain::{
    ascii_lowercase, ascii_uppercase, lemma_push_text, lowered_text, text_views, uppered_text,
};
use crate::text::{chars_of, same_text};

verus! {

/// The parts of a text between occurrences of a separator.
pub open spec fn split_text(text: Seq<char>, separator: char) -> Seq<Seq<char>>
    decreases text.len(),
{
    if text.len() == 0 {
        seq![Seq::empty()]
    } else {
        let parts = split_text(text.drop_last(), separator);
        if text.last() == separator {
            parts.push(Seq::empty())
        } else {
            parts.drop_last().push(parts.last().push(text.last()))
        }
    }
}

/// The parts of a text between occurrences of a separator.
pub fn split_parts(text: &str, separator: char) -> (parts: Vec<String>)
    ensures
        text_views(parts@) == split_text(text@, separator),
        parts@.len() > 0,
{
    let chars = chars_of(text);
    let mut parts: Vec<String> = Vec::new();
    let mut start: usize = 0;
    let mut index: usize = 0;
    proof {
        assert(text@.take(0) =~= Seq::empty());
        assert(text@.subrange(0, 0) =~= Seq::empty());
        assert(text_views(parts@) =~= Seq::empty());
        assert(Seq::<Seq<char>>::empty().push(Seq::empty()) =~= seq![Seq::empty()]);
    }
    while index < chars.len()
        invariant
            chars@ == text@,
            start <= index <= text@.len(),
            text_views(parts@).push(text@.subrange(start as int, index as int)) == split_text(
                text@.take(index as int),
                separator,
            ),
        decreases text@.len() - index,
    {
        let ghost before = text_views(parts@);
        let ghost part = text@.subrange(start as int, index as int);
        proof {
            assert(text@.take(index + 1).drop_last() =~= text@.take(index as int));
            assert(before.push(part).drop_last() =~= before);
            assert(text@.subrange(start as int, index + 1) =~= part.push(text@[index as int]));
        }
        if chars[index] == separator {
            parts.push(text.substring_char(start, index).to_owned());
            proof {
                assert(text_views(parts@) =~= before.push(part));
                assert(text@.subrange(index + 1, index + 1) =~= Seq::empty());
            }
            start = index + 1;
        }
        index += 1;
    }
    let ghost before = text_views(parts@);
    parts.push(text.substring_char(start, chars.len()).to_owned());
    proof {
        assert(text_views(parts@) =~= before.push(
            text@.subrange(start as int, text@.len() as int),
        ));
        assert(text@.take(text@.len() as int) =~= text@);
    }
    parts
}

/// A selector in mathematical form.
#[verifier::ext_equal]
pub struct SelectorModel {
    pub site: Seq<char>,
    pub attributes: Seq<Seq<char>>,
}

/// A Geosite list, or the part of one that has one of some attributes.
#[derive(Debug, PartialEq, Eq, Hash)]
pub struct GeositeDomainMatcher {
    pub site: String,
    pub attributes: Vec<String>,
}

impl View for GeositeDomainMatcher {
    type V = SelectorModel;

    open spec fn view(&self) -> SelectorModel {
        SelectorModel { site: self.site@, attributes: text_views(self.attributes@) }
    }
}

/// What stands before the selector in a rule.
pub open spec fn geosite_prefix() -> Seq<char> {
    "geosite:"@
}

/// Whether an expression names a Geosite list.
pub open spec fn is_geosite_expression(expression: Seq<char>) -> bool {
    geosite_prefix().is_prefix_of(expression)
}

/// The list name and the attributes of an expression.
pub open spec fn geosite_parts(expression: Seq<char>) -> Seq<Seq<char>> {
    split_text(expression.skip(geosite_prefix().len() as int), '@')
}

/// Neither the list name nor an attribute of the expression is empty.
pub open spec fn geosite_parts_are_named(expression: Seq<char>) -> bool {
    forall|i: int|
        0 <= i < geosite_parts(expression).len() ==> (#[trigger] geosite_parts(expression)[i]).len()
            > 0
}

/// The selector that an expression stands for: the list name in upper case, the attributes in
/// lower case.
pub open spec fn parsed_selector(expression: Seq<char>) -> SelectorModel {
    let parts = geosite_parts(expression);
    SelectorModel {
        site: uppered_text(parts[0]),
        attributes: parts.skip(1).map_values(|part: Seq<char>| lowered_text(part)),
    }
}

/// Whether `text` begins with `prefix`.
pub fn has_prefix(text: &str, prefix: &str) -> (result: bool)
    ensures
        result == prefix@.is_prefix_of(text@),
{
    let length: usize = prefix.unicode_len();
    if text.unicode_len() < length {
        return false;
    }
    assert(text@.subrange(0, length as int) =~= text@.take(length as int));
    let same = same_text(text.substring_char(0, length), prefix);
    proof {
        if same {
            assert forall|i: int| 0 <= i < length implies text@[i] == prefix@[i] by {
                assert(text@.take(length as int)[i] == text@[i]);
            }
            assert(prefix@.is_prefix_of(text@));
        } else if prefix@.is_prefix_of(text@) {
            assert(text@.take(length as int) =~= prefix@);
        }
    }
    same
}

fn geosite_selector(expression: &str) -> (parts: Vec<String>)
    requires
        is_geosite_expression(expression@),
    ensures
        text_views(parts@) == geosite_parts(expression@),
        parts@.len() > 0,
{
    let length: usize = "geosite:".unicode_len();
    let end: usize = expression.unicode_len();
    assert(expression@.subrange(length as int, end as int) =~= expression@.skip(length as int));
    split_parts(expression.substring_char(length, end), '@')
}

impl GeositeDomainMatcher {
    /// Whether an expression that names a Geosite list can be parsed.
    pub fn is_usable(expression: &str) -> (result: bool)
        requires
            is_geosite_expression(expression@),
        ensures
            result == geosite_parts_are_named(expression@),
    {
        let parts = geosite_selector(expression);
        let mut index: usize = 0;
        while index < parts.len()
            invariant
                index <= parts@.len(),
                text_views(parts@) == geosite_parts(expression@),
                forall|i: int|
                    0 <= i < index ==> (#[trigger] geosite_parts(expression@)[i]).len() > 0,
            decreases parts@.len() - index,
        {
            assert(geosite_parts(expression@)[index as int] == parts@[index as int]@);
            if parts[index].as_str().unicode_len() == 0 {
                return false;
            }
            index += 1;
        }
        assert(geosite_parts(expression@).len() == parts@.len());
        true
    }

    /// The selector that an expression stands for.
    pub fn parse(expression: &str) -> (matcher: Self)
        requires
            is_geosite_expression(expression@),
            geosite_parts_are_named(expression@),
        ensures
            matcher@ == parsed_selector(expression@),
    {
        let parts = geosite_selector(expression);
        let ghost views = text_views(parts@);
        let mut attributes: Vec<String> = Vec::new();
        let mut index: usize = 1;
        while index < parts.len()
            invariant
                1 <= index <= parts@.len(),
                views == text_views(parts@),
                text_views(attributes@) =~= views.subrange(1, index as int).map_values(
                    |part: Seq<char>| lowered_text(part),
                ),
            decreases parts@.len() - index,
        {
            let attribute = ascii_lowercase(parts[index].as_str());
            proof {
                lemma_push_text(attributes@, attribute);
                assert(views.subrange(1, index + 1) =~= views.subrange(1, index as int).push(
                    views[index as int],
                ));
            }
            attributes.push(attribute);
            index += 1;
        }
        assert(views.subrange(1, views.len() as int) =~= views.skip(1));
        GeositeDomainMatcher { site: ascii_uppercase(parts[0].as_str()), attributes }
    }

    /// Whether two selectors are the same.
    pub fn same(&self, other: &Self) -> (result: bool)
        ensures
            result == (self@ == other@),
    {
        if !same_text(self.site.as_str(), other.site.as_str()) {
            return false;
        }
        same_texts(&self.attributes, &other.attributes)
    }
}

impl Clone for GeositeDomainMatcher {
    fn clone(&self) -> (matcher: Self)
        ensures
            matcher@ == self@,
    {
        let mut attributes: Vec<String> = Vec::new();
        let mut index: usize = 0;
        while index < self.attributes.len()
            invariant
                index <= self.attributes@.len(),
                text_views(attributes@) =~= text_views(self.attributes@).take(index as int),
            decreases self.attributes@.len() - index,
        {
            proof {
                lemma_push_text(attributes@, self.attributes@[index as int]);
                assert(text_views(self.attributes@).take(index + 1) =~= text_views(
                    self.attributes@,
                ).take(index as int).push(self.attributes@[index as int]@));
            }
            attributes.push(self.attributes[index].clone());
            index += 1;
        }
        GeositeDomainMatcher { site: self.site.clone(), attributes }
    }
}

/// Whether two lists hold the same texts.
pub fn same_texts(a: &Vec<String>, b: &Vec<String>) -> (result: bool)
    ensures
        result == (text_views(a@) == text_views(b@)),
{
    if a.len() != b.len() {
        assert(text_views(a@).len() != text_views(b@).len());
        return false;
    }
    let mut index: usize = 0;
    while index < a.len()
        invariant
            index <= a@.len(),
            a@.len() == b@.len(),
            forall|i: int| 0 <= i < index ==> #[trigger] a@[i]@ == b@[i]@,
        decreases a@.len() - index,
    {
        if !same_text(a[index].as_str(), b[index].as_str()) {
            assert(text_views(a@)[index as int] != text_views(b@)[index as int]);
            return false;
        }
        index += 1;
    }
    assert(text_views(a@) =~= text_views(b@));
    true
}

/// Whether a text is in a list.
pub fn lists_text(texts: &Vec<String>, text: &str) -> (result: bool)
    ensures
        result == text_views(texts@).contains(text@),
{
    let mut index: usize = 0;
    while index < texts.len()
        invariant
            index <= texts@.len(),
            forall|i: int| 0 <= i < index ==> #[trigger] texts@[i]@ != text@,
        decreases texts@.len() - index,
    {
        if same_text(texts[index].as_str(), text) {
            assert(text_views(texts@)[index as int] == text@);
            return true;
        }
        index += 1;
    }
    proof {
        if text_views(texts@).contains(text@) {
            let i = choose|i: int|
                0 <= i < text_views(texts@).len() && text_views(texts@)[i] == text@;
            assert(texts@[i]@ == text@);
        }
    }
    false
}

/// Splitting a text at a separator gives what stands between the separators.
pub proof fn law_split_text_gives_the_parts(text: Seq<char>, part: Seq<char>, separator: char)
    requires
        !part.contains(separator),
    ensures
        split_text(part, separator) == seq![part],
        split_text(text + seq![separator] + part, separator) == split_text(text, separator).push(
            part,
        ),
    decreases part.len(),
{
    let all = text + seq![separator] + part;
    if part.len() == 0 {
        assert(all.drop_last() =~= text);
        assert(all.last() == separator);
        assert(part =~= Seq::empty());
    } else {
        let front = part.drop_last();
        assert(part.contains(part[part.len() - 1]));
        assert(!front.contains(separator)) by {
            if front.contains(separator) {
                let i = choose|i: int| 0 <= i < front.len() && front[i] == separator;
                assert(part[i] == separator);
            }
        }
        law_split_text_gives_the_parts(text, front, separator);
        assert(all.drop_last() =~= text + seq![separator] + front);
        assert(all.last() == part.last());
        assert(front.push(part.last()) =~= part);
        assert(split_text(part, separator) =~= seq![part]);
        let before = split_text(text, separator);
        assert(before.push(front).drop_last() =~= before);
        assert(split_text(all, separator) =~= before.push(part));
    }
}

/// A Geosite expression names its list in any letter case, which is looked up in upper case.
pub proof fn law_geosite_expressions_name_their_list(site: Seq<char>, attribute: Seq<char>)
    requires
        !site.contains('@'),
        !attribute.contains('@'),
    ensures
        ({
            let expression = "geosite:"@ + site;
            &&& is_geosite_expression(expression)
            &&& parsed_selector(expression).site == uppered_text(site)
            &&& parsed_selector(expression).attributes.len() == 0
            &&& geosite_parts_are_named(expression) <==> site.len() > 0
        }),
        ({
            let expression = "geosite:"@ + (site + seq!['@'] + attribute);
            &&& is_geosite_expression(expression)
            &&& parsed_selector(expression).site == uppered_text(site)
            &&& parsed_selector(expression).attributes == seq![lowered_text(attribute)]
            &&& geosite_parts_are_named(expression) <==> site.len() > 0 && attribute.len() > 0
        }),
{
    let plain = "geosite:"@ + site;
    let longer = "geosite:"@ + (site + seq!['@'] + attribute);
    let start = geosite_prefix().len() as int;
    assert(geosite_prefix().is_prefix_of(plain));
    assert(geosite_prefix().is_prefix_of(longer));
    assert(plain.skip(start) =~= site);
    assert(longer.skip(start) =~= site + seq!['@'] + attribute);
    law_split_text_gives_the_parts(site, site, '@');
    law_split_text_gives_the_parts(site, attribute, '@');
    assert(geosite_parts(plain) == seq![site]);
    assert(geosite_parts(longer) =~= seq![site, attribute]);
    assert(geosite_parts(plain)[0] == site);
    assert(geosite_parts(longer)[0] == site && geosite_parts(longer)[1] == attribute);
    assert(parsed_selector(longer).attributes =~= seq![lowered_text(attribute)]);
}

} // verus!
