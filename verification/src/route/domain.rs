//! Domain names as rules compare them.

use vstd::prelude::*;
use vstd::string::*;

use crate::text::chars_of;

verus! {

/// An ASCII letter in lower case; any other character as it is.
pub open spec fn lower_char(character: char) -> char {
    if 'A' <= character <= 'Z' {
        (character as int + 32) as char
    } else {
        character
    }
}

/// An ASCII letter in upper case; any other character as it is.
pub open spec fn upper_char(character: char) -> char {
    if 'a' <= character <= 'z' {
        (character as int - 32) as char
    } else {
        character
    }
}

/// A text with its ASCII letters in lower case.
pub open spec fn lowered_text(text: Seq<char>) -> Seq<char> {
    text.map_values(|character: char| lower_char(character))
}

/// A text with its ASCII letters in upper case.
pub open spec fn uppered_text(text: Seq<char>) -> Seq<char> {
    text.map_values(|character: char| upper_char(character))
}

/// A text without the dots at its end.
pub open spec fn without_end_dots(text: Seq<char>) -> Seq<char>
    decreases text.len(),
{
    if text.len() > 0 && text.last() == '.' {
        without_end_dots(text.drop_last())
    } else {
        text
    }
}

/// A domain as rules compare it: without dots at its end, in lower case.
pub open spec fn comparable(domain: Seq<char>) -> Seq<char> {
    lowered_text(without_end_dots(domain))
}

/// Dots that may stand at the end of a domain.
pub open spec fn end_dots(count: nat) -> Seq<char> {
    Seq::new(count, |i: int| '.')
}

proof fn lemma_end_dots_do_not_count(domain: Seq<char>, dots: nat)
    ensures
        without_end_dots(domain + end_dots(dots)) == without_end_dots(domain),
    decreases dots,
{
    if dots == 0 {
        assert(domain + end_dots(dots) =~= domain);
    } else {
        let fewer = (dots - 1) as nat;
        assert((domain + end_dots(dots)).drop_last() =~= domain + end_dots(fewer));
        lemma_end_dots_do_not_count(domain, fewer);
    }
}

proof fn lemma_case_does_not_count(domain: Seq<char>, other: Seq<char>)
    requires
        lowered_text(domain) == lowered_text(other),
    ensures
        comparable(domain) == comparable(other),
    decreases domain.len(),
{
    assert(lowered_text(domain).len() == lowered_text(other).len());
    if domain.len() > 0 {
        assert(lowered_text(domain).last() == lower_char(domain.last()));
        assert(lowered_text(other).last() == lower_char(other.last()));
        assert(lowered_text(domain.drop_last()) =~= lowered_text(domain).drop_last());
        assert(lowered_text(other.drop_last()) =~= lowered_text(other).drop_last());
        if domain.last() == '.' {
            lemma_case_does_not_count(domain.drop_last(), other.drop_last());
        }
    }
}

/// Neither the case of ASCII letters nor the number of dots at the end tells domains apart.
pub proof fn lemma_comparable_names(
    domain: Seq<char>,
    other: Seq<char>,
    dots: nat,
    other_dots: nat,
)
    requires
        lowered_text(domain) == lowered_text(other),
    ensures
        comparable(domain + end_dots(dots)) == comparable(other + end_dots(other_dots)),
{
    lemma_end_dots_do_not_count(domain, dots);
    lemma_end_dots_do_not_count(other, other_dots);
    lemma_case_does_not_count(domain, other);
}

/// Whether a domain is `root` itself or lies under it.
pub open spec fn within(domain: Seq<char>, root: Seq<char>) -> bool {
    domain == root || (domain.len() > root.len() && domain.skip(domain.len() - root.len()) == root
        && domain[domain.len() - root.len() - 1] == '.')
}

/// Whether `part` stands at `at` in `text`.
pub open spec fn stands_at(text: Seq<char>, part: Seq<char>, at: int) -> bool {
    0 <= at <= text.len() - part.len() && text.subrange(at, at + part.len()) == part
}

/// Whether `part` stands somewhere in `text`.
pub open spec fn holds_text(text: Seq<char>, part: Seq<char>) -> bool {
    exists|at: int| stands_at(text, part, at)
}

/// The characters of each text.
pub open spec fn text_views(texts: Seq<String>) -> Seq<Seq<char>> {
    texts.map_values(|text: String| text@)
}

/// One more text is one more view.
pub proof fn lemma_push_text(texts: Seq<String>, text: String)
    ensures
        text_views(texts.push(text)) == text_views(texts).push(text@),
{
    assert(text_views(texts.push(text)) =~= text_views(texts).push(text@));
}

/// `str::to_ascii_lowercase`: the ASCII letters A to Z become a to z, every other character stays.
#[verifier::external_body]
pub(crate) fn ascii_lowercase(text: &str) -> (lowered: String)
    ensures
        lowered@ == lowered_text(text@),
{
    text.to_ascii_lowercase()
}

/// `str::to_ascii_uppercase`: the ASCII letters a to z become A to Z, every other character stays.
#[verifier::external_body]
pub(crate) fn ascii_uppercase(text: &str) -> (uppered: String)
    ensures
        uppered@ == uppered_text(text@),
{
    text.to_ascii_uppercase()
}

/// The text without the dots at its end.
pub fn trim_end_dots(text: &str) -> (trimmed: &str)
    ensures
        trimmed@ == without_end_dots(text@),
{
    let chars = chars_of(text);
    let mut end: usize = chars.len();
    assert(text@.take(text@.len() as int) =~= text@);
    while end > 0 && chars[end - 1] == '.'
        invariant
            chars@ == text@,
            end <= text@.len(),
            without_end_dots(text@.take(end as int)) == without_end_dots(text@),
        decreases end,
    {
        assert(text@.take(end as int).drop_last() =~= text@.take(end - 1));
        end -= 1;
    }
    assert(text@.subrange(0, end as int) =~= text@.take(end as int));
    text.substring_char(0, end)
}

/// The domain as rules compare it.
pub fn comparable_domain(domain: &str) -> (result: String)
    ensures
        result@ == comparable(domain@),
{
    ascii_lowercase(trim_end_dots(domain))
}

/// Whether `part` stands at `at` among `chars`.
fn part_at(chars: &Vec<char>, part: &Vec<char>, at: usize) -> (result: bool)
    requires
        at + part@.len() <= chars@.len(),
    ensures
        result == stands_at(chars@, part@, at as int),
{
    let length: usize = chars.len();
    let mut index: usize = 0;
    while index < part.len()
        invariant
            index <= part@.len(),
            length == chars@.len(),
            at + part@.len() <= length,
            forall|i: int| 0 <= i < index ==> chars@[at + i] == #[trigger] part@[i],
        decreases part@.len() - index,
    {
        if chars[at + index] != part[index] {
            proof {
                if chars@.subrange(at as int, at + part@.len()) == part@ {
                    assert(chars@.subrange(at as int, at + part@.len())[index as int]
                        == chars@[at + index]);
                }
            }
            return false;
        }
        index += 1;
    }
    assert(chars@.subrange(at as int, at + part@.len()) =~= part@);
    true
}

/// Whether a domain is `root` itself or lies under it.
pub fn is_within(domain: &str, root: &str) -> (result: bool)
    ensures
        result == within(domain@, root@),
{
    let chars = chars_of(domain);
    let root_chars = chars_of(root);
    if chars.len() < root_chars.len() {
        return false;
    }
    let start: usize = chars.len() - root_chars.len();
    proof {
        assert(chars@.subrange(start as int, chars@.len() as int) =~= chars@.skip(start as int));
        if start == 0 {
            assert(chars@.skip(0) =~= chars@);
        }
    }
    part_at(&chars, &root_chars, start) && (start == 0 || chars[start - 1] == '.')
}

/// Whether `part` stands somewhere in `text`.
pub fn contains_text(text: &str, part: &str) -> (result: bool)
    ensures
        result == holds_text(text@, part@),
{
    let chars = chars_of(text);
    let part_chars = chars_of(part);
    if chars.len() < part_chars.len() {
        return false;
    }
    let last: usize = chars.len() - part_chars.len();
    let mut at: usize = 0;
    while at < last
        invariant
            chars@ == text@,
            part_chars@ == part@,
            last == text@.len() - part@.len(),
            at <= last,
            forall|i: int| 0 <= i < at ==> !#[trigger] stands_at(text@, part@, i),
        decreases last - at,
    {
        if part_at(&chars, &part_chars, at) {
            return true;
        }
        at += 1;
    }
    part_at(&chars, &part_chars, last)
}

/// A domain lies within a root exactly where it is the root or ends in a dot and the root.
pub proof fn law_subdomains_end_in_a_dot_and_the_root(domain: Seq<char>, root: Seq<char>)
    ensures
        within(domain, root) <==> domain == root || exists|prefix: Seq<char>|
            domain == #[trigger] (prefix + seq!['.'] + root),
{
    let start = domain.len() - root.len();
    if within(domain, root) && domain != root {
        let prefix = domain.take(start - 1);
        assert(domain =~= prefix + seq!['.'] + root) by {
            assert forall|i: int| start <= i < domain.len() implies domain[i] == root[i - start] by {
                assert(domain.skip(start)[i - start] == domain[i]);
            }
        }
    }
    if exists|prefix: Seq<char>| domain == #[trigger] (prefix + seq!['.'] + root) {
        let prefix = choose|prefix: Seq<char>| domain == #[trigger] (prefix + seq!['.'] + root);
        assert(domain.skip(start) =~= root);
        assert(domain[start - 1] == '.');
    }
}

/// Rules compare domains in one form: without dots at the end and without upper-case ASCII letters,
/// whatever the case and the dots at the end were; everything else of the domain stays.
pub proof fn law_compared_domains_have_one_form(domain: Seq<char>, dots: nat)
    ensures
        comparable(domain).len() > 0 ==> comparable(domain).last() != '.',
        forall|i: int|
            0 <= i < comparable(domain).len() ==> !('A' <= #[trigger] comparable(domain)[i] <= 'Z'),
        comparable(domain + end_dots(dots)) == comparable(domain),
        comparable(comparable(domain)) == comparable(domain),
        domain.len() > 0 && domain.last() != '.' ==> comparable(domain).len() == domain.len(),
        domain.len() > 0 && domain.last() != '.' && (forall|i: int|
            0 <= i < domain.len() ==> !('A' <= #[trigger] domain[i] <= 'Z')) ==> comparable(domain)
            == domain,
{
    lemma_end_dots_do_not_count(domain, dots);
    lemma_without_end_dots(domain);
    let bare = without_end_dots(domain);
    let name = comparable(domain);
    if bare.len() > 0 {
        assert(name.last() == lower_char(bare.last()));
    }
    assert forall|i: int| 0 <= i < name.len() implies !('A' <= #[trigger] name[i] <= 'Z') by {
        assert(name[i] == lower_char(bare[i]));
    }
    assert(without_end_dots(name) == name);
    assert(lowered_text(name) =~= name);
    if domain.len() > 0 && domain.last() != '.' && forall|i: int|
        0 <= i < domain.len() ==> !('A' <= #[trigger] domain[i] <= 'Z') {
        assert(lowered_text(domain) =~= domain);
    }
}

proof fn lemma_without_end_dots(text: Seq<char>)
    ensures
        without_end_dots(text).len() > 0 ==> without_end_dots(text).last() != '.',
    decreases text.len(),
{
    if text.len() > 0 && text.last() == '.' {
        lemma_without_end_dots(text.drop_last());
    }
}

/// A text holds a part exactly where something, maybe nothing, stands before and behind it.
pub proof fn law_parts_are_found_anywhere(
    before: Seq<char>,
    part: Seq<char>,
    after: Seq<char>,
    text: Seq<char>,
)
    ensures
        holds_text(before + part + after, part),
        holds_text(text, part) ==> exists|front: Seq<char>, back: Seq<char>|
            text == #[trigger] (front + part + back),
{
    let whole = before + part + after;
    assert(whole.subrange(before.len() as int, (before.len() + part.len()) as int) =~= part);
    assert(stands_at(whole, part, before.len() as int));
    if holds_text(text, part) {
        let at = choose|at: int| stands_at(text, part, at);
        assert(text =~= text.take(at) + part + text.skip(at + part.len()));
    }
}

} // verus!
