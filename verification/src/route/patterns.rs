//! Regular expressions.

use vstd::prelude::*;

use super::domain::text_views;

verus! {

/// A compiled regular expression.
#[verifier::external_type_specification]
#[verifier::external_body]
pub struct ExRegex(regex::Regex);

/// A compiled list of regular expressions.
#[verifier::external_type_specification]
#[verifier::external_body]
pub struct ExRegexSet(regex::RegexSet);

/// Why a pattern does not compile.
#[verifier::external_type_specification]
#[verifier::external_body]
pub struct ExRegexError(regex::Error);

/// Whether `regex::Regex::new` compiles a pattern.
pub uninterp spec fn regex_compiles(pattern: Seq<char>) -> bool;

/// The pattern that an expression was compiled from (`regex::Regex::as_str`).
pub uninterp spec fn regex_pattern(regex: regex::Regex) -> Seq<char>;

/// Whether the expression compiled from a pattern matches somewhere in a text
/// (`regex::Regex::is_match`).
pub uninterp spec fn regex_matches(pattern: Seq<char>, text: Seq<char>) -> bool;

/// Whether `regex::RegexSet::new` compiles a list of patterns.
pub uninterp spec fn regex_set_compiles(patterns: Seq<Seq<char>>) -> bool;

/// The patterns that a set was compiled from.
pub uninterp spec fn regex_set_patterns(set: regex::RegexSet) -> Seq<Seq<char>>;

/// Whether one of the patterns matches a text.
pub open spec fn any_regex_matches(patterns: Seq<Seq<char>>, text: Seq<char>) -> bool {
    exists|i: int| 0 <= i < patterns.len() && regex_matches(#[trigger] patterns[i], text)
}

/// `regex::Regex::new`: the expression keeps its pattern. Which patterns compile is not stated.
#[verifier::external_body]
pub(crate) fn compile_regex(pattern: &str) -> (result: Result<regex::Regex, regex::Error>)
    ensures
        result is Ok <==> regex_compiles(pattern@),
        result matches Ok(regex) ==> regex_pattern(regex) == pattern@,
{
    regex::Regex::new(pattern)
}

/// `regex::Regex::is_match`: whether the expression matches somewhere in the text, which depends
/// on its pattern and the text alone. Which texts a pattern matches is not stated.
#[verifier::external_body]
pub(crate) fn regex_is_match(regex: &regex::Regex, text: &str) -> (matched: bool)
    ensures
        matched == regex_matches(regex_pattern(*regex), text@),
{
    regex.is_match(text)
}

/// `regex::Regex::as_str`: the pattern that the expression was compiled from.
#[verifier::external_body]
pub(crate) fn regex_text(regex: &regex::Regex) -> (pattern: String)
    ensures
        pattern@ == regex_pattern(*regex),
{
    regex.as_str().to_owned()
}

/// `regex::RegexSet::new`: the set keeps its patterns. Which lists compile is not stated.
#[verifier::external_body]
pub(crate) fn compile_regex_set(patterns: &Vec<String>) -> (result: Result<
    regex::RegexSet,
    regex::Error,
>)
    ensures
        result is Ok <==> regex_set_compiles(text_views(patterns@)),
        result matches Ok(set) ==> regex_set_patterns(set) == text_views(patterns@),
{
    regex::RegexSet::new(patterns)
}

/// `regex::RegexSet::is_match`: whether one of the expressions of the set matches somewhere in the
/// text.
#[verifier::external_body]
pub(crate) fn regex_set_is_match(set: &regex::RegexSet, text: &str) -> (matched: bool)
    ensures
        matched == any_regex_matches(regex_set_patterns(*set), text@),
{
    set.is_match(text)
}

} // verus!
