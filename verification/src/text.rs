//! ASCII text and byte-slice helpers shared by the parsers.

use vstd::prelude::*;
use vstd::utf8::*;

verus! {

/// The characters that ASCII bytes stand for.
pub open spec fn ascii_text(bytes: Seq<u8>) -> Seq<char> {
    bytes.map_values(|byte: u8| byte as char)
}

/// Every byte is below 128.
pub open spec fn all_ascii(bytes: Seq<u8>) -> bool {
    forall|i: int| 0 <= i < bytes.len() ==> #[trigger] bytes[i] < 128
}

pub open spec fn is_digit(byte: u8) -> bool {
    48 <= byte <= 57
}

pub open spec fn is_uppercase(byte: u8) -> bool {
    65 <= byte <= 90
}

pub open spec fn is_lowercase(byte: u8) -> bool {
    97 <= byte <= 122
}

pub open spec fn is_alphanumeric(byte: u8) -> bool {
    is_digit(byte) || is_uppercase(byte) || is_lowercase(byte)
}

/// Space, tab, line feed, form feed or carriage return.
pub open spec fn is_whitespace(byte: u8) -> bool {
    byte == 32 || byte == 9 || byte == 10 || byte == 12 || byte == 13
}

/// `byte` with an upper-case ASCII letter replaced by its lower-case form.
pub open spec fn lower(byte: u8) -> u8 {
    if is_uppercase(byte) {
        (byte + 32) as u8
    } else {
        byte
    }
}

pub open spec fn lowered(bytes: Seq<u8>) -> Seq<u8> {
    bytes.map_values(|byte: u8| lower(byte))
}

/// `byte` with a lower-case ASCII letter replaced by its upper-case form.
pub open spec fn upper(byte: u8) -> u8 {
    if is_lowercase(byte) {
        (byte - 32) as u8
    } else {
        byte
    }
}

pub open spec fn raised(bytes: Seq<u8>) -> Seq<u8> {
    bytes.map_values(|byte: u8| upper(byte))
}

pub open spec fn all_whitespace(bytes: Seq<u8>) -> bool {
    forall|i: int| 0 <= i < bytes.len() ==> is_whitespace(#[trigger] bytes[i])
}

pub open spec fn all_digits(bytes: Seq<u8>) -> bool {
    forall|i: int| 0 <= i < bytes.len() ==> is_digit(#[trigger] bytes[i])
}

/// The index of the first occurrence of a byte or character.
pub open spec fn position<T>(bytes: Seq<T>, byte: T) -> Option<int>
    decreases bytes.len(),
{
    if bytes.len() == 0 {
        None
    } else if bytes[0] == byte {
        Some(0)
    } else {
        match position(bytes.skip(1), byte) {
            None => None,
            Some(index) => Some(index + 1),
        }
    }
}

/// The index of the last occurrence of a byte or character.
pub open spec fn last_position<T>(items: Seq<T>, item: T) -> Option<int>
    decreases items.len(),
{
    if items.len() == 0 {
        None
    } else if items.last() == item {
        Some(items.len() - 1)
    } else {
        last_position(items.drop_last(), item)
    }
}

/// `needle` stands in `haystack` at `at`.
pub open spec fn occurs_at(haystack: Seq<u8>, needle: Seq<u8>, at: int) -> bool {
    0 <= at && at + needle.len() <= haystack.len() && haystack.subrange(
        at,
        at + needle.len(),
    ) == needle
}

/// The index at which `needle` stands first in `haystack`.
pub open spec fn find(haystack: Seq<u8>, needle: Seq<u8>) -> Option<int>
    decreases haystack.len(),
{
    if occurs_at(haystack, needle, 0) {
        Some(0)
    } else if haystack.len() == 0 {
        None
    } else {
        match find(haystack.skip(1), needle) {
            None => None,
            Some(index) => Some(index + 1),
        }
    }
}

/// The parts before and after the first occurrence of `byte`.
pub open spec fn split_once<T>(bytes: Seq<T>, byte: T) -> Option<(Seq<T>, Seq<T>)> {
    match position(bytes, byte) {
        None => None,
        Some(index) => Some((bytes.take(index), bytes.skip(index + 1))),
    }
}

/// The number that decimal digits spell.
pub open spec fn decimal(digits: Seq<u8>) -> int
    decreases digits.len(),
{
    if digits.len() == 0 {
        0
    } else {
        decimal(digits.drop_last()) * 10 + (digits.last() - 48)
    }
}

/// `bytes` without leading whitespace.
pub open spec fn trimmed_start(bytes: Seq<u8>) -> Seq<u8>
    decreases bytes.len(),
{
    if bytes.len() > 0 && is_whitespace(bytes[0]) {
        trimmed_start(bytes.skip(1))
    } else {
        bytes
    }
}

/// `bytes` without trailing whitespace.
pub open spec fn trimmed_end(bytes: Seq<u8>) -> Seq<u8>
    decreases bytes.len(),
{
    if bytes.len() > 0 && is_whitespace(bytes.last()) {
        trimmed_end(bytes.drop_last())
    } else {
        bytes
    }
}

pub open spec fn trimmed(bytes: Seq<u8>) -> Seq<u8> {
    trimmed_end(trimmed_start(bytes))
}

/// Trimming takes away the whitespace around bytes that begin and end with none.
pub proof fn lemma_trimmed_between(before: Seq<u8>, bytes: Seq<u8>, after: Seq<u8>)
    requires
        all_whitespace(before),
        all_whitespace(after),
        bytes.len() > 0,
        !is_whitespace(bytes[0]),
        !is_whitespace(bytes.last()),
    ensures
        trimmed(before + bytes + after) == bytes,
    decreases before.len() + after.len(),
{
    let all = before + bytes + after;
    if before.len() > 0 {
        assert(all[0] == before[0]);
        assert(all.skip(1) =~= before.skip(1) + bytes + after);
        lemma_trimmed_between(before.skip(1), bytes, after);
    } else {
        assert(all =~= bytes + after);
        assert(trimmed_start(all) == all);
        if after.len() > 0 {
            let shorter = before + bytes + after.drop_last();
            assert(all.last() == after.last());
            assert(all.drop_last() =~= shorter);
            assert(shorter[0] == bytes[0]);
            assert(trimmed_start(shorter) == shorter);
            lemma_trimmed_between(before, bytes, after.drop_last());
        } else {
            assert(all =~= bytes);
        }
    }
}

pub proof fn lemma_position<T>(bytes: Seq<T>, byte: T)
    ensures
        match position(bytes, byte) {
            None => forall|i: int| 0 <= i < bytes.len() ==> bytes[i] != byte,
            Some(index) => 0 <= index < bytes.len() && bytes[index] == byte && forall|i: int|
                0 <= i < index ==> bytes[i] != byte,
        },
    decreases bytes.len(),
{
    if bytes.len() > 0 && bytes[0] != byte {
        let rest = bytes.skip(1);
        lemma_position(rest, byte);
        assert forall|i: int| 0 < i < bytes.len() implies bytes[i] == rest[i - 1] by {}
    }
}

/// An index that carries `byte` with no earlier occurrence is the first one.
pub proof fn lemma_position_is<T>(bytes: Seq<T>, byte: T, index: int)
    requires
        0 <= index < bytes.len(),
        bytes[index] == byte,
        forall|i: int| 0 <= i < index ==> bytes[i] != byte,
    ensures
        position(bytes, byte) == Some(index),
{
    lemma_position(bytes, byte);
}

pub proof fn lemma_position_none<T>(bytes: Seq<T>, byte: T)
    requires
        forall|i: int| 0 <= i < bytes.len() ==> bytes[i] != byte,
    ensures
        position(bytes, byte) is None,
{
    lemma_position(bytes, byte);
}

/// Bytes that come later do not change where the first occurrence is.
pub proof fn lemma_position_extends<T>(bytes: Seq<T>, more: Seq<T>, byte: T)
    requires
        position(bytes, byte) is Some,
    ensures
        position(bytes + more, byte) == position(bytes, byte),
{
    lemma_position(bytes, byte);
    let index = position(bytes, byte)->Some_0;
    assert forall|i: int| 0 <= i < index implies (bytes + more)[i] != byte by {
        assert((bytes + more)[i] == bytes[i]);
    }
    lemma_position_is(bytes + more, byte, index);
}

pub proof fn lemma_find(haystack: Seq<u8>, needle: Seq<u8>)
    ensures
        match find(haystack, needle) {
            None => forall|i: int| !occurs_at(haystack, needle, i),
            Some(index) => occurs_at(haystack, needle, index) && forall|i: int|
                i < index ==> !occurs_at(haystack, needle, i),
        },
    decreases haystack.len(),
{
    if occurs_at(haystack, needle, 0) {
    } else if haystack.len() == 0 {
    } else {
        let rest = haystack.skip(1);
        lemma_find(rest, needle);
        assert forall|i: int| 0 < i implies occurs_at(haystack, needle, i) == occurs_at(
            rest,
            needle,
            i - 1,
        ) by {
            if i + needle.len() <= haystack.len() {
                assert(haystack.subrange(i, i + needle.len()) =~= rest.subrange(
                    i - 1,
                    i - 1 + needle.len(),
                ));
            }
        }
        assert forall|i: int| occurs_at(haystack, needle, i) implies i > 0 && occurs_at(
            rest,
            needle,
            i - 1,
        ) by {
            if i == 0 {
                assert(false);
            }
        }
        if let Some(index) = find(rest, needle) {
            assert(occurs_at(haystack, needle, index + 1));
            assert forall|i: int| i < index + 1 implies !occurs_at(haystack, needle, i) by {
                if occurs_at(haystack, needle, i) {
                    assert(occurs_at(rest, needle, i - 1));
                }
            }
        }
    }
}

pub proof fn lemma_find_is(haystack: Seq<u8>, needle: Seq<u8>, index: int)
    requires
        occurs_at(haystack, needle, index),
        forall|i: int| 0 <= i < index ==> !occurs_at(haystack, needle, i),
    ensures
        find(haystack, needle) == Some(index),
{
    lemma_find(haystack, needle);
}

/// Bytes that come later do not change where `needle` stands first.
pub proof fn lemma_find_extends(haystack: Seq<u8>, more: Seq<u8>, needle: Seq<u8>)
    requires
        find(haystack, needle) is Some,
    ensures
        find(haystack + more, needle) == find(haystack, needle),
{
    lemma_find(haystack, needle);
    let index = find(haystack, needle)->Some_0;
    let whole = haystack + more;
    assert(whole.subrange(index, index + needle.len()) =~= haystack.subrange(
        index,
        index + needle.len(),
    ));
    assert forall|i: int| 0 <= i < index implies !occurs_at(whole, needle, i) by {
        assert(whole.subrange(i, i + needle.len()) =~= haystack.subrange(i, i + needle.len()));
        assert(!occurs_at(haystack, needle, i));
    }
    lemma_find_is(whole, needle, index);
}

/// ASCII bytes are the UTF-8 encoding of the characters they stand for, and of no others.
pub proof fn lemma_ascii_utf8(bytes: Seq<u8>)
    requires
        all_ascii(bytes),
    ensures
        encode_utf8(ascii_text(bytes)) == bytes,
        valid_utf8(bytes),
        is_ascii_chars(ascii_text(bytes)),
{
    let chars = ascii_text(bytes);
    assert forall|i: int| 0 <= i < chars.len() implies (chars[i] as u8) == bytes[i] by {
        assert(chars[i] == bytes[i] as char);
    }
    assert(is_ascii_chars(chars)) by {
        assert forall|i: int| 0 <= i < chars.len() implies '\0' <= #[trigger] chars[i] <= '\u{7f}' by {
            assert(bytes[i] < 128);
        }
    }
    is_ascii_chars_encode_utf8(chars);
    assert(encode_utf8(chars) =~= bytes);
    encode_utf8_valid_utf8(chars);
}

/// Two texts with the same UTF-8 encoding are the same text.
pub proof fn lemma_utf8_injective(a: Seq<char>, b: Seq<char>)
    requires
        encode_utf8(a) == encode_utf8(b),
    ensures
        a == b,
{
    encode_utf8_decode_utf8(a);
    encode_utf8_decode_utf8(b);
}

/// `String::from_utf8`: succeeds exactly on valid UTF-8 and keeps the bytes.
#[verifier::external_body]
pub(crate) fn string_from_utf8(bytes: Vec<u8>) -> (text: Option<String>)
    ensures
        text is Some <==> valid_utf8(bytes@),
        text matches Some(text) ==> encode_utf8(text@) == bytes@,
{
    String::from_utf8(bytes).ok()
}

/// The text of ASCII bytes.
pub fn ascii_string(bytes: Vec<u8>) -> (text: String)
    requires
        all_ascii(bytes@),
    ensures
        text@ == ascii_text(bytes@),
{
    proof {
        lemma_ascii_utf8(bytes@);
    }
    let ghost held = bytes@;
    match string_from_utf8(bytes) {
        Some(text) => {
            proof {
                lemma_utf8_injective(text@, ascii_text(held));
            }
            text
        },
        None => String::new(),
    }
}

/// Whether two byte slices hold the same bytes.
pub fn bytes_equal(a: &[u8], b: &[u8]) -> (equal: bool)
    ensures
        equal == (a@ == b@),
{
    if a.len() != b.len() {
        return false;
    }
    let mut index: usize = 0;
    while index < a.len()
        invariant
            index <= a.len(),
            a.len() == b.len(),
            forall|i: int| 0 <= i < index ==> a@[i] == b@[i],
        decreases a.len() - index,
    {
        if a[index] != b[index] {
            return false;
        }
        index += 1;
    }
    assert(a@ =~= b@);
    true
}

/// Whether two texts are the same.
pub fn same_text(a: &str, b: &str) -> (equal: bool)
    ensures
        equal == (a@ == b@),
{
    let equal = bytes_equal(a.as_bytes(), b.as_bytes());
    proof {
        if equal {
            lemma_utf8_injective(a@, b@);
        }
    }
    equal
}

pub fn to_lower(byte: u8) -> (result: u8)
    ensures
        result == lower(byte),
{
    if 65 <= byte && byte <= 90 {
        byte + 32
    } else {
        byte
    }
}

/// The bytes with upper-case ASCII letters replaced by lower-case ones.
pub fn lowered_bytes(bytes: &[u8]) -> (result: Vec<u8>)
    ensures
        result@ == lowered(bytes@),
{
    let mut result: Vec<u8> = Vec::new();
    let mut index: usize = 0;
    while index < bytes.len()
        invariant
            index <= bytes.len(),
            result@ == lowered(bytes@.take(index as int)),
        decreases bytes.len() - index,
    {
        result.push(to_lower(bytes[index]));
        proof {
            assert(lowered(bytes@.take(index + 1)) =~= lowered(bytes@.take(index as int)).push(
                lower(bytes@[index as int]),
            ));
        }
        index += 1;
    }
    proof {
        assert(bytes@.take(bytes@.len() as int) =~= bytes@);
    }
    result
}

/// Whether two byte slices are equal when ASCII letter case is ignored.
pub fn eq_ignoring_case(a: &[u8], b: &[u8]) -> (equal: bool)
    ensures
        equal == (lowered(a@) == lowered(b@)),
{
    let left = lowered_bytes(a);
    let right = lowered_bytes(b);
    bytes_equal(left.as_slice(), right.as_slice())
}

pub fn is_whitespace_byte(byte: u8) -> (result: bool)
    ensures
        result == is_whitespace(byte),
{
    byte == 32 || byte == 9 || byte == 10 || byte == 12 || byte == 13
}

/// The slice without ASCII whitespace at either end.
pub fn trim_ascii(value: &[u8]) -> (result: &[u8])
    ensures
        result@ == trimmed(value@),
{
    let mut rest = value;
    while rest.len() > 0 && is_whitespace_byte(rest[0])
        invariant
            trimmed_start(rest@) == trimmed_start(value@),
        decreases rest.len(),
    {
        proof {
            assert(rest@.skip(1) =~= rest@.subrange(1, rest@.len() as int));
        }
        rest = vstd::slice::slice_subrange(rest, 1, rest.len());
    }
    while rest.len() > 0 && is_whitespace_byte(rest[rest.len() - 1])
        invariant
            trimmed_end(rest@) == trimmed_end(trimmed_start(value@)),
        decreases rest.len(),
    {
        proof {
            assert(rest@.drop_last() =~= rest@.subrange(0, rest@.len() - 1));
        }
        rest = vstd::slice::slice_subrange(rest, 0, rest.len() - 1);
    }
    rest
}

/// The index of the first occurrence of `byte`.
pub fn find_byte(bytes: &[u8], byte: u8) -> (result: Option<usize>)
    ensures
        match result {
            Some(index) => position(bytes@, byte) == Some(index as int) && index < bytes@.len(),
            None => position(bytes@, byte) is None,
        },
{
    let mut index: usize = 0;
    while index < bytes.len()
        invariant
            index <= bytes.len(),
            forall|i: int| 0 <= i < index ==> bytes@[i] != byte,
        decreases bytes.len() - index,
    {
        if bytes[index] == byte {
            proof {
                lemma_position_is(bytes@, byte, index as int);
            }
            return Some(index);
        }
        index += 1;
    }
    proof {
        lemma_position_none(bytes@, byte);
    }
    None
}

/// The parts before and after the first occurrence of `byte`.
pub fn split_at_byte(bytes: &[u8], byte: u8) -> (result: Option<(&[u8], &[u8])>)
    ensures
        match result {
            Some((before, after)) => split_once(bytes@, byte) == Some((before@, after@))
                && before@.len() + 1 + after@.len() == bytes@.len(),
            None => split_once(bytes@, byte) is None,
        },
{
    match find_byte(bytes, byte) {
        Some(index) => {
            let length: usize = bytes.len();
            let before = vstd::slice::slice_subrange(bytes, 0, index);
            let after = vstd::slice::slice_subrange(bytes, index + 1, length);
            proof {
                assert(before@ =~= bytes@.take(index as int));
                assert(after@ =~= bytes@.skip(index + 1));
            }
            Some((before, after))
        },
        None => None,
    }
}

/// The index at which `needle` stands first in `haystack`.
pub fn find_bytes(haystack: &[u8], needle: &[u8]) -> (result: Option<usize>)
    requires
        needle@.len() > 0,
    ensures
        match result {
            Some(index) => find(haystack@, needle@) == Some(index as int) && occurs_at(
                haystack@,
                needle@,
                index as int,
            ),
            None => find(haystack@, needle@) is None,
        },
{
    let mut index: usize = 0;
    while index < haystack.len() && needle.len() <= haystack.len() - index
        invariant
            index <= haystack.len(),
            needle@.len() > 0,
            forall|i: int| 0 <= i < index ==> !occurs_at(haystack@, needle@, i),
        decreases haystack.len() - index,
    {
        let window = vstd::slice::slice_subrange(haystack, index, index + needle.len());
        if bytes_equal(window, needle) {
            proof {
                lemma_find_is(haystack@, needle@, index as int);
            }
            return Some(index);
        }
        index += 1;
    }
    proof {
        lemma_find(haystack@, needle@);
    }
    None
}

/// Whether `bytes` begins with `prefix`.
pub fn begins_with(bytes: &[u8], prefix: &[u8]) -> (result: bool)
    ensures
        result == prefix@.is_prefix_of(bytes@),
{
    if bytes.len() < prefix.len() {
        return false;
    }
    bytes_equal(vstd::slice::slice_subrange(bytes, 0, prefix.len()), prefix)
}

/// Whether every byte is an ASCII digit.
pub fn only_digits(bytes: &[u8]) -> (result: bool)
    ensures
        result == all_digits(bytes@),
{
    let mut index: usize = 0;
    while index < bytes.len()
        invariant
            index <= bytes.len(),
            forall|i: int| 0 <= i < index ==> is_digit(#[trigger] bytes@[i]),
        decreases bytes.len() - index,
    {
        if bytes[index] < 48 || bytes[index] > 57 {
            return false;
        }
        index += 1;
    }
    true
}

/// The character of a decimal digit.
pub open spec fn digit_char(digit: int) -> char {
    (48 + digit) as u8 as char
}

/// A number in decimal notation.
pub open spec fn decimal_text(number: nat) -> Seq<char>
    decreases number,
{
    if number < 10 {
        seq![digit_char(number as int)]
    } else {
        decimal_text(number / 10).push(digit_char((number % 10) as int))
    }
}

fn push_decimal(number: u128, digits: &mut Vec<u8>)
    requires
        all_ascii(old(digits)@),
    ensures
        all_ascii(final(digits)@),
        ascii_text(final(digits)@) == ascii_text(old(digits)@) + decimal_text(number as nat),
    decreases number,
{
    let ghost before = digits@;
    if number >= 10 {
        push_decimal(number / 10, digits);
    }
    let ghost middle = digits@;
    let digit: u8 = 48 + (number % 10) as u8;
    digits.push(digit);
    proof {
        assert(digit as char == digit_char((number % 10) as int));
        assert(ascii_text(digits@) =~= ascii_text(middle).push(digit as char));
        assert forall|i: int| 0 <= i < digits@.len() implies #[trigger] digits@[i] < 128 by {
            if i < middle.len() {
                assert(middle[i] < 128);
            }
        }
        if number >= 10 {
            assert(ascii_text(digits@) =~= ascii_text(before) + decimal_text(number as nat));
        } else {
            assert(ascii_text(digits@) =~= ascii_text(before) + seq![digit as char]);
        }
    }
}

/// A number in decimal notation.
pub fn number_text(number: u128) -> (text: String)
    ensures
        text@ == decimal_text(number as nat),
{
    let mut digits: Vec<u8> = Vec::new();
    push_decimal(number, &mut digits);
    assert(ascii_text(Seq::<u8>::empty()) + decimal_text(number as nat) =~= decimal_text(
        number as nat,
    ));
    ascii_string(digits)
}

/// `true` or `false`.
pub fn bool_text(value: bool) -> (text: String)
    ensures
        text@ == if value {
            "true"@
        } else {
            "false"@
        },
{
    if value {
        "true".to_owned()
    } else {
        "false".to_owned()
    }
}

/// The character of a hexadecimal digit.
pub open spec fn hex_char(digit: int) -> char {
    if digit < 10 {
        (48 + digit) as u8 as char
    } else {
        (87 + digit) as u8 as char
    }
}

/// Each byte as two lower-case hexadecimal digits.
pub open spec fn hex_text(bytes: Seq<u8>) -> Seq<char>
    decreases bytes.len(),
{
    if bytes.len() == 0 {
        Seq::empty()
    } else {
        hex_text(bytes.drop_last()) + seq![
            hex_char((bytes.last() / 16) as int),
            hex_char((bytes.last() % 16) as int),
        ]
    }
}

pub fn hex_digit(digit: u8) -> (result: u8)
    requires
        digit < 16,
    ensures
        result < 128,
        result as char == hex_char(digit as int),
{
    if digit < 10 {
        48 + digit
    } else {
        87 + digit
    }
}

/// Each byte as two lower-case hexadecimal digits.
pub fn hex_string(bytes: &[u8]) -> (text: String)
    ensures
        text@ == hex_text(bytes@),
{
    let mut digits: Vec<u8> = Vec::new();
    let mut index: usize = 0;
    assert(ascii_text(digits@) =~= hex_text(bytes@.take(0)));
    while index < bytes.len()
        invariant
            index <= bytes.len(),
            all_ascii(digits@),
            ascii_text(digits@) == hex_text(bytes@.take(index as int)),
        decreases bytes.len() - index,
    {
        let ghost before = digits@;
        let byte: u8 = bytes[index];
        digits.push(hex_digit(byte / 16));
        digits.push(hex_digit(byte % 16));
        proof {
            assert(bytes@.take(index + 1).drop_last() =~= bytes@.take(index as int));
            assert(ascii_text(digits@) =~= ascii_text(before) + seq![
                hex_char((byte / 16) as int),
                hex_char((byte % 16) as int),
            ]);
        }
        index += 1;
    }
    assert(bytes@.take(bytes@.len() as int) =~= bytes@);
    ascii_string(digits)
}

/// The characters of a text.
pub fn chars_of(text: &str) -> (chars: Vec<char>)
    ensures
        chars@ == text@,
{
    let mut chars: Vec<char> = Vec::new();
    for character in iter: text.chars()
        invariant
            iter.seq() == text@,
            chars@ == text@.take(iter.index() as int),
    {
        chars.push(character);
        assert(chars@ =~= text@.take(iter.index() + 1));
    }
    assert(text@.take(text@.len() as int) =~= text@);
    chars
}

/// The index of the first occurrence of `character`.
pub fn find_char(chars: &Vec<char>, character: char) -> (result: Option<usize>)
    ensures
        match result {
            Some(index) => position(chars@, character) == Some(index as int) && index
                < chars@.len(),
            None => position(chars@, character) is None,
        },
{
    let mut index: usize = 0;
    while index < chars.len()
        invariant
            index <= chars.len(),
            forall|i: int| 0 <= i < index ==> chars@[i] != character,
        decreases chars.len() - index,
    {
        if chars[index] == character {
            proof {
                lemma_position_is(chars@, character, index as int);
            }
            return Some(index);
        }
        index += 1;
    }
    proof {
        lemma_position_none(chars@, character);
    }
    None
}

/// The index of the last occurrence of `character`.
pub fn find_last_char(chars: &Vec<char>, character: char) -> (result: Option<usize>)
    ensures
        match result {
            Some(index) => last_position(chars@, character) == Some(index as int) && index
                < chars@.len(),
            None => last_position(chars@, character) is None,
        },
{
    let mut length: usize = chars.len();
    assert(chars@.take(chars@.len() as int) =~= chars@);
    while length > 0
        invariant
            length <= chars.len(),
            last_position(chars@, character) == last_position(
                chars@.take(length as int),
                character,
            ),
        decreases length,
    {
        proof {
            assert(chars@.take(length as int).last() == chars@[length - 1]);
            assert(chars@.take(length as int).drop_last() =~= chars@.take(length - 1));
        }
        if chars[length - 1] == character {
            return Some(length - 1);
        }
        length -= 1;
    }
    None
}

/// A decimal digit.
pub open spec fn is_digit_char(character: char) -> bool {
    '0' <= character <= '9'
}

/// The number that decimal digits spell.
pub open spec fn char_decimal(digits: Seq<char>) -> int
    decreases digits.len(),
{
    if digits.len() == 0 {
        0
    } else {
        char_decimal(digits.drop_last()) * 10 + (digits.last() as int - '0' as int)
    }
}

/// A text without a plus sign in front.
pub open spec fn without_plus(text: Seq<char>) -> Seq<char> {
    if text.len() > 0 && text[0] == '+' {
        text.skip(1)
    } else {
        text
    }
}

pub open spec fn all_digit_chars(text: Seq<char>) -> bool {
    forall|i: int| 0 <= i < text.len() ==> is_digit_char(#[trigger] text[i])
}

/// The 16-bit number that a text spells: one or more decimal digits, with or without a plus sign
/// in front.
pub open spec fn u16_of(text: Seq<char>) -> Option<u16> {
    let digits = without_plus(text);
    if digits.len() > 0 && all_digit_chars(digits) && char_decimal(digits) <= u16::MAX {
        Some(char_decimal(digits) as u16)
    } else {
        None
    }
}

/// Reads a 16-bit number from the characters from `start` on.
pub fn parse_u16(chars: &Vec<char>, start: usize) -> (result: Option<u16>)
    requires
        start <= chars@.len(),
    ensures
        result == u16_of(chars@.skip(start as int)),
{
    let ghost text = chars@.skip(start as int);
    let first: usize = if start < chars.len() && chars[start] == '+' {
        start + 1
    } else {
        start
    };
    let ghost digits = chars@.skip(first as int);
    proof {
        if first > start {
            assert(digits =~= text.skip(1));
        }
    }
    if first >= chars.len() {
        return None;
    }
    let mut value: u32 = 0;
    let mut too_large: bool = false;
    let mut index: usize = first;
    assert(digits.take(0) =~= Seq::empty());
    while index < chars.len()
        invariant
            first <= index <= chars.len(),
            digits == chars@.skip(first as int),
            text == chars@.skip(start as int),
            digits == without_plus(text),
            forall|i: int| 0 <= i < index - first ==> is_digit_char(#[trigger] digits[i]),
            value <= u16::MAX,
            too_large ==> char_decimal(digits.take(index - first)) > u16::MAX,
            !too_large ==> value == char_decimal(digits.take(index - first)),
        decreases chars.len() - index,
    {
        let character: char = chars[index];
        assert(digits[index - first] == character);
        if character < '0' || character > '9' {
            assert(!is_digit_char(digits[index - first]));
            assert(!all_digit_chars(digits));
            return None;
        }
        let digit: u32 = character as u32 - '0' as u32;
        proof {
            assert(digits.take(index + 1 - first).drop_last() =~= digits.take(index - first));
            assert(digits.take(index + 1 - first).last() == character);
        }
        if !too_large {
            if value * 10 + digit > 65535 {
                too_large = true;
            } else {
                value = value * 10 + digit;
            }
        }
        index += 1;
    }
    assert(digits.take(digits.len() as int) =~= digits);
    if too_large {
        None
    } else {
        Some(value as u16)
    }
}

/// A number in decimal notation is made of digits and spells the number again.
pub proof fn law_decimal_text_spells_its_number(number: nat)
    ensures
        decimal_text(number).len() > 0,
        all_digit_chars(decimal_text(number)),
        char_decimal(decimal_text(number)) == number,
        number <= 65_535 ==> u16_of(decimal_text(number)) == Some(number as u16),
        number > 65_535 ==> u16_of(decimal_text(number)) is None,
        number < 10 ==> decimal_text(number).len() == 1,
        10 <= number < 100 ==> decimal_text(number).len() == 2,
        100 <= number < 1000 ==> decimal_text(number).len() == 3,
        number > 0 ==> decimal_text(number)[0] != '0',
    decreases number,
{
    let text = decimal_text(number);
    if number < 10 {
        assert(text.drop_last() =~= Seq::empty());
        assert(char_decimal(text.drop_last()) == 0);
        assert(text.last() == digit_char(number as int));
    } else {
        law_decimal_text_spells_its_number(number / 10);
        let front = decimal_text(number / 10);
        assert(text.drop_last() =~= front);
        assert(text.last() == digit_char((number % 10) as int));
        assert forall|i: int| 0 <= i < text.len() implies is_digit_char(#[trigger] text[i]) by {
            if i < front.len() {
                assert(text[i] == front[i]);
            }
        }
        assert(text[0] == front[0]);
    }
    assert(is_digit_char(text[0]));
    assert(without_plus(text) == text);
}

/// The bytes of ASCII characters.
pub open spec fn text_bytes(text: Seq<char>) -> Seq<u8> {
    text.map_values(|character: char| character as u8)
}

/// Digits as bytes spell the number that they spell as characters.
pub proof fn law_digits_spell_the_same_as_bytes(text: Seq<char>)
    requires
        all_digit_chars(text),
    ensures
        all_digits(text_bytes(text)),
        decimal(text_bytes(text)) == char_decimal(text),
    decreases text.len(),
{
    let bytes = text_bytes(text);
    assert forall|i: int| 0 <= i < bytes.len() implies is_digit(#[trigger] bytes[i]) by {
        assert(is_digit_char(text[i]));
    }
    if text.len() > 0 {
        let front = text.drop_last();
        assert forall|i: int| 0 <= i < front.len() implies is_digit_char(#[trigger] front[i]) by {
            assert(is_digit_char(text[i]));
        }
        law_digits_spell_the_same_as_bytes(front);
        assert(bytes.drop_last() =~= text_bytes(front));
        assert(is_digit_char(text[text.len() - 1]));
    }
}

/// What stands before a separator that it does not hold, and what stands behind it, are the parts
/// of the text; without the separator there are none.
pub proof fn law_parts_are_split_at_the_first_separator<T>(before: Seq<T>, separator: T, after: Seq<T>)
    requires
        forall|i: int| 0 <= i < before.len() ==> before[i] != separator,
    ensures
        split_once(before + seq![separator] + after, separator) == Some((before, after)),
        split_once(before, separator) is None,
        position(before + seq![separator] + after, separator) == Some(before.len() as int),
{
    let whole = before + seq![separator] + after;
    let at = before.len() as int;
    assert forall|i: int| 0 <= i < at implies whole[i] != separator by {
        assert(whole[i] == before[i]);
    }
    assert(whole[at] == separator);
    lemma_position_is(whole, separator, at);
    lemma_position_none(before, separator);
    assert(whole.take(at) =~= before);
    assert(whole.skip(at + 1) =~= after);
}

/// The last separator is the one behind which no other stands.
pub proof fn law_last_separator_is_found<T>(before: Seq<T>, separator: T, after: Seq<T>)
    requires
        forall|i: int| 0 <= i < after.len() ==> after[i] != separator,
    ensures
        last_position(before + seq![separator] + after, separator) == Some(before.len() as int),
        last_position(after, separator) is None,
    decreases after.len(),
{
    let whole = before + seq![separator] + after;
    if after.len() > 0 {
        let shorter = after.drop_last();
        assert forall|i: int| 0 <= i < shorter.len() implies shorter[i] != separator by {
            assert(after[i] != separator);
        }
        law_last_separator_is_found(before, separator, shorter);
        assert(after[after.len() - 1] != separator);
        assert(whole.last() == after.last());
        assert(whole.drop_last() =~= before + seq![separator] + shorter);
    } else {
        assert(whole.last() == separator);
    }
}

/// Upper-case ASCII letters and lower-case ones stand for each other; other bytes have no case.
pub proof fn law_letters_have_two_cases(byte: u8)
    ensures
        65 <= byte <= 90 ==> lower(byte) == byte + 32,
        97 <= byte <= 122 ==> upper(byte) == byte - 32,
        !(65 <= byte <= 90) ==> lower(byte) == byte,
        !(97 <= byte <= 122) ==> upper(byte) == byte,
{
}

/// Trimming takes away spaces, tabs, line feeds, form feeds and carriage returns at both ends, and
/// nothing else.
pub proof fn law_only_whitespace_is_trimmed(before: Seq<u8>, bytes: Seq<u8>, after: Seq<u8>)
    requires
        forall|i: int|
            0 <= i < before.len() ==> #[trigger] before[i] == 32 || before[i] == 9 || before[i]
                == 10 || before[i] == 12 || before[i] == 13,
        forall|i: int|
            0 <= i < after.len() ==> #[trigger] after[i] == 32 || after[i] == 9 || after[i] == 10
                || after[i] == 12 || after[i] == 13,
        bytes.len() > 0,
        bytes[0] > 32 || (13 < bytes[0] < 32) || bytes[0] < 9 || bytes[0] == 11,
        bytes.last() > 32 || (13 < bytes.last() < 32) || bytes.last() < 9 || bytes.last() == 11,
    ensures
        trimmed(before + bytes + after) == bytes,
{
    lemma_trimmed_between(before, bytes, after);
}

/// Each byte is spelled by two digits, the higher one first.
pub proof fn law_hex_text_spells_its_bytes(bytes: Seq<u8>, index: int)
    ensures
        hex_text(bytes).len() == 2 * bytes.len(),
        0 <= index < bytes.len() ==> hex_text(bytes)[2 * index] == "0123456789abcdef"@[(bytes[index]
            / 16) as int] && hex_text(bytes)[2 * index + 1] == "0123456789abcdef"@[(bytes[index]
            % 16) as int],
    decreases bytes.len(),
{
    reveal_strlit("0123456789abcdef");
    if bytes.len() > 0 {
        let front = bytes.drop_last();
        law_hex_text_spells_its_bytes(front, index);
        if 0 <= index < front.len() {
            assert(front[index] == bytes[index]);
            assert(hex_text(bytes)[2 * index] == hex_text(front)[2 * index]);
            assert(hex_text(bytes)[2 * index + 1] == hex_text(front)[2 * index + 1]);
        }
    }
}

} // verus!
