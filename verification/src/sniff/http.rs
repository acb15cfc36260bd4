//! The host of an HTTP/1 request.

use vstd::prelude::*;

use super::outcome::{domain_finding, Finding, SniffOutcome, SniffedProtocol};
use crate::text::{
    all_whitespace, begins_with, bytes_equal, eq_ignoring_case, find, find_byte, find_bytes,
    is_uppercase, is_whitespace, law_parts_are_split_at_the_first_separator, lemma_find,
    lemma_find_extends, lemma_find_is, lemma_position, lemma_position_extends, lemma_position_is,
    lemma_position_none, lemma_trimmed_between, lower, lowered, occurs_at, position, split_at_byte,
    split_once, trim_ascii, trimmed,
};

verus! {

pub const MAX_HTTP_HEADER: usize = 65_536;

/// The longest method that is looked at.
pub const MAX_HTTP_METHOD: usize = 32;

/// Carriage return, line feed.
pub open spec fn line_end() -> Seq<u8> {
    seq![13u8, 10u8]
}

/// The end of a header: two line ends.
pub open spec fn header_end() -> Seq<u8> {
    seq![13u8, 10u8, 13u8, 10u8]
}

/// `HTTP/`
pub open spec fn version_prefix() -> Seq<u8> {
    seq![72u8, 84u8, 84u8, 80u8, 47u8]
}

/// `host`
pub open spec fn host_field() -> Seq<u8> {
    seq![104u8, 111u8, 115u8, 116u8]
}

/// `CONNECT`
pub open spec fn connect_method() -> Seq<u8> {
    seq![67u8, 79u8, 78u8, 78u8, 69u8, 67u8, 84u8]
}

/// `http://`
pub open spec fn http_scheme() -> Seq<u8> {
    seq![104u8, 116u8, 116u8, 112u8, 58u8, 47u8, 47u8]
}

/// `https://`
pub open spec fn https_scheme() -> Seq<u8> {
    seq![104u8, 116u8, 116u8, 112u8, 115u8, 58u8, 47u8, 47u8]
}

/// Only upper-case letters and hyphens.
pub open spec fn method_bytes(bytes: Seq<u8>) -> bool {
    forall|i: int| 0 <= i < bytes.len() ==> is_uppercase(#[trigger] bytes[i]) || bytes[i] == 45
}

/// Method, target and version of a request line: exactly three parts between single spaces.
pub open spec fn request_parts(line: Seq<u8>) -> Option<(Seq<u8>, Seq<u8>, Seq<u8>)> {
    match split_once(line, 32) {
        None => None,
        Some((method, rest)) => match split_once(rest, 32) {
            None => None,
            Some((target, version)) => if position(version, 32) is None
                && version_prefix().is_prefix_of(version) {
                Some((method, target, version))
            } else {
                None
            },
        },
    }
}

/// `line` without a trailing carriage return.
pub open spec fn without_return(line: Seq<u8>) -> Seq<u8> {
    if line.len() > 0 && line.last() == 13 {
        line.drop_last()
    } else {
        line
    }
}

/// The value of a header line, where its field is `Host`.
pub open spec fn host_line(line: Seq<u8>) -> Option<Seq<u8>> {
    match split_once(without_return(line), 58) {
        None => None,
        Some((field, value)) => if lowered(field) == host_field() {
            Some(trimmed(value))
        } else {
            None
        },
    }
}

/// The value of the first `Host` line of a header block.
pub open spec fn host_value(block: Seq<u8>) -> Option<Seq<u8>>
    decreases block.len(),
{
    match split_once(block, 10) {
        None => host_line(block),
        Some((line, rest)) => match host_line(line) {
            Some(value) => Some(value),
            None => if rest.len() < block.len() {
                host_value(rest)
            } else {
                None
            },
        },
    }
}

/// The bytes before the first `/`, `?` or `#`.
pub open spec fn until_path(bytes: Seq<u8>) -> Seq<u8>
    decreases bytes.len(),
{
    if bytes.len() == 0 || bytes[0] == 47 || bytes[0] == 63 || bytes[0] == 35 {
        Seq::empty()
    } else {
        seq![bytes[0]] + until_path(bytes.skip(1))
    }
}

/// The authority of an absolute `http` or `https` target.
pub open spec fn uri_authority(target: Seq<u8>) -> Option<Seq<u8>> {
    if target.len() >= 7 && lowered(target.take(7)) == http_scheme() {
        Some(until_path(target.skip(7)))
    } else if target.len() >= 8 && lowered(target.take(8)) == https_scheme() {
        Some(until_path(target.skip(8)))
    } else {
        None
    }
}

/// The request line and the header lines of a request head.
pub open spec fn head_parts(head: Seq<u8>) -> (Seq<u8>, Seq<u8>) {
    match find(head, line_end()) {
        Some(index) => (head.take(index), head.skip(index + 2)),
        None => (head, Seq::empty()),
    }
}

/// What a complete request head (without the closing line ends) gives: the `Host` field, else
/// the target of a `CONNECT`, else the authority of an absolute target.
pub open spec fn head_finding(head: Seq<u8>) -> Finding {
    match request_parts(head_parts(head).0) {
        None => Finding::NoDomain,
        Some((method, target, _)) => match host_value(head_parts(head).1) {
            Some(value) => domain_finding(SniffedProtocol::Http, value),
            None => if method == connect_method() {
                domain_finding(SniffedProtocol::Http, target)
            } else {
                match uri_authority(target) {
                    Some(authority) => domain_finding(SniffedProtocol::Http, authority),
                    None => Finding::NoDomain,
                }
            },
        },
    }
}

/// What the first bytes of a stream give when they are read as an HTTP request.
pub open spec fn http_finding(buffer: Seq<u8>) -> Finding {
    match position(buffer, 32) {
        None => if buffer.len() <= MAX_HTTP_METHOD && method_bytes(buffer) {
            Finding::NeedMoreData
        } else {
            Finding::NoDomain
        },
        Some(space) => if space == 0 || space > MAX_HTTP_METHOD || !method_bytes(
            buffer.take(space),
        ) {
            Finding::NoDomain
        } else {
            match find(buffer, header_end()) {
                None => if buffer.len() < MAX_HTTP_HEADER {
                    Finding::NeedMoreData
                } else {
                    Finding::NoDomain
                },
                Some(end) => head_finding(buffer.take(end)),
            }
        },
    }
}

/// Bytes that come later do not change what a request has already decided, unless it was given
/// up for the length of its header.
pub proof fn lemma_http_decision_is_final(buffer: Seq<u8>, more: Seq<u8>)
    requires
        http_finding(buffer) !is NeedMoreData,
        buffer.len() < MAX_HTTP_HEADER || find(buffer, header_end()) is Some,
    ensures
        http_finding(buffer + more) == http_finding(buffer),
{
    let whole = buffer + more;
    lemma_position(buffer, 32);
    lemma_position(whole, 32);
    assert forall|i: int| 0 <= i < buffer.len() implies whole[i] == buffer[i] by {}
    match position(buffer, 32) {
        None => {
            if let Some(space) = position(whole, 32) {
                assert(space >= buffer.len());
                if buffer.len() <= MAX_HTTP_METHOD {
                    let bad = choose|i: int|
                        0 <= i < buffer.len() && !(is_uppercase(#[trigger] buffer[i]) || buffer[i]
                            == 45);
                    assert(whole.take(space)[bad] == buffer[bad]);
                    assert(!method_bytes(whole.take(space)));
                }
            } else if buffer.len() <= MAX_HTTP_METHOD {
                let bad = choose|i: int|
                    0 <= i < buffer.len() && !(is_uppercase(#[trigger] buffer[i]) || buffer[i]
                        == 45);
                assert(whole[bad] == buffer[bad]);
                assert(!method_bytes(whole));
            }
        },
        Some(space) => {
            lemma_position_extends(buffer, more, 32);
            assert(whole.take(space) =~= buffer.take(space));
            if find(buffer, header_end()) is Some {
                lemma_find(buffer, header_end());
                lemma_find_extends(buffer, more, header_end());
                let end = find(buffer, header_end())->Some_0;
                assert(whole.take(end) =~= buffer.take(end));
            }
        },
    }
}

fn check_method(bytes: &[u8]) -> (result: bool)
    ensures
        result == method_bytes(bytes@),
{
    let mut index: usize = 0;
    while index < bytes.len()
        invariant
            index <= bytes.len(),
            forall|i: int|
                0 <= i < index ==> is_uppercase(#[trigger] bytes@[i]) || bytes@[i] == 45,
        decreases bytes.len() - index,
    {
        let byte: u8 = bytes[index];
        if (byte < 65 || byte > 90) && byte != 45 {
            assert(!is_uppercase(bytes@[index as int]) && bytes@[index as int] != 45);
            return false;
        }
        index += 1;
    }
    true
}

fn parse_request_line(line: &[u8]) -> (result: Option<(&[u8], &[u8], &[u8])>)
    ensures
        match result {
            Some((method, target, version)) => request_parts(line@) == Some(
                (method@, target@, version@),
            ),
            None => request_parts(line@) is None,
        },
{
    let prefix: [u8; 5] = [72, 84, 84, 80, 47];
    assert(prefix@ =~= version_prefix());
    match split_at_byte(line, 32) {
        None => None,
        Some((method, rest)) => match split_at_byte(rest, 32) {
            None => None,
            Some((target, version)) => {
                if find_byte(version, 32).is_none() && begins_with(version, prefix.as_slice()) {
                    Some((method, target, version))
                } else {
                    None
                }
            },
        },
    }
}

fn parse_host_line(line: &[u8]) -> (result: Option<&[u8]>)
    ensures
        match result {
            Some(value) => host_line(line@) == Some(value@),
            None => host_line(line@) is None,
        },
{
    let field_name: [u8; 4] = [104, 111, 115, 116];
    assert(field_name@ =~= host_field());
    assert(lowered(host_field()) =~= host_field());
    let line = if line.len() > 0 && line[line.len() - 1] == 13 {
        proof {
            assert(line@.subrange(0, line@.len() - 1) =~= line@.drop_last());
        }
        vstd::slice::slice_subrange(line, 0, line.len() - 1)
    } else {
        line
    };
    match split_at_byte(line, 58) {
        None => None,
        Some((field, value)) => {
            if eq_ignoring_case(field, field_name.as_slice()) {
                Some(trim_ascii(value))
            } else {
                None
            }
        },
    }
}

fn find_host(block: &[u8]) -> (result: Option<&[u8]>)
    ensures
        match result {
            Some(value) => host_value(block@) == Some(value@),
            None => host_value(block@) is None,
        },
{
    let mut rest = block;
    loop
        invariant
            host_value(rest@) == host_value(block@),
        decreases rest.len(),
    {
        match split_at_byte(rest, 10) {
            None => {
                return parse_host_line(rest);
            },
            Some((line, after)) => {
                if let Some(value) = parse_host_line(line) {
                    return Some(value);
                }
                rest = after;
            },
        }
    }
}

fn cut_path(bytes: &[u8]) -> (result: &[u8])
    ensures
        result@ == until_path(bytes@),
{
    let mut end: usize = 0;
    proof {
        assert(bytes@.skip(0) =~= bytes@);
        assert(bytes@.take(0) + until_path(bytes@) =~= until_path(bytes@));
    }
    while end < bytes.len() && bytes[end] != 47 && bytes[end] != 63 && bytes[end] != 35
        invariant
            end <= bytes.len(),
            until_path(bytes@) == bytes@.take(end as int) + until_path(bytes@.skip(end as int)),
        decreases bytes.len() - end,
    {
        proof {
            let here = bytes@.skip(end as int);
            assert(here[0] == bytes@[end as int]);
            assert(here.skip(1) =~= bytes@.skip(end + 1));
            assert(bytes@.take(end as int) + (seq![here[0]] + until_path(here.skip(1)))
                =~= bytes@.take(end + 1) + until_path(bytes@.skip(end + 1)));
        }
        end += 1;
    }
    let result = vstd::slice::slice_subrange(bytes, 0, end);
    proof {
        assert(until_path(bytes@.skip(end as int)) =~= Seq::empty());
        assert(result@ =~= bytes@.take(end as int) + Seq::<u8>::empty());
    }
    result
}

/// The authority of an absolute `http` or `https` target.
pub fn absolute_uri_authority(target: &[u8]) -> (result: Option<&[u8]>)
    ensures
        match result {
            Some(authority) => uri_authority(target@) == Some(authority@),
            None => uri_authority(target@) is None,
        },
{
    let http: [u8; 7] = [104, 116, 116, 112, 58, 47, 47];
    let https: [u8; 8] = [104, 116, 116, 112, 115, 58, 47, 47];
    proof {
        assert(http@ =~= http_scheme());
        assert(https@ =~= https_scheme());
        assert(lowered(http_scheme()) =~= http_scheme());
        assert(lowered(https_scheme()) =~= https_scheme());
        if target@.len() >= 7 {
            assert(target@.subrange(0, 7) =~= target@.take(7));
            assert(target@.subrange(7, target@.len() as int) =~= target@.skip(7));
        }
        if target@.len() >= 8 {
            assert(target@.subrange(0, 8) =~= target@.take(8));
            assert(target@.subrange(8, target@.len() as int) =~= target@.skip(8));
        }
    }
    if target.len() >= 7 && eq_ignoring_case(
        vstd::slice::slice_subrange(target, 0, 7),
        http.as_slice(),
    ) {
        return Some(cut_path(vstd::slice::slice_subrange(target, 7, target.len())));
    }
    if target.len() >= 8 && eq_ignoring_case(
        vstd::slice::slice_subrange(target, 0, 8),
        https.as_slice(),
    ) {
        return Some(cut_path(vstd::slice::slice_subrange(target, 8, target.len())));
    }
    None
}

fn sniff_request_head(head: &[u8]) -> (outcome: SniffOutcome)
    ensures
        outcome@ == head_finding(head@),
{
    let separator: [u8; 2] = [13, 10];
    let connect: [u8; 7] = [67, 79, 78, 78, 69, 67, 84];
    assert(separator@ =~= line_end());
    assert(connect@ =~= connect_method());
    let (line, block) = match find_bytes(head, separator.as_slice()) {
        Some(index) => {
            let length: usize = head.len();
            let line = vstd::slice::slice_subrange(head, 0, index);
            let block = vstd::slice::slice_subrange(head, index + 2, length);
            proof {
                assert(line@ =~= head@.take(index as int));
                assert(block@ =~= head@.skip(index + 2));
            }
            (line, block)
        },
        None => {
            let block = vstd::slice::slice_subrange(head, head.len(), head.len());
            proof {
                assert(block@ =~= Seq::empty());
            }
            (head, block)
        },
    };
    let (method, target, _) = match parse_request_line(line) {
        Some(parts) => parts,
        None => return SniffOutcome::NoDomain,
    };
    if let Some(value) = find_host(block) {
        return SniffOutcome::domain(SniffedProtocol::Http, value);
    }
    if bytes_equal(method, connect.as_slice()) {
        return SniffOutcome::domain(SniffedProtocol::Http, target);
    }
    match absolute_uri_authority(target) {
        Some(authority) => SniffOutcome::domain(SniffedProtocol::Http, authority),
        None => SniffOutcome::NoDomain,
    }
}

/// The domain of the HTTP request at the start of a stream.
pub fn sniff_http_request(buffer: &[u8]) -> (outcome: SniffOutcome)
    ensures
        outcome@ == http_finding(buffer@),
{
    let terminator: [u8; 4] = [13, 10, 13, 10];
    assert(terminator@ =~= header_end());
    let space: usize = match find_byte(buffer, 32) {
        Some(space) => space,
        None => {
            return if buffer.len() <= MAX_HTTP_METHOD && check_method(buffer) {
                SniffOutcome::NeedMoreData
            } else {
                SniffOutcome::NoDomain
            };
        },
    };
    let method = vstd::slice::slice_subrange(buffer, 0, space);
    assert(method@ =~= buffer@.take(space as int));
    if space == 0 || space > MAX_HTTP_METHOD || !check_method(method) {
        return SniffOutcome::NoDomain;
    }
    match find_bytes(buffer, terminator.as_slice()) {
        None => {
            if buffer.len() < MAX_HTTP_HEADER {
                SniffOutcome::NeedMoreData
            } else {
                SniffOutcome::NoDomain
            }
        },
        Some(end) => {
            let head = vstd::slice::slice_subrange(buffer, 0, end);
            assert(head@ =~= buffer@.take(end as int));
            sniff_request_head(head)
        },
    }
}

/// The line holds neither a line feed nor the field `host`, in any letter case, before its first
/// colon.
pub open spec fn names_no_host(line: Seq<u8>) -> bool {
    &&& forall|i: int| 0 <= i < line.len() ==> #[trigger] line[i] != 10
    &&& forall|colon: int|
        #![trigger line.take(colon)]
        0 <= colon < line.len() && line[colon] == 58 && !line.take(colon).contains(58) ==> lowered(
            line.take(colon),
        ) != seq![104u8, 111u8, 115u8, 116u8]
}

proof fn lemma_names_no_host(line: Seq<u8>)
    requires
        names_no_host(line),
    ensures
        host_line(line) is None,
        host_line(line.push(13)) is None,
{
    let shorter = without_return(line);
    assert(without_return(line.push(13)) =~= line);
    lemma_position(line, 58);
    lemma_position(shorter, 58);
    if let Some(colon) = position(line, 58) {
        assert(!line.take(colon).contains(58));
        assert(lowered(line.take(colon)) != host_field());
    }
    if let Some(colon) = position(shorter, 58) {
        assert(shorter.take(colon) =~= line.take(colon));
        assert(line[colon] == 58);
        assert(!line.take(colon).contains(58)) by {
            assert forall|i: int| 0 <= i < colon implies line.take(colon)[i] != 58 by {
                assert(shorter[i] == line[i]);
            }
        }
        assert(lowered(line.take(colon)) != host_field());
    }
}

/// A header line that names no host does not change which host is found behind it.
pub proof fn law_other_header_line_is_skipped(line: Seq<u8>, rest: Seq<u8>)
    requires
        names_no_host(line),
    ensures
        host_value(line + seq![10u8] + rest) == host_value(rest),
        host_value(line + seq![13u8, 10u8] + rest) == host_value(rest),
        host_value(line) is None,
{
    lemma_names_no_host(line);
    let all = line + seq![10u8] + rest;
    lemma_position_is(all, 10, line.len() as int);
    assert(all.take(line.len() as int) =~= line);
    assert(all.skip(line.len() as int + 1) =~= rest);
    let with_return = line + seq![13u8, 10u8] + rest;
    lemma_position_is(with_return, 10, line.len() as int + 1);
    assert(with_return.take(line.len() as int + 1) =~= line.push(13));
    assert(with_return.skip(line.len() as int + 2) =~= rest);
    lemma_position_none(line, 10);
}

/// A header line: a field, a colon, and a value with white space around it.
pub open spec fn header_line(
    field: Seq<u8>,
    before: Seq<u8>,
    value: Seq<u8>,
    after: Seq<u8>,
) -> Seq<u8> {
    field + seq![58u8] + (before + value + after)
}

proof fn lemma_host_field(field: Seq<u8>, text: Seq<u8>)
    requires
        lowered(field) == seq![104u8, 111u8, 115u8, 116u8],
    ensures
        split_once(field + seq![58u8] + text, 58) == Some((field, text)),
{
    let line = field + seq![58u8] + text;
    let colon = field.len() as int;
    assert forall|i: int| 0 <= i < colon implies line[i] != 58 by {
        assert(line[i] == field[i]);
        assert(lowered(field)[i] == lower(field[i]));
        assert(lowered(field).len() == 4);
        assert(lower(field[i]) != 58);
    }
    lemma_position_is(line, 58, colon);
    assert(line.take(colon) =~= field);
    assert(line.skip(colon + 1) =~= text);
}

proof fn lemma_header_line(field: Seq<u8>, before: Seq<u8>, value: Seq<u8>, after: Seq<u8>)
    requires
        lowered(field) == seq![104u8, 111u8, 115u8, 116u8],
        all_whitespace(before),
        all_whitespace(after),
        value.len() > 0,
        !is_whitespace(value[0]),
        !is_whitespace(value.last()),
    ensures
        host_line(header_line(field, before, value, after)) == Some(value),
        host_line(header_line(field, before, value, after).push(13)) == Some(value),
{
    let line = header_line(field, before, value, after);
    let text = before + value + after;
    assert(line.last() == text.last());
    lemma_host_field(field, text);
    lemma_trimmed_between(before, value, after);
    assert(without_return(line.push(13)) =~= line);
    if line.last() == 13 {
        if after.len() == 0 {
            assert(text.last() == value.last());
        }
        let shorter = before + value + after.drop_last();
        assert(line.drop_last() =~= field + seq![58u8] + shorter);
        lemma_host_field(field, shorter);
        lemma_trimmed_between(before, value, after.drop_last());
    }
}

/// A `Host` line gives its value without the white space around it, in whatever letter case the
/// field is written, whether or not lines follow.
pub proof fn law_host_line_gives_its_value(
    field: Seq<u8>,
    before: Seq<u8>,
    value: Seq<u8>,
    after: Seq<u8>,
    rest: Seq<u8>,
)
    requires
        lowered(field) == seq![104u8, 111u8, 115u8, 116u8],
        all_whitespace(before),
        all_whitespace(after),
        value.len() > 0,
        !is_whitespace(value[0]),
        !is_whitespace(value.last()),
        forall|i: int|
            0 <= i < header_line(field, before, value, after).len() ==> #[trigger] header_line(
                field,
                before,
                value,
                after,
            )[i] != 10,
    ensures
        host_value(header_line(field, before, value, after)) == Some(value),
        host_value(header_line(field, before, value, after) + seq![13u8, 10u8] + rest) == Some(
            value,
        ),
{
    let line = header_line(field, before, value, after);
    lemma_header_line(field, before, value, after);
    lemma_position_none(line, 10);
    let all = line + seq![13u8, 10u8] + rest;
    assert forall|i: int| 0 <= i < line.len() + 1 implies all[i] != 10 by {
        if i < line.len() {
            assert(all[i] == line[i]);
        }
    }
    lemma_position_is(all, 10, line.len() as int + 1);
    assert(all.take(line.len() as int + 1) =~= line.push(13));
}

/// Lines, each with a carriage return and a line feed behind it.
pub open spec fn ended_lines(lines: Seq<Seq<u8>>) -> Seq<u8>
    decreases lines.len(),
{
    if lines.len() == 0 {
        Seq::empty()
    } else {
        ended_lines(lines.drop_last()) + (lines.last() + seq![13u8, 10u8])
    }
}

/// The lines are not empty and hold no line feed.
pub open spec fn are_lines(lines: Seq<Seq<u8>>) -> bool {
    forall|i: int| 0 <= i < lines.len() ==> is_line(#[trigger] lines[i])
}

pub open spec fn is_line(line: Seq<u8>) -> bool {
    line.len() > 0 && forall|i: int| 0 <= i < line.len() ==> #[trigger] line[i] != 10
}

proof fn lemma_ended_lines(lines: Seq<Seq<u8>>)
    requires
        are_lines(lines),
    ensures
        lines.len() > 0 ==> ended_lines(lines).len() >= 3 && ended_lines(lines).last() == 10
            && ended_lines(lines)[ended_lines(lines).len() - 2] == 13,
        forall|i: int|
            0 <= i < ended_lines(lines).len() - 2 && #[trigger] ended_lines(lines)[i] == 10
                ==> ended_lines(lines)[i + 2] != 10,
    decreases lines.len(),
{
    if lines.len() > 0 {
        let front = ended_lines(lines.drop_last());
        let line = lines.last();
        let all = ended_lines(lines);
        assert(is_line(lines[lines.len() - 1]));
        assert(are_lines(lines.drop_last())) by {
            assert forall|i: int| 0 <= i < lines.drop_last().len() implies is_line(
                #[trigger] lines.drop_last()[i],
            ) by {
                assert(is_line(lines[i]));
            }
        }
        lemma_ended_lines(lines.drop_last());
        assert forall|i: int| 0 <= i < all.len() - 2 && #[trigger] all[i] == 10 implies all[i + 2]
            != 10 by {
            if i + 2 < front.len() {
                assert(all[i] == front[i] && all[i + 2] == front[i + 2]);
            } else if i + 2 == all.len() - 1 {
                assert(all[i] == line[line.len() - 1]);
            } else if i + 2 == all.len() - 2 {
            } else {
                assert(all[i + 2] == line[i + 2 - front.len()]);
            }
        }
    }
}

proof fn lemma_head_end(lines: Seq<Seq<u8>>, body: Seq<u8>)
    requires
        are_lines(lines),
        lines.len() > 0,
    ensures
        find(ended_lines(lines) + seq![13u8, 10u8] + body, header_end()) == Some(
            ended_lines(lines).len() - 2,
        ),
{
    let front = ended_lines(lines);
    let all = front + seq![13u8, 10u8] + body;
    let end = front.len() - 2;
    lemma_ended_lines(lines);
    assert(all.subrange(end, end + 4) =~= header_end());
    assert forall|i: int| 0 <= i < end implies !occurs_at(all, header_end(), i) by {
        if occurs_at(all, header_end(), i) {
            let part = all.subrange(i, i + 4);
            assert(part[1] == 10 && part[3] == 10);
            assert(all[i + 1] == 10 && all[i + 3] == 10);
            assert(front[i + 1] == 10);
            if i + 3 < front.len() {
                assert(front[i + 1 + 2] == 10);
            } else {
                assert(i + 3 == front.len());
                assert(all[i + 3] == 13);
            }
        }
    }
    lemma_find_is(all, header_end(), end);
}

proof fn lemma_ended_lines_join(a: Seq<Seq<u8>>, b: Seq<Seq<u8>>)
    ensures
        ended_lines(a + b) == ended_lines(a) + ended_lines(b),
    decreases b.len(),
{
    if b.len() == 0 {
        assert(a + b =~= a);
        assert(ended_lines(a) + ended_lines(b) =~= ended_lines(a));
    } else {
        assert((a + b).drop_last() =~= a + b.drop_last());
        assert((a + b).last() == b.last());
        lemma_ended_lines_join(a, b.drop_last());
        assert(ended_lines(a + b) =~= ended_lines(a) + ended_lines(b));
    }
}

proof fn lemma_one_ended_line(line: Seq<u8>)
    ensures
        ended_lines(seq![line]) == line + seq![13u8, 10u8],
{
    assert(seq![line].drop_last() =~= Seq::empty());
    assert(seq![line].last() == line);
    assert(ended_lines(seq![line].drop_last()) =~= Seq::empty());
    assert(ended_lines(seq![line]) =~= line + seq![13u8, 10u8]);
}

/// Lines that name no host do not change which host is found behind them.
pub proof fn law_other_header_lines_are_skipped(lines: Seq<Seq<u8>>, rest: Seq<u8>)
    requires
        forall|i: int| 0 <= i < lines.len() ==> names_no_host(#[trigger] lines[i]),
    ensures
        host_value(ended_lines(lines) + rest) == host_value(rest),
    decreases lines.len(),
{
    if lines.len() == 0 {
        assert(ended_lines(lines) + rest =~= rest);
    } else {
        let front = lines.drop_last();
        let line = lines.last();
        assert(names_no_host(lines[lines.len() - 1]));
        assert forall|i: int| 0 <= i < front.len() implies names_no_host(#[trigger] front[i]) by {
            assert(names_no_host(lines[i]));
        }
        law_other_header_lines_are_skipped(front, line + seq![13u8, 10u8] + rest);
        law_other_header_line_is_skipped(line, rest);
        assert(ended_lines(lines) + rest =~= ended_lines(front) + (line + seq![13u8, 10u8]
            + rest));
    }
}

/// A method, a target and a version with single spaces between them.
pub open spec fn request_line(method: Seq<u8>, target: Seq<u8>, version: Seq<u8>) -> Seq<u8> {
    method + seq![32u8] + target + seq![32u8] + version
}

/// The method is one to 32 upper-case letters and hyphens, the target holds neither space nor line
/// feed, and neither does the version, which begins with `HTTP/`.
pub open spec fn is_request(method: Seq<u8>, target: Seq<u8>, version: Seq<u8>) -> bool {
    &&& 0 < method.len() <= 32
    &&& forall|i: int| 0 <= i < method.len() ==> 65 <= #[trigger] method[i] <= 90 || method[i] == 45
    &&& forall|i: int| 0 <= i < target.len() ==> #[trigger] target[i] != 32 && target[i] != 10
    &&& forall|i: int| 0 <= i < version.len() ==> #[trigger] version[i] != 32 && version[i] != 10
    &&& version.len() >= 5
    &&& version.take(5) == seq![72u8, 84u8, 84u8, 80u8, 47u8]
}

proof fn lemma_request_line(method: Seq<u8>, target: Seq<u8>, version: Seq<u8>)
    requires
        is_request(method, target, version),
    ensures
        is_line(request_line(method, target, version)),
        request_parts(request_line(method, target, version)) == Some((method, target, version)),
{
    let line = request_line(method, target, version);
    let first = method.len() as int;
    assert forall|i: int| 0 <= i < line.len() implies #[trigger] line[i] != 10 by {
        if i < first {
            assert(line[i] == method[i]);
        } else if first < i < first + 1 + target.len() {
            assert(line[i] == target[i - first - 1]);
        } else if i > first + 1 + target.len() {
            assert(line[i] == version[i - first - 2 - target.len()]);
        }
    }
    assert forall|i: int| 0 <= i < first implies line[i] != 32 by {
        assert(line[i] == method[i]);
    }
    lemma_position_is(line, 32, first);
    assert(line.take(first) =~= method);
    let rest = line.skip(first + 1);
    assert(rest =~= target + seq![32u8] + version);
    lemma_position_is(rest, 32, target.len() as int);
    assert(rest.take(target.len() as int) =~= target);
    assert(rest.skip(target.len() as int + 1) =~= version);
    lemma_position_none(version, 32);
    assert(version_prefix() =~= version.take(5));
}

/// A request: its line, its header lines, an empty line, and what follows.
pub open spec fn request_bytes(
    method: Seq<u8>,
    target: Seq<u8>,
    version: Seq<u8>,
    lines: Seq<Seq<u8>>,
    body: Seq<u8>,
) -> Seq<u8> {
    ended_lines(seq![request_line(method, target, version)] + lines) + seq![13u8, 10u8] + body
}

/// The header lines without the line end of the last.
spec fn header_block(lines: Seq<Seq<u8>>) -> Seq<u8> {
    if lines.len() == 0 {
        Seq::empty()
    } else {
        ended_lines(lines).take(ended_lines(lines).len() - 2)
    }
}

proof fn lemma_request(
    method: Seq<u8>,
    target: Seq<u8>,
    version: Seq<u8>,
    lines: Seq<Seq<u8>>,
    body: Seq<u8>,
)
    requires
        is_request(method, target, version),
        are_lines(lines),
    ensures
        http_finding(request_bytes(method, target, version, lines, body)) == match host_value(
            header_block(lines),
        ) {
            Some(value) => domain_finding(SniffedProtocol::Http, value),
            None => if method == connect_method() {
                domain_finding(SniffedProtocol::Http, target)
            } else {
                match uri_authority(target) {
                    Some(authority) => domain_finding(SniffedProtocol::Http, authority),
                    None => Finding::NoDomain,
                }
            },
        },
{
    let line = request_line(method, target, version);
    let all = seq![line] + lines;
    let front = ended_lines(all);
    let buffer = request_bytes(method, target, version, lines, body);
    lemma_request_line(method, target, version);
    assert(are_lines(all)) by {
        assert forall|i: int| 0 <= i < all.len() implies is_line(#[trigger] all[i]) by {
            if i > 0 {
                assert(all[i] == lines[i - 1]);
            }
        }
    }
    lemma_ended_lines_join(seq![line], lines);
    lemma_one_ended_line(line);
    lemma_head_end(all, body);
    lemma_ended_lines(all);
    let end = front.len() - 2;
    let head = buffer.take(end);
    let first = method.len() as int;
    assert(front.len() >= line.len() + 2);
    assert forall|i: int| 0 <= i < line.len() implies buffer[i] == line[i] by {
        assert(front[i] == line[i]);
    }
    assert forall|i: int| 0 <= i < first implies buffer[i] != 32 && buffer[i] == method[i] by {
        assert(line[i] == method[i]);
    }
    assert(buffer[first] == 32) by {
        assert(line[first] == 32);
    }
    lemma_position_is(buffer, 32, first);
    assert(buffer.take(first) =~= method);
    assert(method_bytes(method)) by {
        assert forall|i: int| 0 <= i < method.len() implies is_uppercase(#[trigger] method[i])
            || method[i] == 45 by {}
    }
    assert(http_finding(buffer) == head_finding(head));
    assert(head_parts(head) == (line, header_block(lines))) by {
        lemma_ended_lines(lines);
        assert forall|i: int| 0 <= i < line.len() && i < head.len() implies !occurs_at(
            head,
            line_end(),
            i,
        ) by {
            if occurs_at(head, line_end(), i) {
                assert(head.subrange(i, i + 2)[1] == 10);
                assert(head[i + 1] == 10);
                if i + 1 < line.len() {
                    assert(head[i + 1] == line[i + 1]);
                } else {
                    assert(head[i + 1] == front[line.len() as int] && front[line.len() as int]
                        == 13);
                }
            }
        }
        if lines.len() == 0 {
            assert(ended_lines(lines) =~= Seq::empty());
            assert(head =~= line);
            lemma_find(head, line_end());
            if let Some(index) = find(head, line_end()) {
                assert(!occurs_at(head, line_end(), index));
            }
        } else {
            let at = line.len() as int;
            assert(head.subrange(at, at + 2) =~= line_end());
            lemma_find_is(head, line_end(), at);
            assert(head.take(at) =~= line);
            assert(head.skip(at + 2) =~= header_block(lines));
        }
    }
}

/// A request gives the value of its `Host` line, at whatever position the line stands among the
/// header lines, whatever the request line names.
pub proof fn law_host_of_a_request_is_found(
    method: Seq<u8>,
    target: Seq<u8>,
    version: Seq<u8>,
    before: Seq<Seq<u8>>,
    field: Seq<u8>,
    space: Seq<u8>,
    value: Seq<u8>,
    space_after: Seq<u8>,
    after: Seq<Seq<u8>>,
    body: Seq<u8>,
)
    requires
        is_request(method, target, version),
        are_lines(before),
        are_lines(after),
        forall|i: int| 0 <= i < before.len() ==> names_no_host(#[trigger] before[i]),
        lowered(field) == seq![104u8, 111u8, 115u8, 116u8],
        all_whitespace(space),
        all_whitespace(space_after),
        value.len() > 0,
        !is_whitespace(value[0]),
        !is_whitespace(value.last()),
        is_line(header_line(field, space, value, space_after)),
    ensures
        http_finding(
            request_bytes(
                method,
                target,
                version,
                before + seq![header_line(field, space, value, space_after)] + after,
                body,
            ),
        ) == domain_finding(SniffedProtocol::Http, value),
{
    let line = header_line(field, space, value, space_after);
    let lines = before + seq![line] + after;
    assert(are_lines(lines)) by {
        assert forall|i: int| 0 <= i < lines.len() implies is_line(#[trigger] lines[i]) by {
            if i < before.len() {
                assert(lines[i] == before[i]);
            } else if i > before.len() {
                assert(lines[i] == after[i - before.len() - 1]);
            }
        }
    }
    lemma_request(method, target, version, lines, body);
    lemma_ended_lines_join(before + seq![line], after);
    lemma_ended_lines_join(before, seq![line]);
    lemma_one_ended_line(line);
    lemma_ended_lines(after);
    let block = header_block(lines);
    if after.len() == 0 {
        assert(ended_lines(after) =~= Seq::empty());
        assert(block =~= ended_lines(before) + line);
        law_other_header_lines_are_skipped(before, line);
        law_host_line_gives_its_value(field, space, value, space_after, Seq::empty());
    } else {
        let rest = header_block(after);
        assert(block =~= ended_lines(before) + (line + seq![13u8, 10u8] + rest));
        law_other_header_lines_are_skipped(before, line + seq![13u8, 10u8] + rest);
        law_host_line_gives_its_value(field, space, value, space_after, rest);
    }
}

/// The path of a target: nothing, or what begins with `/`, `?` or `#`.
pub open spec fn is_path(path: Seq<u8>) -> bool {
    path.len() > 0 ==> path[0] == 47 || path[0] == 63 || path[0] == 35
}

proof fn lemma_until_path(authority: Seq<u8>, path: Seq<u8>)
    requires
        forall|i: int|
            0 <= i < authority.len() ==> #[trigger] authority[i] != 47 && authority[i] != 63
                && authority[i] != 35,
        is_path(path),
    ensures
        until_path(authority + path) == authority,
    decreases authority.len(),
{
    let all = authority + path;
    if authority.len() == 0 {
        assert(all =~= path);
    } else {
        assert(all[0] == authority[0]);
        assert(all.skip(1) =~= authority.skip(1) + path);
        lemma_until_path(authority.skip(1), path);
        assert(seq![all[0]] + authority.skip(1) =~= authority);
    }
}

/// An absolute target gives its authority: what stands between the scheme, in any letter case, and
/// the path.
pub proof fn law_absolute_targets_give_their_authority(
    scheme: Seq<u8>,
    authority: Seq<u8>,
    path: Seq<u8>,
)
    requires
        lowered(scheme) == seq![104u8, 116u8, 116u8, 112u8, 58u8, 47u8, 47u8] || lowered(scheme)
            == seq![104u8, 116u8, 116u8, 112u8, 115u8, 58u8, 47u8, 47u8],
        forall|i: int|
            0 <= i < authority.len() ==> #[trigger] authority[i] != 47 && authority[i] != 63
                && authority[i] != 35,
        is_path(path),
    ensures
        uri_authority(scheme + authority + path) == Some(authority),
{
    let target = scheme + authority + path;
    lemma_until_path(authority, path);
    assert(lowered(scheme).len() == scheme.len());
    assert(target.take(scheme.len() as int) =~= scheme);
    assert(target.skip(scheme.len() as int) =~= authority + path);
    if scheme.len() == 7 {
        assert(lowered(scheme) =~= http_scheme());
    } else {
        assert(lowered(scheme) =~= https_scheme());
        assert(lowered(target.take(7))[4] == lowered(scheme)[4]);
        assert(http_scheme()[4] == 58 && https_scheme()[4] == 115);
    }
}

/// A request without a `Host` line gives the target of a `CONNECT`, else the authority of an
/// absolute target, else nothing.
pub proof fn law_requests_without_host_go_by_their_target(
    method: Seq<u8>,
    target: Seq<u8>,
    version: Seq<u8>,
    lines: Seq<Seq<u8>>,
    body: Seq<u8>,
)
    requires
        is_request(method, target, version),
        are_lines(lines),
        forall|i: int| 0 <= i < lines.len() ==> names_no_host(#[trigger] lines[i]),
    ensures
        ({
            let found = http_finding(request_bytes(method, target, version, lines, body));
            &&& method == seq![67u8, 79u8, 78u8, 78u8, 69u8, 67u8, 84u8] ==> found
                == domain_finding(SniffedProtocol::Http, target)
            &&& method != seq![67u8, 79u8, 78u8, 78u8, 69u8, 67u8, 84u8] ==> found == (
            match uri_authority(target) {
                Some(authority) => domain_finding(SniffedProtocol::Http, authority),
                None => Finding::NoDomain,
            })
            &&& target.len() > 0 && target[0] == 47 ==> uri_authority(target) is None
        }),
{
    lemma_request(method, target, version, lines, body);
    assert(connect_method() =~= seq![67u8, 79u8, 78u8, 78u8, 69u8, 67u8, 84u8]);
    if lines.len() == 0 {
        law_other_header_line_is_skipped(Seq::empty(), Seq::empty());
    } else {
        let front = lines.drop_last();
        assert(names_no_host(lines[lines.len() - 1]));
        assert forall|i: int| 0 <= i < front.len() implies names_no_host(#[trigger] front[i]) by {
            assert(names_no_host(lines[i]));
        }
        assert(header_block(lines) =~= ended_lines(front) + lines.last());
        law_other_header_lines_are_skipped(front, lines.last());
        law_other_header_line_is_skipped(lines.last(), Seq::empty());
    }
    if target.len() > 0 && target[0] == 47 {
        if target.len() >= 7 {
            assert(lowered(target.take(7))[0] == 47);
        }
        if target.len() >= 8 {
            assert(lowered(target.take(8))[0] == 47);
        }
    }
}

/// A request begins with a method of at most 32 upper-case letters and hyphens before a space. It is
/// waited for while it may still become one, up to a header of 65,536 bytes.
pub proof fn law_requests_begin_with_a_method(method: Seq<u8>, rest: Seq<u8>)
    requires
        forall|i: int| 0 <= i < method.len() ==> method[i] != 32,
    ensures
        ({
            let fits = method.len() <= 32 && forall|i: int|
                0 <= i < method.len() ==> 65 <= #[trigger] method[i] <= 90 || method[i] == 45;
            &&& fits ==> http_finding(method) is NeedMoreData
            &&& !fits ==> http_finding(method) is NoDomain && http_finding(
                method + seq![32u8] + rest,
            ) is NoDomain
            &&& http_finding(seq![32u8] + rest) is NoDomain
            &&& fits && method.len() > 0 && find(
                method + seq![32u8] + rest,
                seq![13u8, 10u8, 13u8, 10u8],
            ) is None ==> (http_finding(method + seq![32u8] + rest) is NeedMoreData
                <==> method.len() + 1 + rest.len() < 65_536) && (http_finding(
                method + seq![32u8] + rest,
            ) is NoDomain <==> method.len() + 1 + rest.len() >= 65_536)
        }),
{
    let whole = method + seq![32u8] + rest;
    law_parts_are_split_at_the_first_separator(method, 32u8, rest);
    law_parts_are_split_at_the_first_separator(Seq::empty(), 32u8, rest);
    assert(Seq::<u8>::empty() + seq![32u8] + rest =~= seq![32u8] + rest);
    lemma_position_none(method, 32u8);
    assert(whole.take(method.len() as int) =~= method);
    assert(header_end() == seq![13u8, 10u8, 13u8, 10u8]);
}

} // verus!
