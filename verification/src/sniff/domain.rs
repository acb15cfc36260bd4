//! Normal form of the domain that a peer names.

use vstd::prelude::*;

use crate::address::{ipv4_octets, parse_ipv4};
use crate::text::{
    all_ascii, all_digits, all_whitespace, ascii_string, ascii_text, find_byte, is_alphanumeric,
    is_digit, is_whitespace, law_parts_are_split_at_the_first_separator, lemma_position,
    lemma_position_is, lemma_position_none, lemma_trimmed_between, lower, lowered, lowered_bytes,
    only_digits, position, raised, split_at_byte, split_once, trim_ascii, trimmed,
};

verus! {

/// The host of an authority: the part inside brackets, or the part before a decimal port.
pub open spec fn host_part(authority: Seq<u8>) -> Option<Seq<u8>> {
    if authority.len() > 0 && authority[0] == 91 {
        match split_once(authority, 93) {
            None => None,
            Some((opened, after)) => if after.len() == 0 || (after[0] == 58 && all_digits(
                after.skip(1),
            )) {
                Some(opened.skip(1))
            } else {
                None
            },
        }
    } else {
        match split_once(authority, 58) {
            Some((host, port)) => if position(port, 58) is None && port.len() > 0 && all_digits(
                port,
            ) {
                Some(host)
            } else {
                Some(authority)
            },
            None => Some(authority),
        }
    }
}

/// `name` without one trailing dot.
pub open spec fn without_root_dot(name: Seq<u8>) -> Seq<u8> {
    if name.len() > 0 && name.last() == 46 {
        name.drop_last()
    } else {
        name
    }
}

/// One to 63 letters, digits and hyphens, with no hyphen at either end.
pub open spec fn valid_label(label: Seq<u8>) -> bool {
    &&& 0 < label.len() <= 63
    &&& label[0] != 45
    &&& label.last() != 45
    &&& forall|i: int| 0 <= i < label.len() ==> is_alphanumeric(#[trigger] label[i]) || label[i] == 45
}

/// Every dot-separated label is valid.
pub open spec fn valid_labels(name: Seq<u8>) -> bool
    decreases name.len(),
{
    match split_once(name, 46) {
        None => valid_label(name),
        Some((label, rest)) => if rest.len() < name.len() {
            valid_label(label) && valid_labels(rest)
        } else {
            false
        },
    }
}

/// A lower-case name of at most 253 bytes with valid labels that is no IPv4 address.
///
/// An IPv6 address needs no mention: a colon is in no valid label.
pub open spec fn is_domain_name(name: Seq<u8>) -> bool {
    &&& 0 < name.len() <= 253
    &&& all_ascii(name)
    &&& ipv4_octets(name) is None
    &&& valid_labels(name)
}

/// The domain that `authority` names, in normal form.
pub open spec fn domain_of(authority: Seq<u8>) -> Option<Seq<u8>> {
    match host_part(trimmed(authority)) {
        None => None,
        Some(host) => {
            let name = lowered(without_root_dot(host));
            if is_domain_name(name) {
                Some(name)
            } else {
                None
            }
        },
    }
}

fn host_of(authority: &[u8]) -> (result: Option<&[u8]>)
    ensures
        match result {
            Some(host) => host_part(authority@) == Some(host@),
            None => host_part(authority@) is None,
        },
{
    if authority.len() > 0 && authority[0] == 91 {
        match split_at_byte(authority, 93) {
            None => None,
            Some((opened, after)) => {
                proof {
                    lemma_position(authority@, 93);
                    assert(opened@.len() > 0);
                    assert(opened@.subrange(1, opened@.len() as int) =~= opened@.skip(1));
                }
                if after.len() == 0 {
                    return Some(vstd::slice::slice_subrange(opened, 1, opened.len()));
                }
                let port = vstd::slice::slice_subrange(after, 1, after.len());
                proof {
                    assert(port@ =~= after@.skip(1));
                }
                if after[0] == 58 && only_digits(port) {
                    Some(vstd::slice::slice_subrange(opened, 1, opened.len()))
                } else {
                    None
                }
            },
        }
    } else {
        match split_at_byte(authority, 58) {
            Some((host, port)) => {
                if find_byte(port, 58).is_none() && port.len() > 0 && only_digits(port) {
                    Some(host)
                } else {
                    Some(authority)
                }
            },
            None => Some(authority),
        }
    }
}

fn check_label(label: &[u8]) -> (result: bool)
    ensures
        result == valid_label(label@),
{
    if label.len() == 0 || label.len() > 63 || label[0] == 45 || label[label.len() - 1] == 45 {
        return false;
    }
    let mut index: usize = 0;
    while index < label.len()
        invariant
            index <= label.len(),
            forall|i: int|
                0 <= i < index ==> is_alphanumeric(#[trigger] label@[i]) || label@[i] == 45,
        decreases label.len() - index,
    {
        let byte: u8 = label[index];
        let alphanumeric = (48 <= byte && byte <= 57) || (65 <= byte && byte <= 90) || (97 <= byte
            && byte <= 122);
        if !alphanumeric && byte != 45 {
            assert(!is_alphanumeric(label@[index as int]) && label@[index as int] != 45);
            return false;
        }
        index += 1;
    }
    true
}

/// Whether every dot-separated label of `name` is valid.
pub fn check_labels(name: &[u8]) -> (result: bool)
    ensures
        result == valid_labels(name@),
{
    let mut rest = name;
    loop
        invariant
            valid_labels(rest@) == valid_labels(name@),
        decreases rest.len(),
    {
        match split_at_byte(rest, 46) {
            None => {
                return check_label(rest);
            },
            Some((label, after)) => {
                if !check_label(label) {
                    return false;
                }
                rest = after;
            },
        }
    }
}

fn check_ascii(bytes: &[u8]) -> (result: bool)
    ensures
        result == all_ascii(bytes@),
{
    let mut index: usize = 0;
    while index < bytes.len()
        invariant
            index <= bytes.len(),
            forall|i: int| 0 <= i < index ==> #[trigger] bytes@[i] < 128,
        decreases bytes.len() - index,
    {
        if bytes[index] >= 128 {
            return false;
        }
        index += 1;
    }
    true
}

/// The domain that `authority` names, in normal form: trimmed, without port, brackets and
/// trailing dot, in lower case. `None` for addresses and malformed names.
pub fn normalize_domain(authority: &[u8]) -> (result: Option<String>)
    ensures
        match result {
            Some(name) => domain_of(authority@) is Some && name@ == ascii_text(
                domain_of(authority@)->Some_0,
            ),
            None => domain_of(authority@) is None,
        },
{
    let host = match host_of(trim_ascii(authority)) {
        Some(host) => host,
        None => return None,
    };
    let host = if host.len() > 0 && host[host.len() - 1] == 46 {
        proof {
            assert(host@.subrange(0, host@.len() - 1) =~= host@.drop_last());
        }
        vstd::slice::slice_subrange(host, 0, host.len() - 1)
    } else {
        host
    };
    let name = lowered_bytes(host);
    if name.len() == 0 || name.len() > 253 || !check_ascii(name.as_slice()) {
        return None;
    }
    if parse_ipv4(name.as_slice()).is_some() || !check_labels(name.as_slice()) {
        return None;
    }
    Some(ascii_string(name))
}

/// A letter, a digit, a hyphen or a dot.
spec fn is_name_byte(byte: u8) -> bool {
    is_alphanumeric(byte) || byte == 45 || byte == 46
}

/// Valid labels hold letters, digits, hyphens and dots, and the last of them is not empty.
proof fn lemma_valid_labels(name: Seq<u8>)
    requires
        valid_labels(name),
    ensures
        name.len() > 0,
        name.last() != 46,
        forall|i: int| 0 <= i < name.len() ==> is_name_byte(#[trigger] name[i]),
    decreases name.len(),
{
    lemma_position(name, 46);
    match split_once(name, 46) {
        None => {
            assert forall|i: int| 0 <= i < name.len() implies is_name_byte(#[trigger] name[i]) by {
                assert(is_alphanumeric(name[i]) || name[i] == 45);
            }
        },
        Some((label, rest)) => {
            lemma_valid_labels(rest);
            assert(name.last() == rest.last());
            assert forall|i: int| 0 <= i < name.len() implies is_name_byte(#[trigger] name[i]) by {
                if i < label.len() {
                    assert(name[i] == label[i]);
                } else if i > label.len() {
                    assert(name[i] == rest[i - label.len() - 1]);
                }
            }
        },
    }
}

/// What a name in any letter case is made of.
proof fn lemma_written_name(written: Seq<u8>)
    requires
        valid_labels(lowered(written)),
    ensures
        written.len() > 0,
        written.last() != 46,
        forall|i: int| 0 <= i < written.len() ==> is_name_byte(#[trigger] written[i]),
{
    let name = lowered(written);
    lemma_valid_labels(name);
    assert(name.last() == lower(written.last()));
    assert forall|i: int| 0 <= i < written.len() implies is_name_byte(#[trigger] written[i]) by {
        assert(name[i] == lower(written[i]));
    }
}

/// `name`, with a dot behind it where `rooted` says so.
pub open spec fn with_root_dot(name: Seq<u8>, rooted: bool) -> Seq<u8> {
    if rooted {
        name.push(46)
    } else {
        name
    }
}

/// `host`, with a colon and `port` behind it where there is one.
pub open spec fn with_port_digits(host: Seq<u8>, port: Option<Seq<u8>>) -> Seq<u8> {
    match port {
        Some(port) => host + seq![58u8] + port,
        None => host,
    }
}

/// However a domain is spelled, it has one normal form: letter case, a dot behind it, a decimal
/// port and white space around it do not count.
pub proof fn law_spellings_have_one_normal_form(
    authority: Seq<u8>,
    domain: Seq<u8>,
    written: Seq<u8>,
    rooted: bool,
    port: Option<Seq<u8>>,
    before: Seq<u8>,
    after: Seq<u8>,
)
    requires
        domain_of(authority) == Some(domain),
        lowered(written) == domain,
        port matches Some(port) ==> port.len() > 0 && all_digits(port),
        all_whitespace(before),
        all_whitespace(after),
    ensures
        domain_of(before + with_port_digits(with_root_dot(written, rooted), port) + after) == Some(
            domain,
        ),
{
    lemma_written_name(written);
    let host = with_root_dot(written, rooted);
    let spelled = with_port_digits(host, port);
    assert(spelled[0] == written[0] && is_name_byte(written[0]));
    assert(!is_whitespace(spelled.last())) by {
        match port {
            Some(port) => {
                assert(spelled.last() == port.last());
            },
            None => {
                assert(host.last() == 46 || is_name_byte(written[written.len() - 1]));
            },
        }
    }
    lemma_trimmed_between(before, spelled, after);
    assert forall|i: int| 0 <= i < host.len() implies #[trigger] host[i] != 58 by {
        if i < written.len() {
            assert(host[i] == written[i] && is_name_byte(written[i]));
        }
    }
    match port {
        Some(port) => {
            assert forall|i: int| 0 <= i < host.len() implies spelled[i] != 58 by {
                assert(spelled[i] == host[i]);
            }
            lemma_position_is(spelled, 58, host.len() as int);
            lemma_position_none(port, 58);
            assert(spelled.take(host.len() as int) =~= host);
            assert(spelled.skip(host.len() as int + 1) =~= port);
        },
        None => {
            lemma_position_none(spelled, 58);
        },
    }
    assert(host_part(spelled) == Some(host));
    assert(without_root_dot(host) =~= written);
}

/// A domain in normal form is its own normal form, also with a dot or a decimal port behind it,
/// between white space and in upper case.
pub proof fn law_normal_form_is_kept(
    authority: Seq<u8>,
    domain: Seq<u8>,
    port: Seq<u8>,
    before: Seq<u8>,
    after: Seq<u8>,
)
    requires
        domain_of(authority) == Some(domain),
        port.len() > 0,
        all_digits(port),
        all_whitespace(before),
        all_whitespace(after),
    ensures
        domain_of(domain) == Some(domain),
        domain_of(domain.push(46)) == Some(domain),
        domain_of(domain + seq![58u8] + port) == Some(domain),
        domain_of(before + domain + after) == Some(domain),
        domain_of(raised(domain)) == Some(domain),
{
    let none = Seq::<u8>::empty();
    assert(lowered(domain) =~= domain);
    assert(lowered(raised(domain)) =~= domain);
    law_spellings_have_one_normal_form(authority, domain, domain, false, None, before, after);
    law_spellings_have_one_normal_form(authority, domain, domain, false, None, none, none);
    law_spellings_have_one_normal_form(authority, domain, domain, true, None, none, none);
    law_spellings_have_one_normal_form(authority, domain, domain, false, Some(port), none, none);
    law_spellings_have_one_normal_form(authority, domain, raised(domain), false, None, none, none);
    assert(none + domain + none =~= domain);
    assert(none + domain.push(46) + none =~= domain.push(46));
    assert(none + (domain + seq![58u8] + port) + none =~= domain + seq![58u8] + port);
    assert(none + raised(domain) + none =~= raised(domain));
}

/// Labels with dots between them.
pub open spec fn dotted(labels: Seq<Seq<u8>>) -> Seq<u8>
    decreases labels.len(),
{
    if labels.len() == 0 {
        Seq::empty()
    } else if labels.len() == 1 {
        labels[0]
    } else {
        labels[0] + seq![46u8] + dotted(labels.skip(1))
    }
}

/// One to 63 lower-case letters, digits and hyphens, with no hyphen at either end.
pub open spec fn is_plain_label(label: Seq<u8>) -> bool {
    &&& 1 <= label.len() <= 63
    &&& label[0] != 45
    &&& label[label.len() - 1] != 45
    &&& forall|i: int|
        0 <= i < label.len() ==> 48 <= #[trigger] label[i] <= 57 || 97 <= label[i] <= 122
            || label[i] == 45
}

proof fn lemma_dotted(labels: Seq<Seq<u8>>)
    requires
        labels.len() > 0,
        forall|i: int| 0 <= i < labels.len() ==> is_plain_label(#[trigger] labels[i]),
    ensures
        valid_labels(dotted(labels)),
        lowered(dotted(labels)) == dotted(labels),
        all_ascii(dotted(labels)),
    decreases labels.len(),
{
    let name = dotted(labels);
    let label = labels[0];
    assert(is_plain_label(label));
    assert(valid_label(label));
    assert forall|i: int| 0 <= i < label.len() implies label[i] != 46 by {
        assert(48 <= label[i] <= 57 || 97 <= label[i] <= 122 || label[i] == 45);
    }
    if labels.len() == 1 {
        lemma_position_none(name, 46);
        assert forall|i: int| 0 <= i < name.len() implies lowered(name)[i] == name[i]
            && #[trigger] name[i] < 128 by {
            assert(48 <= label[i] <= 57 || 97 <= label[i] <= 122 || label[i] == 45);
        }
        assert(lowered(name) =~= name);
    } else {
        let others = labels.skip(1);
        let rest = dotted(others);
        assert forall|i: int| 0 <= i < others.len() implies is_plain_label(#[trigger] others[i]) by {
            assert(is_plain_label(labels[i + 1]));
        }
        lemma_dotted(others);
        lemma_position_is(name, 46, label.len() as int);
        assert(name.take(label.len() as int) =~= label);
        assert(name.skip(label.len() as int + 1) =~= rest);
        assert forall|i: int| 0 <= i < name.len() implies lowered(name)[i] == name[i]
            && #[trigger] name[i] < 128 by {
            if i < label.len() {
                assert(name[i] == label[i]);
                assert(48 <= label[i] <= 57 || 97 <= label[i] <= 122 || label[i] == 45);
            } else if i > label.len() {
                let at = i - label.len() - 1;
                assert(name[i] == rest[at]);
                assert(lowered(rest)[at] == lower(rest[at]));
            }
        }
        assert(lowered(name) =~= name);
    }
}

/// Every dotted name of well-formed labels, of at most 253 bytes, that is no IPv4 address is a
/// domain in normal form.
pub proof fn law_well_formed_names_are_domains(labels: Seq<Seq<u8>>)
    requires
        labels.len() > 0,
        forall|i: int| 0 <= i < labels.len() ==> is_plain_label(#[trigger] labels[i]),
        dotted(labels).len() <= 253,
        ipv4_octets(dotted(labels)) is None,
    ensures
        domain_of(dotted(labels)) == Some(dotted(labels)),
{
    let name = dotted(labels);
    lemma_dotted(labels);
    lemma_valid_labels(name);
    assert(is_name_byte(name[0]));
    assert(is_name_byte(name[name.len() - 1]));
    lemma_trimmed_between(Seq::empty(), name, Seq::empty());
    assert(Seq::<u8>::empty() + name + Seq::<u8>::empty() =~= name);
    assert forall|i: int| 0 <= i < name.len() implies name[i] != 58 by {
        assert(is_name_byte(name[i]));
    }
    lemma_position_none(name, 58);
}

/// Whatever authority it is found for, a domain in normal form is of at most 253 bytes, all of them
/// lower-case letters, digits, hyphens and dots, and no IPv4 address; no label of it is empty or
/// longer than 63 bytes.
pub proof fn law_domains_are_well_formed(authority: Seq<u8>, domain: Seq<u8>, start: int, end: int)
    requires
        domain_of(authority) == Some(domain),
    ensures
        0 < domain.len() <= 253,
        ipv4_octets(domain) is None,
        forall|i: int|
            0 <= i < domain.len() ==> 48 <= #[trigger] domain[i] <= 57 || 97 <= domain[i] <= 122
                || domain[i] == 45 || domain[i] == 46,
        domain[0] != 45 && domain[0] != 46,
        domain.last() != 46,
        0 <= start <= end <= domain.len() && (forall|i: int|
            start <= i < end ==> #[trigger] domain[i] != 46) ==> end - start <= 63,
        forall|i: int|
            0 < i < domain.len() && #[trigger] domain[i] == 46 ==> domain[i - 1] != 46 && domain[i
                - 1] != 45,
{
    lemma_valid_labels(domain);
    lemma_label_bounds(domain, start, end);
    assert forall|i: int| 0 <= i < domain.len() implies 48 <= #[trigger] domain[i] <= 57 || 97
        <= domain[i] <= 122 || domain[i] == 45 || domain[i] == 46 by {
        assert(is_name_byte(domain[i]));
    }
}

proof fn lemma_label_bounds(name: Seq<u8>, start: int, end: int)
    requires
        valid_labels(name),
    ensures
        name.len() > 0 && name[0] != 45 && name[0] != 46,
        0 <= start <= end <= name.len() && (forall|i: int|
            start <= i < end ==> #[trigger] name[i] != 46) ==> end - start <= 63,
        forall|i: int|
            0 < i < name.len() && #[trigger] name[i] == 46 ==> name[i - 1] != 46 && name[i - 1]
                != 45,
    decreases name.len(),
{
    lemma_position(name, 46);
    if let Some((label, rest)) = split_once(name, 46) {
        let dot = label.len() as int;
        assert(name[0] == label[0]);
        lemma_label_bounds(rest, start - dot - 1, end - dot - 1);
        assert forall|i: int| 0 < i < name.len() && #[trigger] name[i] == 46 implies name[i - 1]
            != 46 && name[i - 1] != 45 by {
            if i < dot {
            } else if i == dot {
                assert(name[i - 1] == label.last());
                assert(is_alphanumeric(label[dot - 1]) || label[dot - 1] == 45);
            } else {
                assert(name[i] == rest[i - dot - 1]);
                if i - 1 > dot {
                    assert(name[i - 1] == rest[i - dot - 2]);
                } else {
                    assert(rest[0] == 46);
                }
            }
        }
        if 0 <= start <= end <= name.len() && forall|i: int|
            start <= i < end ==> #[trigger] name[i] != 46 {
            if start <= dot && end > dot {
                assert(name[dot] != 46);
            } else if start > dot {
                assert forall|i: int| start - dot - 1 <= i < end - dot - 1 implies #[trigger] rest[i]
                    != 46 by {
                    assert(rest[i] == name[i + dot + 1]);
                }
            }
        }
    } else {
        assert forall|i: int| 0 < i < name.len() && #[trigger] name[i] == 46 implies name[i - 1]
            != 46 && name[i - 1] != 45 by {}
        assert(is_alphanumeric(name[0]) || name[0] == 45);
    }
}

/// A decimal port behind a colon is no part of the host, nor are brackets around it. A host without
/// brackets that holds two colons has no port, brackets that are not closed hold no host, and
/// nothing but a port may follow them.
pub proof fn law_hosts_are_told_from_ports(host: Seq<u8>, port: Seq<u8>, other: Seq<u8>)
    requires
        forall|i: int| 0 <= i < port.len() ==> 48 <= #[trigger] port[i] <= 57,
    ensures
        (forall|i: int| 0 <= i < host.len() ==> host[i] != 58) && (host.len() == 0 || host[0] != 91)
            ==> host_part(host) == Some(host) && (port.len() > 0 ==> host_part(
            host + seq![58u8] + port,
        ) == Some(host)) && host_part(host + seq![58u8] + other + seq![58u8] + port) == Some(
            host + seq![58u8] + other + seq![58u8] + port,
        ) && host_part(host + seq![58u8]) == Some(host + seq![58u8]),
        (forall|i: int| 0 <= i < host.len() ==> host[i] != 93) ==> host_part(
            seq![91u8] + host + seq![93u8],
        ) == Some(host) && host_part(seq![91u8] + host + seq![93u8] + (seq![58u8] + port)) == Some(
            host,
        ) && host_part(seq![91u8] + host) is None && (other.len() > 0 && other[0] != 58
            ==> host_part(seq![91u8] + host + seq![93u8] + other) is None),
{
    assert(all_digits(port));
    if (forall|i: int| 0 <= i < host.len() ==> host[i] != 58) && (host.len() == 0 || host[0]
        != 91) {
        law_parts_are_split_at_the_first_separator(host, 58u8, port);
        law_parts_are_split_at_the_first_separator(host, 58u8, Seq::empty());
        assert(host + seq![58u8] + Seq::<u8>::empty() =~= host + seq![58u8]);
        assert forall|i: int| 0 <= i < port.len() implies port[i] != 58u8 by {
            assert(is_digit(port[i]));
        }
        lemma_position_none(port, 58u8);
        let rest = other + seq![58u8] + port;
        let whole = host + seq![58u8] + other + seq![58u8] + port;
        assert(whole =~= host + seq![58u8] + rest);
        law_parts_are_split_at_the_first_separator(host, 58u8, rest);
        lemma_position(rest, 58u8);
        assert(rest[other.len() as int] == 58);
        assert(host.len() == 0 ==> whole[0] == 58);
        assert(host.len() > 0 ==> whole[0] == host[0]);
    }
    if forall|i: int| 0 <= i < host.len() ==> host[i] != 93 {
        let opened = seq![91u8] + host;
        assert forall|i: int| 0 <= i < opened.len() implies opened[i] != 93u8 by {
            if i > 0 {
                assert(opened[i] == host[i - 1]);
            }
        }
        law_parts_are_split_at_the_first_separator(opened, 93u8, Seq::empty());
        law_parts_are_split_at_the_first_separator(opened, 93u8, seq![58u8] + port);
        law_parts_are_split_at_the_first_separator(opened, 93u8, other);
        assert(opened + seq![93u8] + Seq::<u8>::empty() =~= opened + seq![93u8]);
        assert(opened.skip(1) =~= host);
        assert((seq![58u8] + port).skip(1) =~= port);
    }
}

} // verus!
