//! The server name of a TLS client hello.

use vstd::prelude::*;

use super::cursor::{
    be16, behind_u16_length, behind_u8_length, law_blocks_round_trip, leading_u16, u16_block,
    u8_block, SliceCursor,
};
use super::outcome::{domain_finding, Finding, SniffOutcome, SniffedProtocol};

verus! {

pub const MAX_TLS_RECORD_PAYLOAD: usize = 18_432;

pub const MAX_TLS_CLIENT_HELLO: usize = 65_536;

/// The extensions of a client hello, behind version, random, session id, cipher suites and
/// compression methods.
pub open spec fn hello_extensions(hello: Seq<u8>) -> Option<Seq<u8>> {
    if hello.len() < 34 {
        None
    } else {
        match u8_block(hello.skip(34)) {
            None => None,
            Some((_, rest)) => match u16_block(rest) {
                None => None,
                Some((_, rest)) => match u8_block(rest) {
                    None => None,
                    Some((_, rest)) => match u16_block(rest) {
                        None => None,
                        Some((extensions, _)) => Some(extensions),
                    },
                },
            },
        }
    }
}

/// The first host name in a server name list.
pub open spec fn first_host_name(names: Seq<u8>) -> Option<Seq<u8>>
    decreases names.len(),
{
    if names.len() == 0 {
        None
    } else {
        match u16_block(names.skip(1)) {
            None => None,
            Some((name, rest)) => if names[0] == 0 {
                Some(name)
            } else if rest.len() < names.len() {
                first_host_name(rest)
            } else {
                None
            },
        }
    }
}

/// The host name in the first server name extension.
pub open spec fn extension_host_name(extensions: Seq<u8>) -> Option<Seq<u8>>
    decreases extensions.len(),
{
    if extensions.len() < 2 {
        None
    } else {
        match u16_block(extensions.skip(2)) {
            None => None,
            Some((payload, rest)) => if leading_u16(extensions) == 0 {
                match u16_block(payload) {
                    None => None,
                    Some((names, _)) => first_host_name(names),
                }
            } else if rest.len() < extensions.len() {
                extension_host_name(rest)
            } else {
                None
            },
        }
    }
}

/// What a complete client hello gives.
pub open spec fn hello_finding(hello: Seq<u8>) -> Finding {
    match hello_extensions(hello) {
        None => Finding::NoDomain,
        Some(extensions) => match extension_host_name(extensions) {
            None => Finding::NoDomain,
            Some(name) => domain_finding(SniffedProtocol::Tls, name),
        },
    }
}

/// The 24-bit length in a handshake header.
pub open spec fn handshake_length(handshake: Seq<u8>) -> int {
    handshake[1] * 65536 + handshake[2] * 256 + handshake[3]
}

/// The payload length in a record header.
pub open spec fn record_length(record: Seq<u8>) -> int {
    leading_u16(record.skip(3))
}

/// A handshake record header of a known version with a payload of legal length.
pub open spec fn valid_record_header(record: Seq<u8>) -> bool {
    &&& record[0] == 22
    &&& 0x0301 <= leading_u16(record.skip(1)) <= 0x0304
    &&& 0 < record_length(record) <= MAX_TLS_RECORD_PAYLOAD
}

/// What the handshake bytes joined so far decide, if anything.
pub open spec fn handshake_decision(handshake: Seq<u8>) -> Option<Finding> {
    if handshake.len() > MAX_TLS_CLIENT_HELLO {
        Some(Finding::NoDomain)
    } else if handshake.len() < 4 {
        None
    } else if handshake[0] != 1 || handshake_length(handshake) > MAX_TLS_CLIENT_HELLO {
        Some(Finding::NoDomain)
    } else if handshake.len() < handshake_length(handshake) + 4 {
        None
    } else {
        Some(hello_finding(handshake.subrange(4, handshake_length(handshake) + 4)))
    }
}

/// What the records in `rest` give, after those whose payloads make up `handshake`.
pub open spec fn records_finding(rest: Seq<u8>, handshake: Seq<u8>) -> Finding
    decreases rest.len(),
{
    if rest.len() < 5 {
        Finding::NeedMoreData
    } else if !valid_record_header(rest) {
        Finding::NoDomain
    } else if rest.len() < 5 + record_length(rest) {
        Finding::NeedMoreData
    } else {
        let end = 5 + record_length(rest);
        let joined = handshake + rest.subrange(5, end);
        match handshake_decision(joined) {
            Some(finding) => finding,
            None => records_finding(rest.skip(end), joined),
        }
    }
}

/// Bytes that come later do not change what the records have already decided.
pub proof fn lemma_records_decision_is_final(rest: Seq<u8>, handshake: Seq<u8>, more: Seq<u8>)
    requires
        records_finding(rest, handshake) !is NeedMoreData,
    ensures
        records_finding(rest + more, handshake) == records_finding(rest, handshake),
    decreases rest.len(),
{
    let whole = rest + more;
    assert(whole.skip(1)[0] == rest.skip(1)[0]);
    assert(whole.skip(1)[1] == rest.skip(1)[1]);
    assert(whole.skip(3)[0] == rest.skip(3)[0]);
    assert(whole.skip(3)[1] == rest.skip(3)[1]);
    if valid_record_header(rest) {
        let end = 5 + record_length(rest);
        assert(whole.subrange(5, end) =~= rest.subrange(5, end));
        let joined = handshake + rest.subrange(5, end);
        if rest.len() >= end && handshake_decision(joined) is None {
            lemma_records_decision_is_final(rest.skip(end), joined, more);
            assert(whole.skip(end) =~= rest.skip(end) + more);
        }
    }
}

/// The domain of a client hello.
pub fn parse_tls_client_hello(hello: &[u8]) -> (outcome: SniffOutcome)
    ensures
        outcome@ == hello_finding(hello@),
{
    let mut cursor = SliceCursor::new(hello);
    if cursor.take(2).is_none() || cursor.take(32).is_none() {
        return SniffOutcome::NoDomain;
    }
    assert(cursor@ =~= hello@.skip(34));
    if cursor.take_u8_length_prefixed().is_none() || cursor.take_u16_length_prefixed().is_none()
        || cursor.take_u8_length_prefixed().is_none() {
        return SniffOutcome::NoDomain;
    }
    let extensions = match cursor.take_u16_length_prefixed() {
        Some(extensions) => extensions,
        None => return SniffOutcome::NoDomain,
    };
    let ghost all = extensions@;
    let mut extensions = SliceCursor::new(extensions);
    while !extensions.is_empty()
        invariant
            hello_extensions(hello@) == Some(all),
            extension_host_name(extensions@) == extension_host_name(all),
        decreases extensions@.len(),
    {
        let extension_type: u16 = match extensions.take_u16() {
            Some(extension_type) => extension_type,
            None => return SniffOutcome::NoDomain,
        };
        let payload = match extensions.take_u16_length_prefixed() {
            Some(payload) => payload,
            None => return SniffOutcome::NoDomain,
        };
        if extension_type == 0 {
            let mut list = SliceCursor::new(payload);
            let names = match list.take_u16_length_prefixed() {
                Some(names) => names,
                None => return SniffOutcome::NoDomain,
            };
            let ghost listed = names@;
            let mut names = SliceCursor::new(names);
            while !names.is_empty()
                invariant
                    hello_extensions(hello@) == Some(all),
                    extension_host_name(all) == first_host_name(listed),
                    first_host_name(names@) == first_host_name(listed),
                decreases names@.len(),
            {
                let name_type: u8 = match names.take_u8() {
                    Some(name_type) => name_type,
                    None => return SniffOutcome::NoDomain,
                };
                let name = match names.take_u16_length_prefixed() {
                    Some(name) => name,
                    None => return SniffOutcome::NoDomain,
                };
                if name_type == 0 {
                    return SniffOutcome::domain(SniffedProtocol::Tls, name);
                }
            }
            return SniffOutcome::NoDomain;
        }
    }
    SniffOutcome::NoDomain
}

/// What the handshake bytes joined so far decide, if anything.
fn decide_handshake(handshake: &[u8]) -> (result: Option<SniffOutcome>)
    ensures
        match result {
            Some(outcome) => handshake_decision(handshake@) == Some(outcome@),
            None => handshake_decision(handshake@) is None,
        },
{
    if handshake.len() > MAX_TLS_CLIENT_HELLO {
        return Some(SniffOutcome::NoDomain);
    }
    if handshake.len() < 4 {
        return None;
    }
    let hello_length: usize = handshake[1] as usize * 65536 + handshake[2] as usize * 256
        + handshake[3] as usize;
    if handshake[0] != 1 || hello_length > MAX_TLS_CLIENT_HELLO {
        return Some(SniffOutcome::NoDomain);
    }
    if handshake.len() < hello_length + 4 {
        return None;
    }
    Some(parse_tls_client_hello(vstd::slice::slice_subrange(handshake, 4, hello_length + 4)))
}

/// The domain of the client hello at the start of a TLS stream, joined over records.
pub fn sniff_tls_client_hello(buffer: &[u8]) -> (outcome: SniffOutcome)
    ensures
        outcome@ == records_finding(buffer@, Seq::empty()),
{
    let mut rest = buffer;
    let mut handshake: Vec<u8> = Vec::new();
    loop
        invariant
            records_finding(rest@, handshake@) == records_finding(buffer@, Seq::empty()),
            handshake.len() <= MAX_TLS_CLIENT_HELLO,
        decreases rest.len(),
    {
        if rest.len() < 5 {
            return SniffOutcome::NeedMoreData;
        }
        let ghost record = rest@;
        proof {
            assert(record.skip(1)[0] == record[1] && record.skip(1)[1] == record[2]);
            assert(record.skip(3)[0] == record[3] && record.skip(3)[1] == record[4]);
        }
        let version: u16 = rest[1] as u16 * 256 + rest[2] as u16;
        let length: usize = rest[3] as usize * 256 + rest[4] as usize;
        if rest[0] != 22 || version < 0x0301 || version > 0x0304 || length == 0 || length
            > MAX_TLS_RECORD_PAYLOAD {
            return SniffOutcome::NoDomain;
        }
        if rest.len() < 5 + length {
            return SniffOutcome::NeedMoreData;
        }
        let payload = vstd::slice::slice_subrange(rest, 5, 5 + length);
        let ghost held = handshake@;
        handshake.extend_from_slice(payload);
        assert(handshake@ =~= held + record.subrange(5, 5 + length));
        if let Some(outcome) = decide_handshake(handshake.as_slice()) {
            return outcome;
        }
        let after = vstd::slice::slice_subrange(rest, 5 + length, rest.len());
        proof {
            assert(after@ =~= record.skip(5 + length));
        }
        rest = after;
    }
}

/// An extension of a client hello.
pub open spec fn extension_bytes(kind: int, payload: Seq<u8>) -> Seq<u8> {
    be16(kind) + behind_u16_length(payload)
}

/// Extensions that are no server name, one behind the other.
pub open spec fn other_extensions(extensions: Seq<(u16, Seq<u8>)>) -> Seq<u8>
    decreases extensions.len(),
{
    if extensions.len() == 0 {
        Seq::empty()
    } else {
        extension_bytes(extensions[0].0 as int, extensions[0].1) + other_extensions(
            extensions.skip(1),
        )
    }
}

/// An entry of a server name list.
pub open spec fn name_entry(kind: u8, name: Seq<u8>) -> Seq<u8> {
    seq![kind] + behind_u16_length(name)
}

/// A client hello with its fields in their order.
pub open spec fn client_hello(
    fixed: Seq<u8>,
    session: Seq<u8>,
    ciphers: Seq<u8>,
    compression: Seq<u8>,
    extensions: Seq<u8>,
    rest: Seq<u8>,
) -> Seq<u8> {
    fixed + (behind_u8_length(session) + (behind_u16_length(ciphers) + (behind_u8_length(
        compression,
    ) + (behind_u16_length(extensions) + rest))))
}

proof fn lemma_extension(kind: int, payload: Seq<u8>, rest: Seq<u8>)
    requires
        0 <= kind < 65536,
        payload.len() < 65536,
    ensures
        ({
            let all = extension_bytes(kind, payload) + rest;
            &&& all.len() >= 4
            &&& leading_u16(all) == kind
            &&& u16_block(all.skip(2)) == Some((payload, rest))
            &&& rest.len() < all.len()
        }),
{
    let all = extension_bytes(kind, payload) + rest;
    assert(all.skip(2) =~= behind_u16_length(payload) + rest);
    law_blocks_round_trip(payload, rest);
}

/// An extension that is no server name does not change what is found behind it.
pub proof fn law_other_extension_is_skipped(kind: int, payload: Seq<u8>, rest: Seq<u8>)
    requires
        0 < kind < 65536,
        payload.len() < 65536,
    ensures
        extension_host_name(extension_bytes(kind, payload) + rest) == extension_host_name(rest),
{
    lemma_extension(kind, payload, rest);
}

/// However many extensions of other kinds stand before it, what follows is found.
pub proof fn law_other_extensions_are_skipped(extensions: Seq<(u16, Seq<u8>)>, rest: Seq<u8>)
    requires
        forall|i: int|
            0 <= i < extensions.len() ==> (#[trigger] extensions[i]).0 != 0
                && extensions[i].1.len() < 65536,
    ensures
        extension_host_name(other_extensions(extensions) + rest) == extension_host_name(rest),
    decreases extensions.len(),
{
    if extensions.len() == 0 {
        assert(other_extensions(extensions) + rest =~= rest);
    } else {
        let (kind, payload) = extensions[0];
        let behind = other_extensions(extensions.skip(1));
        law_other_extensions_are_skipped(extensions.skip(1), rest);
        law_other_extension_is_skipped(kind as int, payload, behind + rest);
        assert(other_extensions(extensions) + rest =~= extension_bytes(kind as int, payload) + (
        behind + rest));
    }
}

/// A name of another kind does not change which host name is found behind it, and a host name is
/// taken as it stands.
pub proof fn law_first_host_name_counts(kind: u8, name: Seq<u8>, rest: Seq<u8>)
    requires
        name.len() < 65536,
    ensures
        kind != 0 ==> first_host_name(name_entry(kind, name) + rest) == first_host_name(rest),
        first_host_name(name_entry(0, name) + rest) == Some(name),
{
    assert((name_entry(kind, name) + rest).skip(1) =~= behind_u16_length(name) + rest);
    assert((name_entry(0, name) + rest).skip(1) =~= behind_u16_length(name) + rest);
    law_blocks_round_trip(name, rest);
}

/// An extension with a server name list whose first entry is a host name.
pub open spec fn server_name_extension(name: Seq<u8>, more_names: Seq<u8>) -> Seq<u8> {
    extension_bytes(0, behind_u16_length(name_entry(0, name) + more_names))
}

/// The host name of a server name extension is found, at whatever position the extension stands.
pub proof fn law_server_name_extension_is_found(
    before: Seq<(u16, Seq<u8>)>,
    name: Seq<u8>,
    more_names: Seq<u8>,
    after: Seq<u8>,
)
    requires
        forall|i: int|
            0 <= i < before.len() ==> (#[trigger] before[i]).0 != 0 && before[i].1.len() < 65536,
        name.len() + more_names.len() + 5 < 65536,
    ensures
        extension_host_name(
            other_extensions(before) + (server_name_extension(name, more_names) + after),
        ) == Some(name),
{
    let names = name_entry(0, name) + more_names;
    let payload = behind_u16_length(names);
    law_other_extensions_are_skipped(before, server_name_extension(name, more_names) + after);
    lemma_extension(0, payload, after);
    law_blocks_round_trip(names, Seq::empty());
    assert(payload + Seq::<u8>::empty() =~= payload);
    law_first_host_name_counts(0, name, more_names);
}

/// A client hello gives what its server name extension names, whatever the other fields hold.
pub proof fn law_server_name_is_found(
    fixed: Seq<u8>,
    session: Seq<u8>,
    ciphers: Seq<u8>,
    compression: Seq<u8>,
    before: Seq<(u16, Seq<u8>)>,
    name: Seq<u8>,
    more_names: Seq<u8>,
    after: Seq<u8>,
    rest: Seq<u8>,
)
    requires
        fixed.len() == 34,
        session.len() < 256,
        ciphers.len() < 65536,
        compression.len() < 256,
        forall|i: int|
            0 <= i < before.len() ==> (#[trigger] before[i]).0 != 0 && before[i].1.len() < 65536,
        name.len() + more_names.len() + 5 < 65536,
        (other_extensions(before) + (server_name_extension(name, more_names) + after)).len()
            < 65536,
    ensures
        hello_finding(
            client_hello(
                fixed,
                session,
                ciphers,
                compression,
                other_extensions(before) + (server_name_extension(name, more_names) + after),
                rest,
            ),
        ) == domain_finding(SniffedProtocol::Tls, name),
{
    let extensions = other_extensions(before) + (server_name_extension(name, more_names) + after);
    law_server_name_extension_is_found(before, name, more_names, after);
    lemma_hello_extensions(fixed, session, ciphers, compression, extensions, rest);
}

/// A client hello without a server name extension gives no domain.
pub proof fn law_hello_without_server_name_gives_nothing(
    fixed: Seq<u8>,
    session: Seq<u8>,
    ciphers: Seq<u8>,
    compression: Seq<u8>,
    extensions: Seq<(u16, Seq<u8>)>,
    rest: Seq<u8>,
)
    requires
        fixed.len() == 34,
        session.len() < 256,
        ciphers.len() < 65536,
        compression.len() < 256,
        forall|i: int|
            0 <= i < extensions.len() ==> (#[trigger] extensions[i]).0 != 0
                && extensions[i].1.len() < 65536,
        other_extensions(extensions).len() < 65536,
    ensures
        hello_finding(
            client_hello(fixed, session, ciphers, compression, other_extensions(extensions), rest),
        ) is NoDomain,
{
    let all = other_extensions(extensions);
    lemma_hello_extensions(fixed, session, ciphers, compression, all, rest);
    law_other_extensions_are_skipped(extensions, Seq::empty());
    assert(all + Seq::<u8>::empty() =~= all);
}

proof fn lemma_hello_extensions(
    fixed: Seq<u8>,
    session: Seq<u8>,
    ciphers: Seq<u8>,
    compression: Seq<u8>,
    extensions: Seq<u8>,
    rest: Seq<u8>,
)
    requires
        fixed.len() == 34,
        session.len() < 256,
        ciphers.len() < 65536,
        compression.len() < 256,
        extensions.len() < 65536,
    ensures
        hello_extensions(client_hello(fixed, session, ciphers, compression, extensions, rest))
            == Some(extensions),
{
    let hello = client_hello(fixed, session, ciphers, compression, extensions, rest);
    let fourth = behind_u16_length(extensions) + rest;
    let third = behind_u8_length(compression) + fourth;
    let second = behind_u16_length(ciphers) + third;
    let first = behind_u8_length(session) + second;
    assert(hello.skip(34) =~= first);
    law_blocks_round_trip(session, second);
    law_blocks_round_trip(ciphers, third);
    law_blocks_round_trip(compression, fourth);
    law_blocks_round_trip(extensions, rest);
}

/// A handshake message with a client hello.
pub open spec fn hello_message(hello: Seq<u8>) -> Seq<u8> {
    seq![
        1u8,
        (hello.len() / 65536) as u8,
        (hello.len() / 256 % 256) as u8,
        (hello.len() % 256) as u8,
    ] + hello
}

/// A handshake record. `minor` is the lower byte of its version.
pub open spec fn record_bytes(minor: u8, payload: Seq<u8>) -> Seq<u8> {
    seq![22u8, 3u8, minor] + behind_u16_length(payload)
}

/// Records with these payloads, one behind the other.
pub open spec fn records_bytes(minor: u8, payloads: Seq<Seq<u8>>) -> Seq<u8>
    decreases payloads.len(),
{
    if payloads.len() == 0 {
        Seq::empty()
    } else {
        record_bytes(minor, payloads[0]) + records_bytes(minor, payloads.skip(1))
    }
}

/// The payloads one behind the other.
pub open spec fn joined_payloads(payloads: Seq<Seq<u8>>) -> Seq<u8>
    decreases payloads.len(),
{
    if payloads.len() == 0 {
        Seq::empty()
    } else {
        payloads[0] + joined_payloads(payloads.skip(1))
    }
}

proof fn lemma_record(minor: u8, payload: Seq<u8>, behind: Seq<u8>)
    requires
        1 <= minor <= 4,
        0 < payload.len() <= 18_432,
    ensures
        ({
            let all = record_bytes(minor, payload) + behind;
            &&& all.len() >= 5 + payload.len()
            &&& valid_record_header(all)
            &&& record_length(all) == payload.len()
            &&& all.subrange(5, 5 + payload.len() as int) == payload
            &&& all.skip(5 + payload.len() as int) == behind
        }),
{
    let all = record_bytes(minor, payload) + behind;
    assert(all.skip(1)[0] == 3 && all.skip(1)[1] == minor);
    assert(all.skip(3)[0] == (payload.len() / 256) as u8);
    assert(all.skip(3)[1] == (payload.len() % 256) as u8);
    assert(all.subrange(5, 5 + payload.len() as int) =~= payload);
    assert(all.skip(5 + payload.len() as int) =~= behind);
}

proof fn lemma_message_prefix(hello: Seq<u8>, length: int)
    requires
        hello.len() <= 65_532,
        0 <= length <= hello.len() + 4,
    ensures
        ({
            let part = hello_message(hello).take(length);
            if length < hello.len() + 4 {
                handshake_decision(part) is None
            } else {
                handshake_decision(part) == Some(hello_finding(hello))
            }
        }),
{
    let message = hello_message(hello);
    let part = message.take(length);
    if length >= 4 {
        assert(part[0] == 1 && part[1] == message[1] && part[2] == message[2] && part[3]
            == message[3]);
        assert(handshake_length(part) == hello.len());
        if length == hello.len() + 4 {
            assert(part.subrange(4, hello.len() as int + 4) =~= hello);
        }
    }
}

/// However a client hello is divided over records of known versions, it gives what it gives in
/// one piece; and while a record is missing, more data is asked for.
pub proof fn law_records_are_joined(
    hello: Seq<u8>,
    held: Seq<u8>,
    minor: u8,
    payloads: Seq<Seq<u8>>,
    rest: Seq<u8>,
)
    requires
        1 <= minor <= 4,
        hello.len() <= 65_532,
        forall|i: int|
            0 <= i < payloads.len() ==> 0 < (#[trigger] payloads[i]).len() <= 18_432,
        held.len() < hello.len() + 4,
        held + joined_payloads(payloads) == hello_message(hello).take(
            (held + joined_payloads(payloads)).len() as int,
        ),
        (held + joined_payloads(payloads)).len() <= hello.len() + 4,
    ensures
        (held + joined_payloads(payloads)).len() == hello.len() + 4 ==> records_finding(
            records_bytes(minor, payloads) + rest,
            held,
        ) == hello_finding(hello),
        (held + joined_payloads(payloads)).len() < hello.len() + 4 ==> records_finding(
            records_bytes(minor, payloads),
            held,
        ) is NeedMoreData,
    decreases payloads.len(),
{
    let message = hello_message(hello);
    let whole = held + joined_payloads(payloads);
    if payloads.len() == 0 {
        assert(whole =~= held);
    } else {
        let payload = payloads[0];
        let others = payloads.skip(1);
        let behind = records_bytes(minor, others);
        let joined = held + payload;
        assert(whole =~= joined + joined_payloads(others));
        assert(joined =~= message.take(joined.len() as int)) by {
            assert forall|i: int| 0 <= i < joined.len() implies joined[i] == message[i] by {
                assert(joined[i] == whole[i] && whole[i] == message.take(whole.len() as int)[i]);
            }
        }
        lemma_record(minor, payload, behind + rest);
        lemma_record(minor, payload, behind);
        assert(records_bytes(minor, payloads) + rest =~= record_bytes(minor, payload) + (behind
            + rest));
        assert(records_bytes(minor, payloads) =~= record_bytes(minor, payload) + behind);
        lemma_message_prefix(hello, joined.len() as int);
        if joined.len() < hello.len() + 4 {
            assert(joined + joined_payloads(others) =~= whole);
            law_records_are_joined(hello, joined, minor, others, rest);
        } else {
            assert(joined =~= message);
            assert(message.take(hello.len() as int + 4) =~= message);
        }
    }
}

/// A first record that is no handshake of a known version, is empty or is longer than records may
/// be gives no domain, and neither does a handshake message that is no client hello.
pub proof fn law_other_records_give_nothing(record: Seq<u8>, minor: u8, message: Seq<u8>)
    ensures
        record.len() >= 5 && (record[0] != 22 || record[1] != 3 || record[2] == 0 || record[2] > 4
            || record[3] * 256 + record[4] == 0 || record[3] * 256 + record[4] > 18_432)
            ==> records_finding(record, Seq::empty()) is NoDomain,
        1 <= minor <= 4 && 4 <= message.len() <= 18_432 && message[0] != 1 ==> records_finding(
            record_bytes(minor, message),
            Seq::empty(),
        ) is NoDomain,
{
    if record.len() >= 5 {
        assert(record.skip(1)[0] == record[1] && record.skip(1)[1] == record[2]);
        assert(record.skip(3)[0] == record[3] && record.skip(3)[1] == record[4]);
    }
    if 1 <= minor <= 4 && 4 <= message.len() <= 18_432 {
        lemma_record(minor, message, Seq::empty());
        assert(record_bytes(minor, message) + Seq::<u8>::empty() =~= record_bytes(minor, message));
        assert(Seq::<u8>::empty() + message =~= message);
    }
}

/// Handshake bytes are waited for until the client hello is there in whole. One that is no client
/// hello, or that is longer than 65,536 bytes, is given up.
pub proof fn law_hellos_are_waited_for(handshake: Seq<u8>)
    ensures
        handshake.len() > 65_536 ==> handshake_decision(handshake) == Some(Finding::NoDomain),
        handshake.len() < 4 ==> handshake_decision(handshake) is None,
        4 <= handshake.len() <= 65_536 && handshake[0] != 1 ==> handshake_decision(handshake)
            == Some(Finding::NoDomain),
        4 <= handshake.len() <= 65_536 && handshake[0] == 1 && handshake[1] * 65_536 + handshake[2]
            * 256 + handshake[3] > 65_536 ==> handshake_decision(handshake) == Some(
            Finding::NoDomain,
        ),
        4 <= handshake.len() <= 65_536 && handshake[0] == 1 && handshake.len() < 4 + handshake[1]
            * 65_536 + handshake[2] * 256 + handshake[3] && handshake[1] * 65_536 + handshake[2]
            * 256 + handshake[3] <= 65_536 ==> handshake_decision(handshake) is None,
{
}

} // verus!
