//! IP addresses and socket addresses as plain values.

use vstd::prelude::*;
use vstd::string::*;

use crate::text::{
    all_ascii, all_digits, ascii_string, ascii_text, bytes_equal, decimal, decimal_text, find,
    find_bytes, hex_char, hex_digit, is_digit, is_digit_char, law_decimal_text_spells_its_number,
    law_digits_spell_the_same_as_bytes, law_parts_are_split_at_the_first_separator, lemma_find,
    lemma_find_is, lemma_position, number_text, occurs_at, only_digits, split_at_byte, split_once,
    text_bytes,
};

verus! {

/// An IP address, by its octets.
#[derive(Clone, Copy, Debug, PartialEq, Eq)]
pub enum IpAddress {
    V4([u8; 4]),
    V6([u8; 16]),
}

impl View for IpAddress {
    type V = Seq<u8>;

    open spec fn view(&self) -> Seq<u8> {
        match self {
            IpAddress::V4(octets) => octets@,
            IpAddress::V6(octets) => octets@,
        }
    }
}

impl IpAddress {
    pub fn octets(&self) -> (octets: &[u8])
        ensures
            octets@ == self@,
    {
        match self {
            IpAddress::V4(octets) => octets.as_slice(),
            IpAddress::V6(octets) => octets.as_slice(),
        }
    }

    pub fn is_ipv4(&self) -> (result: bool)
        ensures
            result == (*self is V4),
            result == (self@.len() == 4),
    {
        match self {
            IpAddress::V4(_) => true,
            IpAddress::V6(_) => false,
        }
    }

    /// Whether two addresses are the same. An IPv4 address is never the same as an IPv6 address.
    pub fn same(&self, other: &IpAddress) -> (result: bool)
        ensures
            result == (self@ == other@),
    {
        bytes_equal(self.octets(), other.octets())
    }

    /// 127.0.0.0/8 and ::1.
    pub open spec fn loopback(&self) -> bool {
        match self {
            IpAddress::V4(octets) => octets@[0] == 127,
            IpAddress::V6(octets) => octets@[15] == 1 && forall|i: int|
                0 <= i < 15 ==> octets@[i] == 0,
        }
    }

    pub fn is_loopback(&self) -> (result: bool)
        ensures
            result == self.loopback(),
    {
        match self {
            IpAddress::V4(octets) => octets[0] == 127,
            IpAddress::V6(octets) => {
                let mut index: usize = 0;
                while index < 15
                    invariant
                        index <= 15,
                        *self == IpAddress::V6(*octets),
                        forall|i: int| 0 <= i < index ==> octets@[i] == 0,
                    decreases 15 - index,
                {
                    if octets[index] != 0 {
                        return false;
                    }
                    index += 1;
                }
                octets[15] == 1
            },
        }
    }
}

/// An IP address and a port. An IPv6 address has a flow label and the scope that it is valid in
/// beside it.
#[allow(inconsistent_fields)]
#[derive(Clone, Copy, Debug, PartialEq, Eq)]
pub enum SocketAddress {
    V4 { octets: [u8; 4], port: u16 },
    V6 { octets: [u8; 16], port: u16, flow_info: u32, scope_id: u32 },
}

/// A socket address by its values. Flow label and scope of an IPv4 address are zero.
#[verifier::ext_equal]
pub struct SocketAddressModel {
    pub ip: Seq<u8>,
    pub port: u16,
    pub flow_info: u32,
    pub scope_id: u32,
}

/// An address and a port, without flow label and scope.
pub open spec fn unscoped(endpoint: (Seq<u8>, u16)) -> SocketAddressModel {
    SocketAddressModel { ip: endpoint.0, port: endpoint.1, flow_info: 0, scope_id: 0 }
}

impl View for SocketAddress {
    type V = SocketAddressModel;

    open spec fn view(&self) -> SocketAddressModel {
        match self {
            SocketAddress::V4 { octets, port } => unscoped((octets@, *port)),
            SocketAddress::V6 { octets, port, flow_info, scope_id } => SocketAddressModel {
                ip: octets@,
                port: *port,
                flow_info: *flow_info,
                scope_id: *scope_id,
            },
        }
    }
}

impl SocketAddress {
    /// The address and the port, without flow label and scope.
    pub open spec fn endpoint(&self) -> (Seq<u8>, u16) {
        (self@.ip, self@.port)
    }

    pub open spec fn made_of(ip: IpAddress, port: u16) -> SocketAddress {
        match ip {
            IpAddress::V4(octets) => SocketAddress::V4 { octets, port },
            IpAddress::V6(octets) => SocketAddress::V6 { octets, port, flow_info: 0, scope_id: 0 },
        }
    }

    /// An address and a port, without flow label and scope.
    #[verifier::when_used_as_spec(made_of)]
    pub fn new(ip: IpAddress, port: u16) -> (address: Self)
        ensures
            address == Self::made_of(ip, port),
            address@ == unscoped((ip@, port)),
    {
        match ip {
            IpAddress::V4(octets) => SocketAddress::V4 { octets, port },
            IpAddress::V6(octets) => SocketAddress::V6 { octets, port, flow_info: 0, scope_id: 0 },
        }
    }

    pub open spec fn ip_of(&self) -> IpAddress {
        match self {
            SocketAddress::V4 { octets, .. } => IpAddress::V4(*octets),
            SocketAddress::V6 { octets, .. } => IpAddress::V6(*octets),
        }
    }

    #[verifier::when_used_as_spec(ip_of)]
    pub fn ip(&self) -> (ip: IpAddress)
        ensures
            ip == self.ip_of(),
            ip@ == self@.ip,
    {
        match self {
            SocketAddress::V4 { octets, .. } => IpAddress::V4(*octets),
            SocketAddress::V6 { octets, .. } => IpAddress::V6(*octets),
        }
    }

    pub fn port(&self) -> (port: u16)
        ensures
            port == self@.port,
    {
        match self {
            SocketAddress::V4 { port, .. } => *port,
            SocketAddress::V6 { port, .. } => *port,
        }
    }

    pub fn is_ipv4(&self) -> (result: bool)
        ensures
            result == (*self is V4),
            result == (self@.ip.len() == 4),
    {
        match self {
            SocketAddress::V4 { .. } => true,
            SocketAddress::V6 { .. } => false,
        }
    }

    /// The flow label: zero for an IPv4 address.
    pub fn flow_info(&self) -> (flow_info: u32)
        ensures
            flow_info == self@.flow_info,
    {
        match self {
            SocketAddress::V4 { .. } => 0,
            SocketAddress::V6 { flow_info, .. } => *flow_info,
        }
    }

    /// The scope: zero for an IPv4 address.
    pub fn scope_id(&self) -> (scope_id: u32)
        ensures
            scope_id == self@.scope_id,
    {
        match self {
            SocketAddress::V4 { .. } => 0,
            SocketAddress::V6 { scope_id, .. } => *scope_id,
        }
    }

    /// Whether two addresses are the same, flow label and scope included.
    pub fn same(&self, other: &SocketAddress) -> (result: bool)
        ensures
            result == (self@ == other@),
    {
        self.port() == other.port() && self.flow_info() == other.flow_info() && self.scope_id()
            == other.scope_id() && self.ip().same(&other.ip())
    }
}

/// Two addresses are the same where octets, port, flow label and scope are.
pub proof fn law_addresses_are_known_by_their_values(a: SocketAddress, b: SocketAddress)
    ensures
        a@ == b@ <==> a == b,
{
    if a@ == b@ {
        assert(a@.ip.len() == b@.ip.len());
        match (a, b) {
            (SocketAddress::V4 { octets, .. }, SocketAddress::V4 { octets: others, .. }) => {
                assert(octets =~= others);
            },
            (SocketAddress::V6 { octets, .. }, SocketAddress::V6 { octets: others, .. }) => {
                assert(octets =~= others);
            },
            _ => {},
        }
    }
}

/// The value of a dotted-decimal octet: one to three digits, no leading zero, at most 255.
pub open spec fn octet_value(part: Seq<u8>) -> Option<int> {
    if 1 <= part.len() <= 3 && all_digits(part) && (part.len() > 1 ==> part[0] != 48) && decimal(
        part,
    ) <= 255 {
        Some(decimal(part))
    } else {
        None
    }
}

/// The four octets of a dotted-decimal IPv4 address.
pub open spec fn ipv4_octets(text: Seq<u8>) -> Option<Seq<int>> {
    match split_once(text, 46) {
        None => None,
        Some((first, rest)) => match split_once(rest, 46) {
            None => None,
            Some((second, rest)) => match split_once(rest, 46) {
                None => None,
                Some((third, fourth)) => match (
                    octet_value(first),
                    octet_value(second),
                    octet_value(third),
                    octet_value(fourth),
                ) {
                    (Some(a), Some(b), Some(c), Some(d)) => Some(seq![a, b, c, d]),
                    _ => None,
                },
            },
        },
    }
}

proof fn lemma_decimal_three(digits: Seq<u8>)
    requires
        1 <= digits.len() <= 3,
        all_digits(digits),
    ensures
        digits.len() == 1 ==> decimal(digits) == digits[0] - 48,
        digits.len() == 2 ==> decimal(digits) == (digits[0] - 48) * 10 + (digits[1] - 48),
        digits.len() == 3 ==> decimal(digits) == (digits[0] - 48) * 100 + (digits[1] - 48) * 10 + (
        digits[2] - 48),
{
    reveal_with_fuel(decimal, 4);
}

/// Reads a dotted-decimal octet.
pub fn parse_octet(part: &[u8]) -> (result: Option<u8>)
    ensures
        match result {
            Some(value) => octet_value(part@) == Some(value as int),
            None => octet_value(part@) is None,
        },
{
    if part.len() == 0 || part.len() > 3 || !only_digits(part) {
        return None;
    }
    if part.len() > 1 && part[0] == 48 {
        return None;
    }
    proof {
        lemma_decimal_three(part@);
        assert forall|i: int| 0 <= i < part@.len() implies 48 <= #[trigger] part@[i] <= 57 by {}
    }
    let mut value: u16 = (part[0] - 48) as u16;
    if part.len() > 1 {
        value = value * 10 + (part[1] - 48) as u16;
    }
    if part.len() > 2 {
        value = value * 10 + (part[2] - 48) as u16;
    }
    if value > 255 {
        None
    } else {
        Some(value as u8)
    }
}

/// Reads a dotted-decimal IPv4 address.
pub fn parse_ipv4(text: &[u8]) -> (result: Option<[u8; 4]>)
    ensures
        match result {
            Some(octets) => ipv4_octets(text@) == Some(octets@.map_values(|o: u8| o as int)),
            None => ipv4_octets(text@) is None,
        },
{
    let (first, rest) = match split_at_byte(text, 46) {
        Some(parts) => parts,
        None => return None,
    };
    let (second, rest) = match split_at_byte(rest, 46) {
        Some(parts) => parts,
        None => return None,
    };
    let (third, fourth) = match split_at_byte(rest, 46) {
        Some(parts) => parts,
        None => return None,
    };
    match (parse_octet(first), parse_octet(second), parse_octet(third), parse_octet(fourth)) {
        (Some(a), Some(b), Some(c), Some(d)) => {
            let octets: [u8; 4] = [a, b, c, d];
            proof {
                assert(octets@.map_values(|o: u8| o as int) =~= seq![
                    a as int,
                    b as int,
                    c as int,
                    d as int,
                ]);
            }
            Some(octets)
        },
        _ => None,
    }
}

/// A dotted-decimal address has four octets.
pub proof fn lemma_octets_are_bytes(text: Seq<u8>)
    ensures
        ipv4_octets(text) matches Some(octets) ==> octets.len() == 4 && forall|i: int|
            0 <= i < 4 ==> 0 <= #[trigger] octets[i] <= 255,
{
    assert forall|part: Seq<u8>| #[trigger] octet_value(part) is Some implies 0 <= octet_value(
        part,
    )->Some_0 by {
        lemma_decimal_three(part);
        assert(is_digit(part[0]));
        if part.len() > 1 {
            assert(is_digit(part[1]));
        }
        if part.len() > 2 {
            assert(is_digit(part[2]));
        }
    }
}

/// The value of a hexadecimal digit.
pub open spec fn hex_value(byte: u8) -> Option<int> {
    if 48 <= byte <= 57 {
        Some(byte - 48)
    } else if 97 <= byte <= 102 {
        Some(byte - 87)
    } else if 65 <= byte <= 70 {
        Some(byte - 55)
    } else {
        None
    }
}

/// The number that hexadecimal digits spell.
pub open spec fn hex_number(digits: Seq<u8>) -> Option<int>
    decreases digits.len(),
{
    if digits.len() == 0 {
        Some(0)
    } else {
        match (hex_number(digits.drop_last()), hex_value(digits.last())) {
            (Some(front), Some(last)) => Some(front * 16 + last),
            _ => None,
        }
    }
}

/// The value of a group of an IPv6 address: one to four hexadecimal digits.
pub open spec fn group_value(part: Seq<u8>) -> Option<int> {
    if 1 <= part.len() <= 4 {
        hex_number(part)
    } else {
        None
    }
}

/// The groups between colons. The last part may be an IPv4 address, which stands for two groups.
pub open spec fn group_list(text: Seq<u8>, ipv4_tail: bool) -> Option<Seq<int>>
    decreases text.len(),
{
    match split_once(text, 58) {
        None => match group_value(text) {
            Some(group) => Some(seq![group]),
            None => match ipv4_octets(text) {
                Some(octets) => if ipv4_tail {
                    Some(seq![octets[0] * 256 + octets[1], octets[2] * 256 + octets[3]])
                } else {
                    None
                },
                None => None,
            },
        },
        Some((part, rest)) => if rest.len() < text.len() {
            match (group_value(part), group_list(rest, ipv4_tail)) {
                (Some(group), Some(groups)) => Some(seq![group] + groups),
                _ => None,
            }
        } else {
            None
        },
    }
}

/// The groups of a part that may be empty.
pub open spec fn optional_group_list(text: Seq<u8>, ipv4_tail: bool) -> Option<Seq<int>> {
    if text.len() == 0 {
        Some(Seq::empty())
    } else {
        group_list(text, ipv4_tail)
    }
}

/// Two colons, which stand for one or more groups of zeros.
pub open spec fn gap() -> Seq<u8> {
    seq![58u8, 58u8]
}

pub open spec fn zero_groups(count: nat) -> Seq<int> {
    Seq::new(count, |i: int| 0)
}

/// The eight groups of an IPv6 address in text form.
pub open spec fn ipv6_groups(text: Seq<u8>) -> Option<Seq<int>> {
    match find(text, gap()) {
        None => match group_list(text, true) {
            Some(groups) => if groups.len() == 8 {
                Some(groups)
            } else {
                None
            },
            None => None,
        },
        Some(index) => match (
            optional_group_list(text.take(index), false),
            optional_group_list(text.skip(index + 2), true),
        ) {
            (Some(front), Some(back)) => if front.len() + back.len() <= 7 {
                Some(front + zero_groups((8 - front.len() - back.len()) as nat) + back)
            } else {
                None
            },
            _ => None,
        },
    }
}

proof fn lemma_group_value(part: Seq<u8>)
    ensures
        group_value(part) matches Some(group) ==> 0 <= group < 65536,
{
    reveal_with_fuel(hex_number, 5);
}

proof fn lemma_group_list(text: Seq<u8>, ipv4_tail: bool)
    ensures
        group_list(text, ipv4_tail) matches Some(groups) ==> forall|i: int|
            0 <= i < groups.len() ==> 0 <= #[trigger] groups[i] < 65536,
    decreases text.len(),
{
    match split_once(text, 58) {
        None => {
            lemma_group_value(text);
            lemma_octets_are_bytes(text);
        },
        Some((part, rest)) => {
            lemma_group_value(part);
            if rest.len() < text.len() {
                lemma_group_list(rest, ipv4_tail);
            }
        },
    }
}

/// An IPv6 address in text form has eight groups of 16 bits.
pub proof fn lemma_groups_are_numbers(text: Seq<u8>)
    ensures
        ipv6_groups(text) matches Some(groups) ==> groups.len() == 8 && forall|i: int|
            0 <= i < 8 ==> 0 <= #[trigger] groups[i] < 65536,
{
    lemma_group_list(text, true);
    if let Some(index) = find(text, gap()) {
        lemma_group_list(text.take(index), false);
        lemma_group_list(text.skip(index + 2), true);
    }
}

/// The group of two octets of an IPv6 address.
pub open spec fn group_at(octets: Seq<u8>, index: int) -> int {
    octets[2 * index] * 256 + octets[2 * index + 1]
}

/// The eight groups of an IPv6 address.
pub open spec fn groups_of(octets: Seq<u8>) -> Seq<int> {
    Seq::new(8, |i: int| group_at(octets, i))
}

fn parse_hex_digit(byte: u8) -> (result: Option<u16>)
    ensures
        match result {
            Some(value) => hex_value(byte) == Some(value as int) && value < 16,
            None => hex_value(byte) is None,
        },
{
    if 48 <= byte && byte <= 57 {
        Some((byte - 48) as u16)
    } else if 97 <= byte && byte <= 102 {
        Some((byte - 87) as u16)
    } else if 65 <= byte && byte <= 70 {
        Some((byte - 55) as u16)
    } else {
        None
    }
}

proof fn lemma_hex_number_prefix(digits: Seq<u8>, length: int)
    requires
        0 <= length <= digits.len(),
        hex_number(digits.take(length)) is None,
    ensures
        hex_number(digits) is None,
    decreases digits.len() - length,
{
    if length < digits.len() {
        assert(digits.take(length + 1).drop_last() =~= digits.take(length));
        lemma_hex_number_prefix(digits, length + 1);
    } else {
        assert(digits.take(length) =~= digits);
    }
}

fn parse_group(part: &[u8]) -> (result: Option<u16>)
    ensures
        match result {
            Some(value) => group_value(part@) == Some(value as int),
            None => group_value(part@) is None,
        },
{
    if part.len() == 0 || part.len() > 4 {
        return None;
    }
    let mut value: u32 = 0;
    let mut limit: u32 = 1;
    let mut index: usize = 0;
    assert(part@.take(0) =~= Seq::empty());
    while index < part.len()
        invariant
            index <= part.len() <= 4,
            hex_number(part@.take(index as int)) == Some(value as int),
            value < limit,
            index == 0 ==> limit == 1,
            index == 1 ==> limit == 16,
            index == 2 ==> limit == 256,
            index == 3 ==> limit == 4096,
            index == 4 ==> limit == 65536,
        decreases part.len() - index,
    {
        proof {
            assert(part@.take(index + 1).drop_last() =~= part@.take(index as int));
            assert(part@.take(index + 1).last() == part@[index as int]);
        }
        match parse_hex_digit(part[index]) {
            Some(digit) => {
                value = value * 16 + digit as u32;
                limit = limit * 16;
            },
            None => {
                proof {
                    lemma_hex_number_prefix(part@, index + 1);
                }
                return None;
            },
        }
        index += 1;
    }
    assert(part@.take(part@.len() as int) =~= part@);
    Some(value as u16)
}

/// The numbers of a list of groups.
pub open spec fn group_numbers(groups: Seq<u16>) -> Seq<int> {
    groups.map_values(|group: u16| group as int)
}

fn parse_group_list(text: &[u8], ipv4_tail: bool) -> (result: Option<Vec<u16>>)
    ensures
        match result {
            Some(groups) => group_list(text@, ipv4_tail) == Some(group_numbers(groups@)),
            None => group_list(text@, ipv4_tail) is None,
        },
{
    let mut groups: Vec<u16> = Vec::new();
    let mut rest = text;
    loop
        invariant
            group_list(text@, ipv4_tail) is Some == group_list(rest@, ipv4_tail) is Some,
            group_list(rest@, ipv4_tail) matches Some(more) ==> group_list(text@, ipv4_tail)
                == Some(group_numbers(groups@) + more),
        decreases rest.len(),
    {
        match split_at_byte(rest, 58) {
            None => {
                if let Some(group) = parse_group(rest) {
                    let ghost before = group_numbers(groups@);
                    groups.push(group);
                    assert(group_numbers(groups@) =~= before + seq![group as int]);
                    return Some(groups);
                }
                if ipv4_tail {
                    if let Some(octets) = parse_ipv4(rest) {
                        let ghost before = group_numbers(groups@);
                        let first: u16 = octets[0] as u16 * 256 + octets[1] as u16;
                        let second: u16 = octets[2] as u16 * 256 + octets[3] as u16;
                        groups.push(first);
                        groups.push(second);
                        assert(group_numbers(groups@) =~= before + seq![
                            first as int,
                            second as int,
                        ]);
                        return Some(groups);
                    }
                }
                return None;
            },
            Some((part, after)) => {
                let ghost before = group_numbers(groups@);
                match parse_group(part) {
                    Some(group) => {
                        groups.push(group);
                        proof {
                            if let Some(more) = group_list(after@, ipv4_tail) {
                                assert(group_numbers(groups@) + more =~= before + (seq![
                                    group as int,
                                ] + more));
                            }
                        }
                    },
                    None => {
                        return None;
                    },
                }
                rest = after;
            },
        }
    }
}

fn parse_optional_group_list(text: &[u8], ipv4_tail: bool) -> (result: Option<Vec<u16>>)
    ensures
        match result {
            Some(groups) => optional_group_list(text@, ipv4_tail) == Some(group_numbers(groups@)),
            None => optional_group_list(text@, ipv4_tail) is None,
        },
{
    if text.len() == 0 {
        let groups: Vec<u16> = Vec::new();
        assert(group_numbers(groups@) =~= Seq::empty());
        Some(groups)
    } else {
        parse_group_list(text, ipv4_tail)
    }
}

fn octets_of_groups(groups: &Vec<u16>) -> (octets: [u8; 16])
    requires
        groups@.len() == 8,
    ensures
        groups_of(octets@) == group_numbers(groups@),
{
    let octets: [u8; 16] = [
        (groups[0] / 256) as u8,
        (groups[0] % 256) as u8,
        (groups[1] / 256) as u8,
        (groups[1] % 256) as u8,
        (groups[2] / 256) as u8,
        (groups[2] % 256) as u8,
        (groups[3] / 256) as u8,
        (groups[3] % 256) as u8,
        (groups[4] / 256) as u8,
        (groups[4] % 256) as u8,
        (groups[5] / 256) as u8,
        (groups[5] % 256) as u8,
        (groups[6] / 256) as u8,
        (groups[6] % 256) as u8,
        (groups[7] / 256) as u8,
        (groups[7] % 256) as u8,
    ];
    assert(groups_of(octets@) =~= group_numbers(groups@));
    octets
}

/// Reads an IPv6 address in text form.
pub fn parse_ipv6(text: &[u8]) -> (result: Option<[u8; 16]>)
    ensures
        match result {
            Some(octets) => ipv6_groups(text@) == Some(groups_of(octets@)),
            None => ipv6_groups(text@) is None,
        },
{
    let separator: [u8; 2] = [58, 58];
    assert(separator@ =~= gap());
    match find_bytes(text, separator.as_slice()) {
        None => match parse_group_list(text, true) {
            Some(groups) => if groups.len() == 8 {
                Some(octets_of_groups(&groups))
            } else {
                None
            },
            None => None,
        },
        Some(index) => {
            let length: usize = text.len();
            let head = vstd::slice::slice_subrange(text, 0, index);
            let tail = vstd::slice::slice_subrange(text, index + 2, length);
            assert(head@ =~= text@.take(index as int));
            assert(tail@ =~= text@.skip(index + 2));
            let front = parse_optional_group_list(head, false);
            let back = parse_optional_group_list(tail, true);
            match (front, back) {
                (Some(front), Some(back)) => {
                    if front.len() > 7 || back.len() > 7 - front.len() {
                        return None;
                    }
                    let mut groups: Vec<u16> = Vec::new();
                    let ghost first = front@;
                    let ghost second = back@;
                    let mut front = front;
                    let mut back = back;
                    let zeros: usize = 8 - front.len() - back.len();
                    groups.append(&mut front);
                    let mut added: usize = 0;
                    while added < zeros
                        invariant
                            added <= zeros,
                            groups@ =~= first + Seq::new(added as nat, |i: int| 0u16),
                        decreases zeros - added,
                    {
                        groups.push(0);
                        added += 1;
                    }
                    groups.append(&mut back);
                    assert(group_numbers(groups@) =~= group_numbers(first) + zero_groups(
                        zeros as nat,
                    ) + group_numbers(second));
                    Some(octets_of_groups(&groups))
                },
                _ => None,
            }
        },
    }
}

/// An IPv4 address in dotted-decimal form.
pub open spec fn ipv4_text(octets: Seq<u8>) -> Seq<char> {
    decimal_text(octets[0] as nat) + "."@ + decimal_text(octets[1] as nat) + "."@ + decimal_text(
        octets[2] as nat,
    ) + "."@ + decimal_text(octets[3] as nat)
}

/// A number in hexadecimal notation, without leading zeros.
pub open spec fn hex_number_text(number: nat) -> Seq<char>
    decreases number,
{
    if number < 16 {
        seq![hex_char(number as int)]
    } else {
        hex_number_text(number / 16).push(hex_char((number % 16) as int))
    }
}

/// Groups with colons between them.
pub open spec fn groups_text(groups: Seq<int>) -> Seq<char>
    decreases groups.len(),
{
    if groups.len() == 0 {
        Seq::empty()
    } else if groups.len() == 1 {
        hex_number_text(groups[0] as nat)
    } else {
        groups_text(groups.drop_last()) + ":"@ + hex_number_text(groups.last() as nat)
    }
}

/// The number of zeros in a row from `start` on.
pub open spec fn zero_run(groups: Seq<int>, start: int) -> int
    decreases groups.len() - start,
{
    if 0 <= start < groups.len() && groups[start] == 0 {
        1 + zero_run(groups, start + 1)
    } else {
        0
    }
}

/// Start and length of the longest run of zeros that starts before `count`: the first such run
/// where several are equally long.
pub open spec fn longest_run(groups: Seq<int>, count: int) -> (int, int)
    decreases count,
{
    if count <= 0 {
        (0, 0)
    } else {
        let earlier = longest_run(groups, count - 1);
        if zero_run(groups, count - 1) > earlier.1 {
            (count - 1, zero_run(groups, count - 1))
        } else {
            earlier
        }
    }
}

/// The address is an IPv4 address in IPv6 form.
pub open spec fn is_mapped(octets: Seq<u8>) -> bool {
    (forall|i: int| 0 <= i < 10 ==> #[trigger] octets[i] == 0) && octets[10] == 255 && octets[11]
        == 255
}

/// An IPv6 address in text form: the longest run of two or more groups of zeros is left out.
pub open spec fn ipv6_text(octets: Seq<u8>) -> Seq<char> {
    if is_mapped(octets) {
        "::ffff:"@ + ipv4_text(octets.skip(12))
    } else {
        let groups = groups_of(octets);
        let (start, length) = longest_run(groups, 8);
        if length > 1 {
            groups_text(groups.take(start)) + "::"@ + groups_text(groups.skip(start + length))
        } else {
            groups_text(groups)
        }
    }
}

/// An IP address in text form.
pub open spec fn ip_text(octets: Seq<u8>) -> Seq<char> {
    if octets.len() == 4 {
        ipv4_text(octets)
    } else {
        ipv6_text(octets)
    }
}

/// A scope in text form: none for scope zero.
pub open spec fn scope_text(scope_id: u32) -> Seq<char> {
    if scope_id == 0 {
        Seq::empty()
    } else {
        "%"@ + decimal_text(scope_id as nat)
    }
}

/// A socket address in text form, an IPv6 address in brackets with its scope. The flow label is not
/// part of it.
pub open spec fn socket_address_text(address: SocketAddressModel) -> Seq<char> {
    if address.ip.len() == 4 {
        ipv4_text(address.ip) + ":"@ + decimal_text(address.port as nat)
    } else {
        "["@ + ipv6_text(address.ip) + scope_text(address.scope_id) + "]:"@ + decimal_text(
            address.port as nat,
        )
    }
}

fn format_ipv4(octets: &[u8]) -> (text: String)
    requires
        octets@.len() == 4,
    ensures
        text@ == ipv4_text(octets@),
{
    let mut text = number_text(octets[0] as u128);
    text.append(".");
    text.append(number_text(octets[1] as u128).as_str());
    text.append(".");
    text.append(number_text(octets[2] as u128).as_str());
    text.append(".");
    text.append(number_text(octets[3] as u128).as_str());
    text
}

fn push_hex(number: u16, digits: &mut Vec<u8>)
    requires
        all_ascii(old(digits)@),
    ensures
        all_ascii(final(digits)@),
        ascii_text(final(digits)@) == ascii_text(old(digits)@) + hex_number_text(number as nat),
    decreases number,
{
    let ghost before = digits@;
    if number >= 16 {
        push_hex(number / 16, digits);
    }
    let ghost middle = digits@;
    let digit: u8 = hex_digit((number % 16) as u8);
    digits.push(digit);
    proof {
        assert(ascii_text(digits@) =~= ascii_text(middle).push(digit as char));
        assert forall|i: int| 0 <= i < digits@.len() implies #[trigger] digits@[i] < 128 by {
            if i < middle.len() {
                assert(middle[i] < 128);
            }
        }
        if number >= 16 {
            assert(ascii_text(digits@) =~= ascii_text(before) + hex_number_text(number as nat));
        } else {
            assert(ascii_text(digits@) =~= ascii_text(before) + seq![digit as char]);
        }
    }
}

fn format_groups(groups: &Vec<u16>, start: usize, end: usize) -> (text: String)
    requires
        start <= end <= groups@.len(),
    ensures
        text@ == groups_text(group_numbers(groups@.subrange(start as int, end as int))),
{
    let mut digits: Vec<u8> = Vec::new();
    let mut index: usize = start;
    proof {
        reveal_strlit(":");
        assert(group_numbers(groups@.subrange(start as int, start as int)) =~= Seq::empty());
        assert(ascii_text(digits@) =~= Seq::empty());
    }
    while index < end
        invariant
            start <= index <= end <= groups@.len(),
            all_ascii(digits@),
            ascii_text(digits@) == groups_text(
                group_numbers(groups@.subrange(start as int, index as int)),
            ),
        decreases end - index,
    {
        let ghost before = ascii_text(digits@);
        if index > start {
            let ghost held = digits@;
            digits.push(58);
            proof {
                reveal_strlit(":");
                assert(ascii_text(digits@) =~= before + ":"@);
                assert forall|i: int| 0 <= i < digits@.len() implies #[trigger] digits@[i] < 128 by {
                    if i < held.len() {
                        assert(held[i] < 128);
                    }
                }
            }
        }
        push_hex(groups[index], &mut digits);
        proof {
            let now = group_numbers(groups@.subrange(start as int, index + 1));
            assert(now.drop_last() =~= group_numbers(groups@.subrange(start as int, index as int)));
            assert(now.last() == groups@[index as int] as int);
            if index == start {
                assert(before =~= Seq::empty());
                assert(now =~= seq![groups@[index as int] as int]);
                assert(before + hex_number_text(groups@[index as int] as nat)
                    =~= hex_number_text(groups@[index as int] as nat));
            }
        }
        index += 1;
    }
    ascii_string(digits)
}

fn zero_run_at(groups: &Vec<u16>, start: usize) -> (length: usize)
    requires
        start <= groups@.len() == 8,
    ensures
        length == zero_run(group_numbers(groups@), start as int),
        start + length <= 8,
{
    let mut end: usize = start;
    while end < 8 && groups[end] == 0
        invariant
            start <= end <= 8,
            groups@.len() == 8,
            zero_run(group_numbers(groups@), start as int) == (end - start) + zero_run(
                group_numbers(groups@),
                end as int,
            ),
        decreases 8 - end,
    {
        end += 1;
    }
    end - start
}

fn format_ipv6(octets: &[u8]) -> (text: String)
    requires
        octets@.len() == 16,
    ensures
        text@ == ipv6_text(octets@),
{
    let mut leading: usize = 0;
    while leading < 10 && octets[leading] == 0
        invariant
            leading <= 10,
            octets@.len() == 16,
            forall|i: int| 0 <= i < leading ==> #[trigger] octets@[i] == 0,
        decreases 10 - leading,
    {
        leading += 1;
    }
    if leading == 10 && octets[10] == 255 && octets[11] == 255 {
        let tail = vstd::slice::slice_subrange(octets, 12, 16);
        assert(tail@ =~= octets@.skip(12));
        let mut text = "::ffff:".to_owned();
        text.append(format_ipv4(tail).as_str());
        return text;
    }
    assert(!is_mapped(octets@));
    let groups: Vec<u16> = vec![
        octets[0] as u16 * 256 + octets[1] as u16,
        octets[2] as u16 * 256 + octets[3] as u16,
        octets[4] as u16 * 256 + octets[5] as u16,
        octets[6] as u16 * 256 + octets[7] as u16,
        octets[8] as u16 * 256 + octets[9] as u16,
        octets[10] as u16 * 256 + octets[11] as u16,
        octets[12] as u16 * 256 + octets[13] as u16,
        octets[14] as u16 * 256 + octets[15] as u16,
    ];
    assert(group_numbers(groups@) =~= groups_of(octets@));
    let mut start: usize = 0;
    let mut length: usize = 0;
    let mut index: usize = 0;
    while index < 8
        invariant
            index <= 8,
            groups@.len() == 8,
            start + length <= 8,
            (start as int, length as int) == longest_run(group_numbers(groups@), index as int),
        decreases 8 - index,
    {
        let run: usize = zero_run_at(&groups, index);
        if run > length {
            start = index;
            length = run;
        }
        index += 1;
    }
    if length > 1 {
        let mut text = format_groups(&groups, 0, start);
        text.append("::");
        text.append(format_groups(&groups, start + length, 8).as_str());
        proof {
            assert(group_numbers(groups@.subrange(0, start as int)) =~= groups_of(octets@).take(
                start as int,
            ));
            assert(group_numbers(groups@.subrange(start + length, 8)) =~= groups_of(octets@).skip(
                start + length,
            ));
        }
        text
    } else {
        proof {
            assert(groups@.subrange(0, 8) =~= groups@);
        }
        format_groups(&groups, 0, 8)
    }
}

impl IpAddress {
    /// The address in text form.
    pub fn to_text(&self) -> (text: String)
        ensures
            text@ == ip_text(self@),
    {
        match self {
            IpAddress::V4(octets) => format_ipv4(octets.as_slice()),
            IpAddress::V6(octets) => format_ipv6(octets.as_slice()),
        }
    }
}

impl SocketAddress {
    /// The address in text form, an IPv6 address in brackets with its scope.
    pub fn to_text(&self) -> (text: String)
        ensures
            text@ == socket_address_text(self@),
    {
        match self {
            SocketAddress::V4 { octets, port } => {
                let mut text = format_ipv4(octets.as_slice());
                text.append(":");
                text.append(number_text(*port as u128).as_str());
                text
            },
            SocketAddress::V6 { octets, port, scope_id, .. } => {
                let mut text = "[".to_owned();
                text.append(format_ipv6(octets.as_slice()).as_str());
                let ghost host = text@;
                if *scope_id != 0 {
                    text.append("%");
                    text.append(number_text(*scope_id as u128).as_str());
                }
                assert(text@ =~= host + scope_text(*scope_id));
                text.append("]:");
                text.append(number_text(*port as u128).as_str());
                text
            },
        }
    }
}

/// An octet in text form is a decimal number of at most 255 without leading zeros, and nothing
/// else is one.
pub proof fn law_octets_are_spelled_in_decimal(part: Seq<u8>, octet: u8)
    ensures
        octet_value(text_bytes(decimal_text(octet as nat))) == Some(octet as int),
        octet_value(part) == Some(octet as int) ==> part == text_bytes(decimal_text(octet as nat)),
        forall|i: int|
            0 <= i < text_bytes(decimal_text(octet as nat)).len() ==> is_digit(
                #[trigger] text_bytes(decimal_text(octet as nat))[i],
            ),
{
    let text = decimal_text(octet as nat);
    law_decimal_text_spells_its_number(octet as nat);
    law_digits_spell_the_same_as_bytes(text);
    assert(text_bytes(text)[0] == text[0] as u8);
    assert(is_digit_char(text[0]));
    if octet_value(part) == Some(octet as int) {
        lemma_decimal_three(part);
        assert(is_digit(part[0]));
        if part.len() > 1 {
            assert(is_digit(part[1]));
        }
        if part.len() > 2 {
            assert(is_digit(part[2]));
        }
        reveal_with_fuel(decimal_text, 4);
        assert(part =~= text_bytes(text));
    }
}

proof fn lemma_ipv4_bytes(octets: Seq<u8>)
    ensures
        text_bytes(ipv4_text(octets)) == text_bytes(decimal_text(octets[0] as nat)) + seq![46u8] + (
        text_bytes(decimal_text(octets[1] as nat)) + seq![46u8] + (text_bytes(
            decimal_text(octets[2] as nat),
        ) + seq![46u8] + text_bytes(decimal_text(octets[3] as nat)))),
{
    reveal_strlit(".");
    assert(text_bytes(ipv4_text(octets)) =~= text_bytes(decimal_text(octets[0] as nat)) + seq![46u8]
        + (text_bytes(decimal_text(octets[1] as nat)) + seq![46u8] + (text_bytes(
        decimal_text(octets[2] as nat),
    ) + seq![46u8] + text_bytes(decimal_text(octets[3] as nat)))));
}

/// Reading the text form of an IPv4 address gives its octets.
#[verifier::rlimit(60)]
pub proof fn law_ipv4_text_is_read_back(octets: Seq<u8>)
    requires
        octets.len() == 4,
    ensures
        ipv4_octets(text_bytes(ipv4_text(octets))) == Some(
            octets.map_values(|octet: u8| octet as int),
        ),
        forall|i: int|
            0 <= i < text_bytes(ipv4_text(octets)).len() ==> #[trigger] text_bytes(
                ipv4_text(octets),
            )[i] != 58,
        text_bytes(ipv4_text(octets)).len() >= 7,
{
    let a = text_bytes(decimal_text(octets[0] as nat));
    let b = text_bytes(decimal_text(octets[1] as nat));
    let c = text_bytes(decimal_text(octets[2] as nat));
    let d = text_bytes(decimal_text(octets[3] as nat));
    law_octets_are_spelled_in_decimal(a, octets[0]);
    law_octets_are_spelled_in_decimal(b, octets[1]);
    law_octets_are_spelled_in_decimal(c, octets[2]);
    law_octets_are_spelled_in_decimal(d, octets[3]);
    lemma_ipv4_bytes(octets);
    lemma_four_octets(a, b, c, d);
    lemma_dots_only(a, b, c, d);
    assert(octets.map_values(|octet: u8| octet as int) =~= seq![
        octets[0] as int,
        octets[1] as int,
        octets[2] as int,
        octets[3] as int,
    ]);
}

#[verifier::rlimit(60)]
proof fn lemma_four_octets(a: Seq<u8>, b: Seq<u8>, c: Seq<u8>, d: Seq<u8>)
    requires
        octet_value(a) is Some,
        octet_value(b) is Some,
        octet_value(c) is Some,
        octet_value(d) is Some,
    ensures
        ipv4_octets(a + seq![46u8] + (b + seq![46u8] + (c + seq![46u8] + d))) == Some(
            seq![
                octet_value(a)->Some_0,
                octet_value(b)->Some_0,
                octet_value(c)->Some_0,
                octet_value(d)->Some_0,
            ],
        ),
{
    let last = c + seq![46u8] + d;
    let later = b + seq![46u8] + last;
    assert forall|i: int| 0 <= i < a.len() implies a[i] != 46u8 by {
        assert(is_digit(a[i]));
    }
    assert forall|i: int| 0 <= i < b.len() implies b[i] != 46u8 by {
        assert(is_digit(b[i]));
    }
    assert forall|i: int| 0 <= i < c.len() implies c[i] != 46u8 by {
        assert(is_digit(c[i]));
    }
    law_parts_are_split_at_the_first_separator(a, 46u8, later);
    law_parts_are_split_at_the_first_separator(b, 46u8, last);
    law_parts_are_split_at_the_first_separator(c, 46u8, d);
}

#[verifier::rlimit(60)]
proof fn lemma_dots_only(a: Seq<u8>, b: Seq<u8>, c: Seq<u8>, d: Seq<u8>)
    requires
        all_digits(a),
        all_digits(b),
        all_digits(c),
        all_digits(d),
        a.len() >= 1,
        b.len() >= 1,
        c.len() >= 1,
        d.len() >= 1,
    ensures
        (a + seq![46u8] + (b + seq![46u8] + (c + seq![46u8] + d))).len() >= 7,
        forall|i: int|
            0 <= i < (a + seq![46u8] + (b + seq![46u8] + (c + seq![46u8] + d))).len()
                ==> #[trigger] (a + seq![46u8] + (b + seq![46u8] + (c + seq![46u8] + d)))[i] != 58,
{
    let last = c + seq![46u8] + d;
    let later = b + seq![46u8] + last;
    let whole = a + seq![46u8] + later;
    assert forall|i: int| 0 <= i < last.len() implies #[trigger] last[i] != 58 by {
        if i < c.len() {
            assert(is_digit(c[i]));
        } else if i > c.len() {
            assert(is_digit(d[i - c.len() - 1]));
        }
    }
    assert forall|i: int| 0 <= i < later.len() implies #[trigger] later[i] != 58 by {
        if i < b.len() {
            assert(is_digit(b[i]));
        } else if i > b.len() {
            assert(last[i - b.len() - 1] != 58);
        }
    }
    assert forall|i: int| 0 <= i < whole.len() implies #[trigger] whole[i] != 58 by {
        if i < a.len() {
            assert(is_digit(a[i]));
        } else if i > a.len() {
            assert(later[i - a.len() - 1] != 58);
        }
    }
}

/// A text is read as an IPv4 address only where it is the text form of the address.
#[verifier::rlimit(60)]
pub proof fn law_only_ipv4_texts_are_read(text: Seq<u8>, octets: Seq<u8>)
    requires
        octets.len() == 4,
        ipv4_octets(text) == Some(octets.map_values(|octet: u8| octet as int)),
    ensures
        text == text_bytes(ipv4_text(octets)),
{
    let numbers = octets.map_values(|octet: u8| octet as int);
    let (first, rest) = split_once(text, 46u8)->Some_0;
    let (second, end) = split_once(rest, 46u8)->Some_0;
    let (third, fourth) = split_once(end, 46u8)->Some_0;
    assert(octet_value(first) == Some(numbers[0]) && numbers[0] == octets[0]);
    assert(octet_value(second) == Some(numbers[1]) && numbers[1] == octets[1]);
    assert(octet_value(third) == Some(numbers[2]) && numbers[2] == octets[2]);
    assert(octet_value(fourth) == Some(numbers[3]) && numbers[3] == octets[3]);
    lemma_octet_text(first, octets[0]);
    lemma_octet_text(second, octets[1]);
    lemma_octet_text(third, octets[2]);
    lemma_octet_text(fourth, octets[3]);
    lemma_parts_rejoin(text);
    lemma_parts_rejoin(rest);
    lemma_parts_rejoin(end);
    lemma_ipv4_bytes(octets);
}

proof fn lemma_octet_text(part: Seq<u8>, octet: u8)
    requires
        octet_value(part) == Some(octet as int),
    ensures
        part == text_bytes(decimal_text(octet as nat)),
{
    law_octets_are_spelled_in_decimal(part, octet);
}

proof fn lemma_parts_rejoin(text: Seq<u8>)
    ensures
        split_once(text, 46u8) matches Some((before, after)) ==> text == before + seq![46u8]
            + after,
{
    lemma_position(text, 46u8);
    if let Some((before, after)) = split_once(text, 46u8) {
        assert(text =~= before + seq![46u8] + after);
    }
}

/// The digits are `0` to `9` and the first six letters, in either case.
pub proof fn law_hex_digits_have_their_values(digit: int, byte: u8)
    ensures
        0 <= digit < 16 ==> hex_value("0123456789abcdef"@[digit] as u8) == Some(digit),
        0 <= digit < 16 ==> hex_value("0123456789ABCDEF"@[digit] as u8) == Some(digit),
        hex_value(byte) is Some <==> (48 <= byte <= 57 || 97 <= byte <= 102 || 65 <= byte <= 70),
{
    reveal_strlit("0123456789abcdef");
    reveal_strlit("0123456789ABCDEF");
}

/// The text form of a group has one to four digits and spells the group.
pub proof fn law_group_text_is_read_back(group: nat)
    requires
        group < 65536,
    ensures
        group_value(text_bytes(hex_number_text(group))) == Some(group as int),
        forall|i: int|
            0 <= i < text_bytes(hex_number_text(group)).len() ==> hex_value(
                #[trigger] text_bytes(hex_number_text(group))[i],
            ) is Some,
        hex_number_text(group).len() > 1 ==> hex_number_text(group)[0] != '0',
{
    lemma_hex_text(group);
    reveal_with_fuel(hex_number_text, 5);
}

proof fn lemma_hex_text(number: nat)
    ensures
        hex_number(text_bytes(hex_number_text(number))) == Some(number as int),
        forall|i: int|
            0 <= i < text_bytes(hex_number_text(number)).len() ==> hex_value(
                #[trigger] text_bytes(hex_number_text(number))[i],
            ) is Some,
        hex_number_text(number).len() >= 1,
        number > 0 ==> hex_number_text(number)[0] != '0',
    decreases number,
{
    let text = hex_number_text(number);
    let bytes = text_bytes(text);
    if number < 16 {
        assert(bytes.drop_last() =~= Seq::empty());
        assert(hex_number(bytes.drop_last()) == Some(0int));
    } else {
        lemma_hex_text(number / 16);
        let front = text_bytes(hex_number_text(number / 16));
        assert(bytes.drop_last() =~= front);
        assert forall|i: int| 0 <= i < bytes.len() implies hex_value(#[trigger] bytes[i]) is Some by {
            if i < front.len() {
                assert(bytes[i] == front[i]);
            }
        }
        assert(text[0] == hex_number_text(number / 16)[0]);
    }
}

/// Every number of the list fits in a group.
pub open spec fn are_groups(groups: Seq<int>) -> bool {
    forall|i: int| 0 <= i < groups.len() ==> 0 <= #[trigger] groups[i] < 65536
}

#[verifier::rlimit(60)]
proof fn lemma_groups_text_front(groups: Seq<int>)
    requires
        groups.len() >= 2,
    ensures
        text_bytes(groups_text(groups)) == text_bytes(hex_number_text(groups[0] as nat)) + seq![58u8]
            + text_bytes(groups_text(groups.skip(1))),
    decreases groups.len(),
{
    reveal_strlit(":");
    let front = groups.drop_last();
    let last = hex_number_text(groups.last() as nat);
    assert(groups_text(groups) == groups_text(front) + ":"@ + last);
    if groups.len() == 2 {
        assert(front[0] == groups[0]);
        assert(groups.skip(1)[0] == groups.last());
        assert(groups_text(front) == hex_number_text(groups[0] as nat));
        assert(groups_text(groups.skip(1)) == last);
    } else {
        lemma_groups_text_front(front);
        assert(groups.skip(1).drop_last() =~= front.skip(1));
        assert(groups.skip(1).last() == groups.last());
        assert(front[0] == groups[0]);
        assert(text_bytes(groups_text(groups)) =~= text_bytes(groups_text(front)) + seq![58u8]
            + text_bytes(last));
        assert(text_bytes(groups_text(groups.skip(1))) =~= text_bytes(groups_text(front.skip(1)))
            + seq![58u8] + text_bytes(last));
    }
    assert(text_bytes(groups_text(groups)) =~= text_bytes(hex_number_text(groups[0] as nat)) + seq![
        58u8,
    ] + text_bytes(groups_text(groups.skip(1))));
}

spec fn colons_at(bytes: Seq<u8>, at: int) -> bool {
    bytes[at] == 58 && bytes[at + 1] == 58
}

/// Groups with a colon between each two are read as they were written.
pub proof fn law_group_texts_are_read_back(groups: Seq<int>, ipv4_tail: bool)
    requires
        groups.len() > 0,
        are_groups(groups),
    ensures
        group_list(text_bytes(groups_text(groups)), ipv4_tail) == Some(groups),
    decreases groups.len(),
{
    let text = text_bytes(groups_text(groups));
    let first = text_bytes(hex_number_text(groups[0] as nat));
    law_group_text_is_read_back(groups[0] as nat);
    assert forall|i: int| 0 <= i < first.len() implies first[i] != 58u8 by {
        assert(hex_value(first[i]) is Some);
    }
    if groups.len() == 1 {
        assert(text == first);
        law_parts_are_split_at_the_first_separator(first, 58u8, Seq::empty());
        assert(groups =~= seq![groups[0]]);
    } else {
        let rest = groups.skip(1);
        assert forall|i: int| 0 <= i < rest.len() implies 0 <= #[trigger] rest[i] < 65536 by {
            assert(rest[i] == groups[i + 1]);
        }
        law_group_texts_are_read_back(rest, ipv4_tail);
        lemma_groups_text_front(groups);
        law_parts_are_split_at_the_first_separator(first, 58u8, text_bytes(groups_text(rest)));
        assert(groups =~= seq![groups[0]] + rest);
    }
}

#[verifier::rlimit(60)]
proof fn lemma_groups_text_has_no_gap(groups: Seq<int>)
    requires
        groups.len() > 0,
        are_groups(groups),
    ensures
        text_bytes(groups_text(groups)).len() > 0,
        text_bytes(groups_text(groups))[0] != 58,
        text_bytes(groups_text(groups)).last() != 58,
        forall|i: int|
            0 <= i < text_bytes(groups_text(groups)).len() - 1 ==> !#[trigger] colons_at(
                text_bytes(groups_text(groups)),
                i,
            ),
    decreases groups.len(),
{
    let text = text_bytes(groups_text(groups));
    let first = text_bytes(hex_number_text(groups[0] as nat));
    law_group_text_is_read_back(groups[0] as nat);
    lemma_hex_text(groups[0] as nat);
    assert forall|i: int| 0 <= i < first.len() implies #[trigger] first[i] != 58u8 by {
        assert(hex_value(first[i]) is Some);
    }
    if groups.len() == 1 {
        assert(text == first);
    } else {
        let rest = groups.skip(1);
        assert forall|i: int| 0 <= i < rest.len() implies 0 <= #[trigger] rest[i] < 65536 by {
            assert(rest[i] == groups[i + 1]);
        }
        lemma_groups_text_has_no_gap(rest);
        lemma_groups_text_front(groups);
        let later = text_bytes(groups_text(rest));
        assert(text[0] == first[0]);
        assert(text.last() == later.last());
        assert forall|i: int| 0 <= i < text.len() - 1 implies !#[trigger] colons_at(text, i) by {
            if i < first.len() {
                assert(text[i] == first[i]);
            } else if i == first.len() {
                assert(text[i + 1] == later[0]);
            } else {
                assert(text[i] == later[i - first.len() - 1]);
                assert(text[i + 1] == later[i - first.len()]);
                assert(!colons_at(later, i - first.len() - 1));
            }
        }
    }
}

proof fn lemma_gap_is_two_colons(text: Seq<u8>, at: int)
    requires
        occurs_at(text, gap(), at),
    ensures
        0 <= at < text.len() - 1,
        colons_at(text, at),
{
    let found = text.subrange(at, at + 2);
    assert(found == gap());
    assert(found[0] == 58 && found[1] == 58);
}

/// Two colons stand for the groups that are missing, all of them zero; at least one must be.
#[verifier::rlimit(60)]
pub proof fn law_gap_stands_for_zeros(front: Seq<int>, back: Seq<int>)
    requires
        are_groups(front),
        are_groups(back),
    ensures
        ({
            let text = text_bytes(groups_text(front)) + seq![58u8, 58u8] + text_bytes(
                groups_text(back),
            );
            if front.len() + back.len() <= 7 {
                ipv6_groups(text) == Some(
                    front + Seq::new((8 - front.len() - back.len()) as nat, |i: int| 0int) + back,
                )
            } else {
                ipv6_groups(text) is None
            }
        }),
{
    let head = text_bytes(groups_text(front));
    let tail = text_bytes(groups_text(back));
    let text = head + seq![58u8, 58u8] + tail;
    let at = head.len() as int;
    if front.len() > 0 {
        lemma_groups_text_has_no_gap(front);
        law_group_texts_are_read_back(front, false);
    } else {
        assert(head =~= Seq::empty());
        assert(front =~= Seq::empty());
    }
    if back.len() > 0 {
        lemma_groups_text_has_no_gap(back);
        law_group_texts_are_read_back(back, true);
    } else {
        assert(tail =~= Seq::empty());
        assert(back =~= Seq::empty());
    }
    assert(text.subrange(at, at + 2) =~= gap());
    assert forall|i: int| 0 <= i < at implies !occurs_at(text, gap(), i) by {
        if occurs_at(text, gap(), i) {
            lemma_gap_is_two_colons(text, i);
            assert(text[i] == head[i]);
            if i + 1 < at {
                assert(text[i + 1] == head[i + 1]);
                assert(!colons_at(head, i));
            }
        }
    }
    lemma_find_is(text, gap(), at);
    assert(text.take(at) =~= head);
    assert(text.skip(at + 2) =~= tail);
    if front.len() + back.len() <= 7 {
        let zeros = zero_groups((8 - front.len() - back.len()) as nat);
        assert(zeros =~= Seq::new((8 - front.len() - back.len()) as nat, |i: int| 0int));
    }
}

/// Without two colons there must be eight groups.
#[verifier::rlimit(60)]
pub proof fn law_full_addresses_have_eight_groups(groups: Seq<int>)
    requires
        groups.len() > 0,
        are_groups(groups),
    ensures
        groups.len() == 8 ==> ipv6_groups(text_bytes(groups_text(groups))) == Some(groups),
        groups.len() != 8 ==> ipv6_groups(text_bytes(groups_text(groups))) is None,
{
    let text = text_bytes(groups_text(groups));
    lemma_groups_text_has_no_gap(groups);
    law_group_texts_are_read_back(groups, true);
    lemma_find(text, gap());
    if let Some(at) = find(text, gap()) {
        lemma_gap_is_two_colons(text, at);
        assert(!colons_at(text, at));
    }
}

proof fn lemma_zero_run(groups: Seq<int>, start: int)
    requires
        0 <= start <= groups.len(),
    ensures
        0 <= zero_run(groups, start) <= groups.len() - start,
        forall|i: int| start <= i < start + zero_run(groups, start) ==> #[trigger] groups[i] == 0,
        start + zero_run(groups, start) < groups.len() ==> groups[start + zero_run(groups, start)]
            != 0,
    decreases groups.len() - start,
{
    if start < groups.len() && groups[start] == 0 {
        lemma_zero_run(groups, start + 1);
    }
}

/// The groups that are left out are zeros, and no more zeros stand in a row anywhere; of several
/// equally long runs it is the first.
pub proof fn law_longest_run_is_left_out(groups: Seq<int>, count: int, start: int, length: int)
    requires
        0 <= count <= groups.len(),
    ensures
        ({
            let (first, longest) = longest_run(groups, count);
            &&& 0 <= first && 0 <= longest && first + longest <= groups.len()
            &&& forall|i: int| first <= i < first + longest ==> #[trigger] groups[i] == 0
            &&& 0 <= start < count && 0 < length <= groups.len() - start && (forall|i: int|
                start <= i < start + length ==> #[trigger] groups[i] == 0) ==> length <= longest && (
            length == longest ==> first <= start)
        }),
    decreases count,
{
    if count > 0 {
        law_longest_run_is_left_out(groups, count - 1, start, length);
        lemma_zero_run(groups, count - 1);
        if start == count - 1 && 0 < length <= groups.len() - start && (forall|i: int|
            start <= i < start + length ==> #[trigger] groups[i] == 0) {
            let run = zero_run(groups, start);
            if run < length {
                assert(groups[start + run] == 0);
            }
        }
        let earlier = longest_run(groups, count - 1);
        if earlier.1 > 0 {
            lemma_longest_run_starts_before(groups, count - 1);
        }
    }
}

proof fn lemma_longest_run_starts_before(groups: Seq<int>, count: int)
    requires
        0 <= count,
        longest_run(groups, count).1 > 0,
    ensures
        longest_run(groups, count).0 < count,
    decreases count,
{
    if count > 0 {
        if longest_run(groups, count) == longest_run(groups, count - 1) {
            lemma_longest_run_starts_before(groups, count - 1);
        }
    }
}

#[verifier::rlimit(60)]
proof fn lemma_mapped_groups(address: Seq<u8>, numbers: Seq<int>)
    requires
        forall|i: int| 0 <= i < address.len() ==> #[trigger] address[i] != 58,
        address.len() >= 7,
        ipv4_octets(address) == Some(numbers),
    ensures
        group_list(seq![102u8, 102u8, 102u8, 102u8] + seq![58u8] + address, true) == Some(
            seq![65535int] + seq![
                numbers[0] * 256 + numbers[1],
                numbers[2] * 256 + numbers[3],
            ],
        ),
{
    let ones = seq![102u8, 102u8, 102u8, 102u8];
    law_parts_are_split_at_the_first_separator(ones, 58u8, address);
    law_parts_are_split_at_the_first_separator(address, 58u8, Seq::empty());
    assert(hex_number(ones) == Some(65535int)) by {
        reveal_with_fuel(hex_number, 5);
        assert(ones.drop_last() =~= seq![102u8, 102u8, 102u8]);
        assert(ones.drop_last().drop_last() =~= seq![102u8, 102u8]);
        assert(ones.drop_last().drop_last().drop_last() =~= seq![102u8]);
        assert(ones.drop_last().drop_last().drop_last().drop_last() =~= Seq::empty());
    }
    let low = seq![numbers[0] * 256 + numbers[1], numbers[2] * 256 + numbers[3]];
    assert(group_value(address) is None);
    assert(group_list(address, true) == Some(low));
    let whole = ones + seq![58u8] + address;
    assert(split_once(whole, 58u8) == Some((ones, address)));
    assert(address.len() < whole.len());
    assert(group_value(ones) == Some(65535int));
    assert(group_list(whole, true) == Some(seq![65535int] + low));
}

proof fn lemma_mapped_bytes(octets: Seq<u8>)
    requires
        is_mapped(octets),
    ensures
        text_bytes(ipv6_text(octets)) == seq![58u8, 58u8] + (seq![102u8, 102u8, 102u8, 102u8]
            + seq![58u8] + text_bytes(ipv4_text(octets.skip(12)))),
{
    reveal_strlit("::ffff:");
    assert(text_bytes(ipv6_text(octets)) =~= seq![58u8, 58u8] + (seq![102u8, 102u8, 102u8, 102u8]
        + seq![58u8] + text_bytes(ipv4_text(octets.skip(12)))));
}

proof fn lemma_leading_gap(back: Seq<u8>)
    ensures
        find(seq![58u8, 58u8] + back, gap()) == Some(0int),
        (seq![58u8, 58u8] + back).take(0) == Seq::<u8>::empty(),
        (seq![58u8, 58u8] + back).skip(2) == back,
{
    let text = seq![58u8, 58u8] + back;
    assert(text.subrange(0, 2) =~= gap());
    lemma_find_is(text, gap(), 0);
    assert(text.take(0) =~= Seq::empty());
    assert(text.skip(2) =~= back);
}

#[verifier::rlimit(60)]
proof fn lemma_mapped_text_is_read_back(octets: Seq<u8>)
    requires
        octets.len() == 16,
        is_mapped(octets),
    ensures
        ipv6_groups(text_bytes(ipv6_text(octets))) == Some(groups_of(octets)),
{
    let end = octets.skip(12);
    let address = text_bytes(ipv4_text(end));
    let numbers = end.map_values(|octet: u8| octet as int);
    law_ipv4_text_is_read_back(end);
    lemma_mapped_bytes(octets);
    lemma_mapped_groups(address, numbers);
    lemma_leading_gap(seq![102u8, 102u8, 102u8, 102u8] + seq![58u8] + address);
    assert(numbers[0] == octets[12] && numbers[1] == octets[13]);
    assert(numbers[2] == octets[14] && numbers[3] == octets[15]);
    let back = seq![65535int] + seq![
        numbers[0] * 256 + numbers[1],
        numbers[2] * 256 + numbers[3],
    ];
    let all = Seq::<int>::empty() + zero_groups(5) + back;
    assert(octets[0] == 0 && octets[1] == 0 && octets[2] == 0 && octets[3] == 0 && octets[4] == 0);
    assert(octets[5] == 0 && octets[6] == 0 && octets[7] == 0 && octets[8] == 0 && octets[9] == 0);
    assert(all =~= groups_of(octets));
}

proof fn lemma_gap_bytes(front: Seq<char>, back: Seq<char>)
    ensures
        text_bytes(front + "::"@ + back) == text_bytes(front) + seq![58u8, 58u8] + text_bytes(back),
{
    reveal_strlit("::");
    assert(text_bytes(front + "::"@ + back) =~= text_bytes(front) + seq![58u8, 58u8] + text_bytes(
        back,
    ));
}

proof fn lemma_zeros_put_back(groups: Seq<int>, start: int, length: int)
    requires
        groups.len() == 8,
        0 <= start,
        0 <= length,
        start + length <= 8,
        forall|i: int| start <= i < start + length ==> #[trigger] groups[i] == 0,
    ensures
        groups.take(start) + Seq::new(
            (8 - groups.take(start).len() - groups.skip(start + length).len()) as nat,
            |i: int| 0int,
        ) + groups.skip(start + length) == groups,
{
    assert(groups.take(start) + Seq::new(
        (8 - groups.take(start).len() - groups.skip(start + length).len()) as nat,
        |i: int| 0int,
    ) + groups.skip(start + length) =~= groups);
}

/// Reading the text form of an IPv6 address gives its groups.
#[verifier::rlimit(60)]
pub proof fn law_ipv6_text_is_read_back(octets: Seq<u8>)
    requires
        octets.len() == 16,
    ensures
        ipv6_groups(text_bytes(ipv6_text(octets))) == Some(groups_of(octets)),
{
    if is_mapped(octets) {
        lemma_mapped_text_is_read_back(octets);
    } else {
        let groups = groups_of(octets);
        let (start, length) = longest_run(groups, 8);
        law_longest_run_is_left_out(groups, 8, 0, 0);
        if length > 1 {
            let front = groups.take(start);
            let back = groups.skip(start + length);
            law_gap_stands_for_zeros(front, back);
            lemma_gap_bytes(groups_text(front), groups_text(back));
            lemma_zeros_put_back(groups, start, length);
        } else {
            law_full_addresses_have_eight_groups(groups);
        }
    }
}

proof fn lemma_groups_tell_octets(a: Seq<u8>, b: Seq<u8>)
    requires
        a.len() == 16,
        b.len() == 16,
        groups_of(a) == groups_of(b),
    ensures
        a == b,
{
    assert forall|i: int| 0 <= i < 16 implies a[i] == b[i] by {
        let at = i / 2;
        assert(0 <= at < 8);
        assert(groups_of(a)[at] == group_at(a, at));
        assert(groups_of(b)[at] == group_at(b, at));
        assert(i == 2 * at || i == 2 * at + 1);
        assert(a[2 * at] == b[2 * at] && a[2 * at + 1] == b[2 * at + 1]);
    }
    assert(a =~= b);
}

/// What is written as the text of an address is read as that address.
#[verifier::rlimit(60)]
pub proof fn law_written_addresses_are_read_back(
    ip: IpAddress,
    written: String,
    bytes: &[u8],
    ipv4: Option<[u8; 4]>,
    ipv6: Option<[u8; 16]>,
)
    requires
        call_ensures(IpAddress::to_text, (&ip,), written),
        bytes@ == text_bytes(written@),
        call_ensures(parse_ipv4, (bytes,), ipv4),
        call_ensures(parse_ipv6, (bytes,), ipv6),
    ensures
        ip matches IpAddress::V4(octets) ==> ipv4 == Some(octets),
        ip matches IpAddress::V6(octets) ==> ipv6 == Some(octets),
{
    match ip {
        IpAddress::V4(octets) => {
            law_ipv4_text_is_read_back(octets@);
            let read = ipv4->Some_0;
            let numbers = octets@.map_values(|octet: u8| octet as int);
            assert(numbers == read@.map_values(|octet: u8| octet as int));
            assert forall|i: int| 0 <= i < 4 implies octets@[i] == read@[i] by {
                assert(numbers[i] == octets@[i] as int);
                assert(numbers[i] == read@.map_values(|octet: u8| octet as int)[i]);
            }
            assert(octets =~= read);
        },
        IpAddress::V6(octets) => {
            law_ipv6_text_is_read_back(octets@);
            let read = ipv6->Some_0;
            lemma_groups_tell_octets(octets@, read@);
            assert(octets =~= read);
        },
    }
}

/// The text of a socket address is the text of its address, a colon and the port; an IPv6 address
/// stands in brackets, its scope behind a percent sign.
pub proof fn law_socket_addresses_are_written_with_their_port(
    address: SocketAddress,
    written: String,
    ip: IpAddress,
    host: String,
)
    requires
        call_ensures(SocketAddress::to_text, (&address,), written),
        call_ensures(SocketAddress::ip, (&address,), ip),
        call_ensures(IpAddress::to_text, (&ip,), host),
    ensures
        address matches SocketAddress::V4 { port, .. } ==> written@ == host@ + ":"@ + decimal_text(
            port as nat,
        ),
        address matches SocketAddress::V6 { port, scope_id: 0, .. } ==> written@ == "["@ + host@
            + "]:"@ + decimal_text(port as nat),
        address matches SocketAddress::V6 { port, scope_id, .. } ==> scope_id == 0 || written@
            == "["@ + host@ + "%"@ + decimal_text(scope_id as nat) + "]:"@ + decimal_text(
            port as nat,
        ),
{
    if let SocketAddress::V6 { port, scope_id, .. } = address {
        if scope_id == 0 {
            assert(written@ =~= "["@ + host@ + "]:"@ + decimal_text(port as nat));
        } else {
            assert(written@ =~= "["@ + host@ + "%"@ + decimal_text(scope_id as nat) + "]:"@
                + decimal_text(port as nat));
        }
    }
}

/// Loopback addresses are those that begin with 127, and `::1`.
pub proof fn law_loopback_addresses(ip: IpAddress, loopback: bool)
    requires
        call_ensures(IpAddress::is_loopback, (&ip,), loopback),
    ensures
        ip is V4 ==> (loopback <==> ip@[0] == 127),
        ip is V6 ==> (loopback <==> groups_of(ip@) =~= seq![0int, 0, 0, 0, 0, 0, 0, 1]),
{
    if let IpAddress::V6(octets) = ip {
        let groups = groups_of(octets@);
        let one = seq![0int, 0, 0, 0, 0, 0, 0, 1];
        if loopback {
            assert forall|i: int| 0 <= i < 8 implies groups[i] == one[i] by {
                assert(octets@[2 * i] == 0);
                assert(i < 7 ==> octets@[2 * i + 1] == 0);
            }
        }
        if groups =~= one {
            assert forall|i: int| 0 <= i < 15 implies octets@[i] == 0 by {
                assert(groups[i / 2] == one[i / 2]);
                assert(group_at(octets@, i / 2) == octets@[2 * (i / 2)] * 256 + octets@[2 * (i / 2)
                    + 1]);
            }
            assert(groups[7] == 1);
        }
    }
}

/// An address that is made of octets and a port has neither flow label nor scope.
pub proof fn law_plain_addresses_have_no_scope(
    ip: IpAddress,
    port: u16,
    address: SocketAddress,
    flow_info: u32,
    scope_id: u32,
)
    requires
        call_ensures(SocketAddress::new, (ip, port), address),
        call_ensures(SocketAddress::flow_info, (&address,), flow_info),
        call_ensures(SocketAddress::scope_id, (&address,), scope_id),
    ensures
        flow_info == 0 && scope_id == 0,
        address@.ip == ip@ && address@.port == port,
        address@.flow_info == 0 && address@.scope_id == 0,
{
}

} // verus!
