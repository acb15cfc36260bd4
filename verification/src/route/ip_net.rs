//! Networks.

use vstd::arithmetic::power2::*;
use vstd::prelude::*;

use crate::address::{
    groups_of, ipv4_octets, ipv6_groups, octet_value, parse_ipv4, parse_ipv6, parse_octet,
    IpAddress,
};
use crate::text::{split_at_byte, split_once};

verus! {

/// The upper bits of a byte.
pub open spec fn upper_bits(byte: u8, count: int) -> nat {
    byte as nat / pow2((8 - count) as nat)
}

/// Whether two addresses agree in their first bits.
pub open spec fn bits_agree(a: Seq<u8>, b: Seq<u8>, bits: int) -> bool {
    &&& forall|i: int| 0 <= i < bits / 8 ==> #[trigger] a[i] == b[i]
    &&& bits % 8 == 0 || upper_bits(a[bits / 8], bits % 8) == upper_bits(b[bits / 8], bits % 8)
}

/// The addresses that begin with the same bits.
#[derive(Clone, Copy, Debug, PartialEq, Eq)]
pub struct IpNet {
    address: IpAddress,
    prefix: u8,
}

/// A network in mathematical form.
pub struct IpNetModel {
    pub octets: Seq<u8>,
    pub prefix: int,
}

impl View for IpNet {
    type V = IpNetModel;

    closed spec fn view(&self) -> IpNetModel {
        IpNetModel { octets: self.address@, prefix: self.prefix as int }
    }
}

impl IpNetModel {
    /// A network holds the addresses of its own version that begin with its bits.
    pub open spec fn holds(self, octets: Seq<u8>) -> bool {
        octets.len() == self.octets.len() && bits_agree(octets, self.octets, self.prefix)
    }
}

/// The number of bits of an address.
pub open spec fn address_bits(octets: Seq<u8>) -> int {
    8 * octets.len() as int
}

/// Octets as numbers.
pub open spec fn ints(octets: Seq<u8>) -> Seq<int> {
    octets.map_values(|octet: u8| octet as int)
}

/// Whether a text stands for a network: an address, a slash and the number of bits.
pub open spec fn is_net_text(text: Seq<u8>, net: IpNetModel) -> bool {
    split_once(text, 47u8) matches Some((address, prefix)) && octet_value(prefix) == Some(
        net.prefix,
    ) && net.prefix <= address_bits(net.octets) && match ipv4_octets(address) {
        Some(octets) => octets == ints(net.octets),
        None => net.octets.len() == 16 && ipv6_groups(address) == Some(groups_of(net.octets)),
    }
}

fn upper_bits_of(byte: u8, count: u8) -> (bits: u8)
    requires
        0 < count < 8,
    ensures
        bits == upper_bits(byte, count as int),
{
    proof {
        lemma2_to64();
    }
    match count {
        1 => byte / 128,
        2 => byte / 64,
        3 => byte / 32,
        4 => byte / 16,
        5 => byte / 8,
        6 => byte / 4,
        _ => byte / 2,
    }
}

impl IpNet {
    #[verifier::type_invariant]
    spec fn fits(self) -> bool {
        self.prefix <= address_bits(self.address@)
    }

    /// An address of the network.
    pub fn address(&self) -> (address: IpAddress)
        ensures
            address@ == self@.octets,
    {
        self.address
    }

    /// How many leading bits the addresses of the network share.
    pub fn prefix(&self) -> (prefix: u8)
        ensures
            prefix == self@.prefix,
    {
        self.prefix
    }

    /// A network, or `None` where the address has fewer bits than the prefix.
    pub fn new(address: IpAddress, prefix: u8) -> (net: Option<Self>)
        ensures
            match net {
                Some(net) => prefix <= address_bits(address@) && net@ == (IpNetModel {
                    octets: address@,
                    prefix: prefix as int,
                }),
                None => prefix > address_bits(address@),
            },
    {
        let length: usize = address.octets().len();
        let bits: usize = if length == 4 {
            32
        } else {
            128
        };
        if prefix as usize > bits {
            return None;
        }
        Some(IpNet { address, prefix })
    }

    /// Reads a network in the form of an address, a slash and the number of bits.
    pub fn parse(text: &str) -> (net: Option<Self>)
        ensures
            match net {
                Some(net) => is_net_text(vstd::utf8::encode_utf8(text@), net@),
                None => forall|net: IpNetModel|
                    !#[trigger] is_net_text(vstd::utf8::encode_utf8(text@), net),
            },
    {
        let (address_text, prefix_text) = match split_at_byte(text.as_bytes(), 47) {
            Some(parts) => parts,
            None => return None,
        };
        let address = match parse_ipv4(address_text) {
            Some(octets) => IpAddress::V4(octets),
            None => match parse_ipv6(address_text) {
                Some(octets) => IpAddress::V6(octets),
                None => return None,
            },
        };
        let prefix: u8 = match parse_octet(prefix_text) {
            Some(prefix) => prefix,
            None => return None,
        };
        let net = IpNet::new(address, prefix);
        proof {
            if net is None {
                assert forall|other: IpNetModel|
                    !#[trigger] is_net_text(vstd::utf8::encode_utf8(text@), other) by {
                    if is_net_text(vstd::utf8::encode_utf8(text@), other) {
                        if address is V4 {
                            assert(ints(other.octets).len() == 4);
                        } else {
                            assert(ints(other.octets).len() == other.octets.len());
                        }
                    }
                }
            }
        }
        net
    }

    /// Whether the network holds an address.
    pub fn contains(&self, ip: &IpAddress) -> (result: bool)
        ensures
            result == self@.holds(ip@),
    {
        proof {
            use_type_invariant(self);
        }
        let own = self.address.octets();
        let other = ip.octets();
        if own.len() != other.len() {
            return false;
        }
        let whole: usize = (self.prefix / 8) as usize;
        let rest: u8 = self.prefix % 8;
        let mut index: usize = 0;
        while index < whole
            invariant
                index <= whole,
                whole <= own@.len(),
                whole == self@.prefix / 8,
                own@ == self@.octets,
                other@ == ip@,
                own@.len() == other@.len(),
                forall|i: int| 0 <= i < index ==> #[trigger] other@[i] == own@[i],
            decreases whole - index,
        {
            if own[index] != other[index] {
                assert(other@[index as int] != own@[index as int]);
                return false;
            }
            index += 1;
        }
        rest == 0 || upper_bits_of(own[whole], rest) == upper_bits_of(other[whole], rest)
    }
}

/// A bit of an address, the most significant first.
pub open spec fn bit_at(octets: Seq<u8>, index: int) -> int {
    octets[index / 8] as int / pow2((7 - index % 8) as nat) as int % 2
}

/// The bits of a byte, the most significant first.
spec fn same_bits(a: u8, b: u8, count: int) -> bool {
    &&& count > 0 ==> a / 128 % 2 == b / 128 % 2
    &&& count > 1 ==> a / 64 % 2 == b / 64 % 2
    &&& count > 2 ==> a / 32 % 2 == b / 32 % 2
    &&& count > 3 ==> a / 16 % 2 == b / 16 % 2
    &&& count > 4 ==> a / 8 % 2 == b / 8 % 2
    &&& count > 5 ==> a / 4 % 2 == b / 4 % 2
    &&& count > 6 ==> a / 2 % 2 == b / 2 % 2
    &&& count > 7 ==> a % 2 == b % 2
}

proof fn lemma_upper_bits(a: u8, b: u8, count: int)
    requires
        0 < count < 8,
    ensures
        upper_bits(a, count) == upper_bits(b, count) <==> same_bits(a, b, count),
{
    lemma2_to64();
}

proof fn lemma_same_bytes(a: u8, b: u8)
    ensures
        a == b <==> same_bits(a, b, 8),
{
    assert(a == b <==> (a / 128 % 2 == b / 128 % 2 && a / 64 % 2 == b / 64 % 2 && a / 32 % 2 == b
        / 32 % 2 && a / 16 % 2 == b / 16 % 2 && a / 8 % 2 == b / 8 % 2 && a / 4 % 2 == b / 4 % 2
        && a / 2 % 2 == b / 2 % 2 && a % 2 == b % 2)) by (bit_vector);
}

proof fn lemma_bits_of_a_byte(a: Seq<u8>, b: Seq<u8>, byte: int, count: int)
    requires
        0 <= byte,
        0 <= count <= 8,
    ensures
        same_bits(a[byte], b[byte], count) <==> forall|i: int|
            8 * byte <= i < 8 * byte + count ==> #[trigger] bit_at(a, i) == bit_at(b, i),
{
    lemma2_to64();
    let first = 8 * byte;
    assert(bit_at(a, first) == a[byte] / 128 % 2 && bit_at(b, first) == b[byte] / 128 % 2);
    assert(bit_at(a, first + 1) == a[byte] / 64 % 2 && bit_at(b, first + 1) == b[byte] / 64 % 2);
    assert(bit_at(a, first + 2) == a[byte] / 32 % 2 && bit_at(b, first + 2) == b[byte] / 32 % 2);
    assert(bit_at(a, first + 3) == a[byte] / 16 % 2 && bit_at(b, first + 3) == b[byte] / 16 % 2);
    assert(bit_at(a, first + 4) == a[byte] / 8 % 2 && bit_at(b, first + 4) == b[byte] / 8 % 2);
    assert(bit_at(a, first + 5) == a[byte] / 4 % 2 && bit_at(b, first + 5) == b[byte] / 4 % 2);
    assert(bit_at(a, first + 6) == a[byte] / 2 % 2 && bit_at(b, first + 6) == b[byte] / 2 % 2);
    assert((7 - (first + 7) % 8) as nat == 0 && (first + 7) / 8 == byte);
    assert(pow2(0) == 1);
    assert(bit_at(a, first + 7) == a[byte] % 2 && bit_at(b, first + 7) == b[byte] % 2);
    if same_bits(a[byte], b[byte], count) {
        assert forall|i: int| first <= i < first + count implies #[trigger] bit_at(a, i) == bit_at(
            b,
            i,
        ) by {
            let k = i - first;
            assert(k == 0 || k == 1 || k == 2 || k == 3 || k == 4 || k == 5 || k == 6 || k == 7);
        }
    }
}

/// A network holds exactly the addresses of its version whose first bits are its own, bit by bit.
pub proof fn law_networks_hold_what_shares_their_bits(net: IpNetModel, octets: Seq<u8>)
    requires
        0 <= net.prefix <= address_bits(net.octets),
    ensures
        net.holds(octets) <==> octets.len() == net.octets.len() && forall|i: int|
            0 <= i < net.prefix ==> #[trigger] bit_at(octets, i) == bit_at(net.octets, i),
{
    let whole = net.prefix / 8;
    let own = net.octets;
    if octets.len() == own.len() {
        if bits_agree(octets, own, net.prefix) {
            assert forall|i: int| 0 <= i < net.prefix implies #[trigger] bit_at(octets, i)
                == bit_at(own, i) by {
                let byte = i / 8;
                if byte < whole {
                    assert(octets[byte] == own[byte]);
                } else {
                    lemma_upper_bits(octets[whole], own[whole], net.prefix % 8);
                    lemma_bits_of_a_byte(octets, own, whole, net.prefix % 8);
                }
            }
        }
        if forall|i: int| 0 <= i < net.prefix ==> #[trigger] bit_at(octets, i) == bit_at(own, i) {
            assert forall|byte: int| 0 <= byte < whole implies #[trigger] octets[byte]
                == own[byte] by {
                lemma_bits_of_a_byte(octets, own, byte, 8);
                lemma_same_bytes(octets[byte], own[byte]);
            }
            if net.prefix % 8 != 0 {
                lemma_bits_of_a_byte(octets, own, whole, net.prefix % 8);
                lemma_upper_bits(octets[whole], own[whole], net.prefix % 8);
            }
        }
    }
}

/// A network may name all bits of its address, 32 or 128 of them, and no more.
pub proof fn law_prefixes_are_within_the_address(address: IpAddress, prefix: u8, net: Option<IpNet>)
    requires
        call_ensures(IpNet::new, (address, prefix), net),
    ensures
        address is V4 ==> (net is Some <==> prefix <= 32),
        address is V6 ==> (net is Some <==> prefix <= 128),
        net matches Some(net) ==> net@.octets == address@ && net@.prefix == prefix,
{
}

} // verus!
