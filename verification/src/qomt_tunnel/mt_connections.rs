//! The heads that open and extend a bundle of TCP connections.

use vstd::prelude::*;

verus! {

pub const MT_CONNECTIONS_REQUEST_HEAD_BUFFER_SIZE: usize = 21;

pub const MT_CONNECTIONS_RESPONSE_HEAD_BUFFER_SIZE: usize = 21;

/// `QomT`
pub open spec fn magic_bytes() -> Seq<u8> {
    seq![81u8, 111u8, 109u8, 84u8]
}

/// The mark at the front of every head.
#[derive(Clone, Copy, Debug, PartialEq, Eq, Structural)]
pub struct MtConnectionsMagic;

impl MtConnectionsMagic {
    /// The mark as bytes.
    pub fn bytes(&self) -> (bytes: [u8; 4])
        ensures
            bytes@ == magic_bytes(),
    {
        let bytes: [u8; 4] = [81, 111, 109, 84];
        assert(bytes@ =~= magic_bytes());
        bytes
    }

    /// Whether `bytes` are the mark.
    pub fn check(bytes: &[u8; 4]) -> (result: bool)
        ensures
            result == (bytes@ == magic_bytes()),
    {
        let same = bytes[0] == 81 && bytes[1] == 111 && bytes[2] == 109 && bytes[3] == 84;
        proof {
            if same {
                assert(bytes@ =~= magic_bytes());
            }
        }
        same
    }
}

#[derive(Clone, Copy, Debug, PartialEq, Eq, Structural)]
pub enum MtConnectionsError {
    /// An I/O error, by its operating system code where it has one.
    Io(Option<i32>),
}

/// Names a bundle of TCP connections: a random UUID.
#[derive(Clone, Copy, Debug, PartialEq, Eq)]
pub struct MtConnectionsId {
    pub bytes: [u8; 16],
}

/// `uuid::Uuid::new_v4`: sixteen random bytes with the version (4) in the upper half of byte 6 and
/// the variant (binary 10) in the upper two bits of byte 8.
#[verifier::external_body]
pub(crate) fn random_uuid() -> (bytes: [u8; 16])
    ensures
        bytes@[6] / 16 == 4,
        bytes@[8] / 64 == 2,
{
    uuid::Uuid::new_v4().into_bytes()
}

impl MtConnectionsId {
    /// An id that no other bundle is likely to have.
    pub fn new() -> (id: Self)
        ensures
            id.bytes@[6] / 16 == 4,
            id.bytes@[8] / 64 == 2,
    {
        MtConnectionsId { bytes: random_uuid() }
    }
}

/// The number at the front of `bytes` in groups of seven bits, least significant first, and the
/// count of its bytes. `scale` is the weight of the first group and `left` the number of groups
/// that may still come; the last of five may hold four bits.
pub open spec fn varint(bytes: Seq<u8>, scale: int, left: int) -> Option<(int, int)>
    decreases left,
{
    if left <= 0 || bytes.len() == 0 {
        None
    } else if bytes[0] < 128 {
        if left == 1 && bytes[0] > 15 {
            None
        } else {
            Some((bytes[0] * scale, 1))
        }
    } else {
        match varint(bytes.skip(1), scale * 128, left - 1) {
            None => None,
            Some((value, used)) => Some(((bytes[0] - 128) * scale + value, used + 1)),
        }
    }
}

/// The four bytes and the number at the front of `bytes`, and what follows them.
pub open spec fn head_of(bytes: Seq<u8>) -> Option<(Seq<u8>, int, Seq<u8>)> {
    if bytes.len() < 4 {
        None
    } else {
        match varint(bytes.skip(4), 1, 5) {
            None => None,
            Some((value, used)) => Some((bytes.take(4), value, bytes.skip(4 + used))),
        }
    }
}

/// `postcard::to_allocvec` for four bytes and a number below 128: the bytes, then the number in
/// one byte.
#[verifier::external_body]
fn postcard_head(magic: [u8; 4], variant: u32) -> (bytes: Vec<u8>)
    requires
        variant < 128,
    ensures
        bytes@ == magic@.push(variant as u8),
{
    postcard::to_allocvec(&(magic, variant)).unwrap()
}

/// `postcard::take_from_bytes` for four bytes and a 32-bit number: the bytes are taken as they
/// are, the number in groups of seven bits, and what follows is handed back.
#[verifier::external_body]
fn postcard_take_head(bytes: &[u8]) -> (head: Option<([u8; 4], u32, Vec<u8>)>)
    ensures
        match head {
            Some((magic, variant, rest)) => head_of(bytes@) == Some(
                (magic@, variant as int, rest@),
            ),
            None => head_of(bytes@) is None,
        },
{
    match postcard::take_from_bytes::<([u8; 4], u32)>(bytes) {
        Ok(((magic, variant), rest)) => Some((magic, variant, rest.to_vec())),
        Err(_) => None,
    }
}

fn take_id(bytes: &Vec<u8>) -> (id: Option<MtConnectionsId>)
    ensures
        match id {
            Some(id) => bytes@.len() >= 16 && id.bytes@ == bytes@.take(16),
            None => bytes@.len() < 16,
        },
{
    if bytes.len() < 16 {
        return None;
    }
    let taken: [u8; 16] = [
        bytes[0],
        bytes[1],
        bytes[2],
        bytes[3],
        bytes[4],
        bytes[5],
        bytes[6],
        bytes[7],
        bytes[8],
        bytes[9],
        bytes[10],
        bytes[11],
        bytes[12],
        bytes[13],
        bytes[14],
        bytes[15],
    ];
    assert(taken@ =~= bytes@.take(16));
    Some(MtConnectionsId { bytes: taken })
}

#[derive(Clone, Copy, Debug, PartialEq, Eq)]
pub enum MtConnectionsRequestHeadData {
    Create,
    Extend(MtConnectionsId),
}

#[derive(Clone, Copy, Debug, PartialEq, Eq)]
pub enum MtConnectionsResponseHeadData {
    Created(MtConnectionsId),
    Extended,
    AlreadyClosed,
}

impl MtConnectionsRequestHeadData {
    /// The number of the kind of request, and the id that follows it.
    pub open spec fn parts(self) -> (u8, Seq<u8>) {
        match self {
            MtConnectionsRequestHeadData::Create => (0, Seq::empty()),
            MtConnectionsRequestHeadData::Extend(id) => (1, id.bytes@),
        }
    }
}

impl MtConnectionsResponseHeadData {
    /// The number of the kind of response, and the id that follows it.
    pub open spec fn parts(self) -> (u8, Seq<u8>) {
        match self {
            MtConnectionsResponseHeadData::Created(id) => (0, id.bytes@),
            MtConnectionsResponseHeadData::Extended => (1, Seq::empty()),
            MtConnectionsResponseHeadData::AlreadyClosed => (2, Seq::empty()),
        }
    }
}

/// A head on the wire.
pub open spec fn head_bytes(parts: (u8, Seq<u8>)) -> Seq<u8> {
    magic_bytes().push(parts.0) + parts.1
}

/// A well-formed request: the mark, then the number of a kind of request and, for an extension,
/// sixteen bytes. Anything behind is ignored.
pub open spec fn request_in(bytes: Seq<u8>) -> Option<(u8, Seq<u8>)> {
    match head_of(bytes) {
        None => None,
        Some((magic, variant, rest)) => if magic != magic_bytes() {
            None
        } else if variant == 0 {
            Some((0, Seq::empty()))
        } else if variant == 1 && rest.len() >= 16 {
            Some((1, rest.take(16)))
        } else {
            None
        },
    }
}

/// A well-formed response.
pub open spec fn response_in(bytes: Seq<u8>) -> Option<(u8, Seq<u8>)> {
    match head_of(bytes) {
        None => None,
        Some((magic, variant, rest)) => if magic != magic_bytes() {
            None
        } else if variant == 0 && rest.len() >= 16 {
            Some((0, rest.take(16)))
        } else if variant == 1 {
            Some((1, Seq::empty()))
        } else if variant == 2 {
            Some((2, Seq::empty()))
        } else {
            None
        },
    }
}

/// The first message on a TCP connection.
#[derive(Clone, Copy, Debug, PartialEq, Eq)]
pub struct MtConnectionsRequestHead {
    pub magic: MtConnectionsMagic,
    pub data: MtConnectionsRequestHeadData,
}

/// The answer to it.
#[derive(Clone, Copy, Debug, PartialEq, Eq)]
pub struct MtConnectionsResponseHead {
    pub magic: MtConnectionsMagic,
    pub data: MtConnectionsResponseHeadData,
}

impl MtConnectionsRequestHead {
    pub fn to_bytes(&self) -> (bytes: Vec<u8>)
        ensures
            bytes@ == head_bytes(self.data.parts()),
            bytes@.len() <= MT_CONNECTIONS_REQUEST_HEAD_BUFFER_SIZE,
    {
        match self.data {
            MtConnectionsRequestHeadData::Create => {
                let bytes = postcard_head(self.magic.bytes(), 0);
                assert(bytes@ =~= head_bytes(self.data.parts()));
                bytes
            },
            MtConnectionsRequestHeadData::Extend(id) => {
                let mut bytes = postcard_head(self.magic.bytes(), 1);
                bytes.extend_from_slice(id.bytes.as_slice());
                assert(bytes@ =~= head_bytes(self.data.parts()));
                bytes
            },
        }
    }

    pub fn from_bytes(bytes: &[u8]) -> (head: Option<Self>)
        ensures
            match head {
                Some(head) => request_in(bytes@) == Some(head.data.parts()),
                None => request_in(bytes@) is None,
            },
    {
        match postcard_take_head(bytes) {
            None => None,
            Some((magic, variant, rest)) => {
                if !MtConnectionsMagic::check(&magic) {
                    return None;
                }
                if variant == 0 {
                    return Some(
                        MtConnectionsRequestHead {
                            magic: MtConnectionsMagic,
                            data: MtConnectionsRequestHeadData::Create,
                        },
                    );
                }
                if variant == 1 {
                    if let Some(id) = take_id(&rest) {
                        return Some(
                            MtConnectionsRequestHead {
                                magic: MtConnectionsMagic,
                                data: MtConnectionsRequestHeadData::Extend(id),
                            },
                        );
                    }
                }
                None
            },
        }
    }
}

impl MtConnectionsResponseHead {
    pub fn to_bytes(&self) -> (bytes: Vec<u8>)
        ensures
            bytes@ == head_bytes(self.data.parts()),
            bytes@.len() <= MT_CONNECTIONS_RESPONSE_HEAD_BUFFER_SIZE,
    {
        match self.data {
            MtConnectionsResponseHeadData::Created(id) => {
                let mut bytes = postcard_head(self.magic.bytes(), 0);
                bytes.extend_from_slice(id.bytes.as_slice());
                assert(bytes@ =~= head_bytes(self.data.parts()));
                bytes
            },
            MtConnectionsResponseHeadData::Extended => {
                let bytes = postcard_head(self.magic.bytes(), 1);
                assert(bytes@ =~= head_bytes(self.data.parts()));
                bytes
            },
            MtConnectionsResponseHeadData::AlreadyClosed => {
                let bytes = postcard_head(self.magic.bytes(), 2);
                assert(bytes@ =~= head_bytes(self.data.parts()));
                bytes
            },
        }
    }

    pub fn from_bytes(bytes: &[u8]) -> (head: Option<Self>)
        ensures
            match head {
                Some(head) => response_in(bytes@) == Some(head.data.parts()),
                None => response_in(bytes@) is None,
            },
    {
        match postcard_take_head(bytes) {
            None => None,
            Some((magic, variant, rest)) => {
                if !MtConnectionsMagic::check(&magic) {
                    return None;
                }
                let data = if variant == 0 {
                    match take_id(&rest) {
                        Some(id) => MtConnectionsResponseHeadData::Created(id),
                        None => return None,
                    }
                } else if variant == 1 {
                    MtConnectionsResponseHeadData::Extended
                } else if variant == 2 {
                    MtConnectionsResponseHeadData::AlreadyClosed
                } else {
                    return None;
                };
                Some(MtConnectionsResponseHead { magic: MtConnectionsMagic, data })
            },
        }
    }
}

proof fn lemma_head_of_head_bytes(parts: (u8, Seq<u8>))
    requires
        parts.0 < 128,
    ensures
        head_of(head_bytes(parts)) == Some((magic_bytes(), parts.0 as int, parts.1)),
{
    let bytes = head_bytes(parts);
    assert(bytes.take(4) =~= magic_bytes());
    assert(bytes.skip(4)[0] == parts.0);
    assert(varint(bytes.skip(4), 1, 5) == Some((parts.0 as int, 1int)));
    assert(bytes.skip(5) =~= parts.1);
}

/// Reading a request head gives back what was written.
pub proof fn law_request_head_round_trip(data: MtConnectionsRequestHeadData)
    ensures
        request_in(head_bytes(data.parts())) == Some(data.parts()),
{
    lemma_head_of_head_bytes(data.parts());
    assert(data.parts().1.take(data.parts().1.len() as int) =~= data.parts().1);
}

/// Reading a response head gives back what was written.
pub proof fn law_response_head_round_trip(data: MtConnectionsResponseHeadData)
    ensures
        response_in(head_bytes(data.parts())) == Some(data.parts()),
{
    lemma_head_of_head_bytes(data.parts());
    assert(data.parts().1.take(data.parts().1.len() as int) =~= data.parts().1);
}

/// A head is the four magic bytes, the number of the variant and the id where the variant has one.
pub proof fn law_heads_begin_with_the_magic(
    request: MtConnectionsRequestHeadData,
    response: MtConnectionsResponseHeadData,
)
    ensures
        head_bytes(request.parts()).take(4) == seq![81u8, 111u8, 109u8, 84u8],
        head_bytes(response.parts()).take(4) == seq![81u8, 111u8, 109u8, 84u8],
        request is Create ==> head_bytes(request.parts()).skip(4) == seq![0u8],
        request matches MtConnectionsRequestHeadData::Extend(id) ==> head_bytes(
            request.parts(),
        ).skip(4) == seq![1u8] + id.bytes@,
        response matches MtConnectionsResponseHeadData::Created(id) ==> head_bytes(
            response.parts(),
        ).skip(4) == seq![0u8] + id.bytes@,
        response is Extended ==> head_bytes(response.parts()).skip(4) == seq![1u8],
        response is AlreadyClosed ==> head_bytes(response.parts()).skip(4) == seq![2u8],
{
    let asked = head_bytes(request.parts());
    let answered = head_bytes(response.parts());
    assert(asked.take(4) =~= seq![81u8, 111u8, 109u8, 84u8]);
    assert(answered.take(4) =~= seq![81u8, 111u8, 109u8, 84u8]);
    assert(asked.skip(4) =~= seq![request.parts().0] + request.parts().1);
    assert(answered.skip(4) =~= seq![response.parts().0] + response.parts().1);
    assert(seq![request.parts().0] + Seq::<u8>::empty() =~= seq![request.parts().0]);
    assert(seq![response.parts().0] + Seq::<u8>::empty() =~= seq![response.parts().0]);
}

/// What one end writes as its head, the other end reads as the same head, whatever follows it.
pub proof fn law_heads_are_read_back(
    request: MtConnectionsRequestHead,
    written: Vec<u8>,
    received: &[u8],
    read: Option<MtConnectionsRequestHead>,
    response: MtConnectionsResponseHead,
    answered: Vec<u8>,
    received_answer: &[u8],
    read_answer: Option<MtConnectionsResponseHead>,
)
    requires
        call_ensures(MtConnectionsRequestHead::to_bytes, (&request,), written),
        received@ == written@,
        call_ensures(MtConnectionsRequestHead::from_bytes, (received,), read),
        call_ensures(MtConnectionsResponseHead::to_bytes, (&response,), answered),
        received_answer@ == answered@,
        call_ensures(MtConnectionsResponseHead::from_bytes, (received_answer,), read_answer),
    ensures
        read is Some && read->Some_0.data.parts() == request.data.parts(),
        (read->Some_0.data is Create) == (request.data is Create),
        read_answer is Some && read_answer->Some_0.data.parts() == response.data.parts(),
        (read_answer->Some_0.data is Created) == (response.data is Created),
        (read_answer->Some_0.data is Extended) == (response.data is Extended),
{
    law_request_head_round_trip(request.data);
    law_response_head_round_trip(response.data);
}

/// Bytes that do not begin with the magic ones are no head.
pub proof fn law_other_magic_is_refused(bytes: Seq<u8>)
    requires
        bytes.len() < 4 || bytes.take(4) != seq![81u8, 111u8, 109u8, 84u8],
    ensures
        request_in(bytes) is None,
        response_in(bytes) is None,
{
    assert(magic_bytes() =~= seq![81u8, 111u8, 109u8, 84u8]);
}

/// A number by sevens of bits, the lowest first, each byte but the last with its highest bit set.
pub open spec fn varint_bytes(number: nat) -> Seq<u8>
    decreases number,
{
    if number < 128 {
        seq![number as u8]
    } else {
        seq![(128 + number % 128) as u8] + varint_bytes(number / 128)
    }
}

/// The first number that does not fit in 32 bits where so many bytes of it are left.
pub open spec fn varint_limit(left: int) -> int
    decreases left,
{
    if left <= 1 {
        16
    } else {
        128 * varint_limit(left - 1)
    }
}

/// Numbers of 32 bits are read back from their bytes, whatever follows; larger ones are refused.
pub proof fn law_numbers_are_read_back(number: nat, scale: int, left: int, rest: Seq<u8>)
    requires
        left >= 1,
    ensures
        varint_limit(5) == 0x1_0000_0000,
        number < varint_limit(left) ==> varint(varint_bytes(number) + rest, scale, left) == Some(
            (number * scale, varint_bytes(number).len() as int),
        ),
        number >= varint_limit(left) ==> varint(varint_bytes(number) + rest, scale, left) is None,
    decreases left,
{
    reveal_with_fuel(varint_limit, 6);
    let bytes = varint_bytes(number) + rest;
    if number < 128 {
        assert(bytes[0] == number);
        if left > 1 {
            assert(varint_limit(left) >= 128) by {
                lemma_varint_limit(left - 1);
            }
        }
    } else {
        let later = (number / 128) as nat;
        assert(bytes[0] == 128 + number % 128);
        assert(bytes.skip(1) =~= varint_bytes(later) + rest);
        if left > 1 {
            law_numbers_are_read_back(later, scale * 128, left - 1, rest);
            assert((number % 128) * scale + later * (scale * 128) == number * scale)
                by (nonlinear_arith)
                requires
                    later == number / 128,
            ;
        }
    }
}

proof fn lemma_varint_limit(left: int)
    ensures
        varint_limit(left) >= 16,
    decreases left,
{
    if left > 1 {
        lemma_varint_limit(left - 1);
    }
}

} // verus!
