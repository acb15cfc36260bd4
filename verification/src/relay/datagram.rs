//! Datagrams inside a tunnel: source and destination, each as a kind byte, the octets and the
//! port, then the length of the data in four bytes and the data.

use vstd::prelude::*;

use crate::address::{unscoped, IpAddress, SocketAddress};
use crate::buffers::{
    buffer_contents, bytes_contents, bytes_slice, copy_bytes, freeze, new_buffer, put_slice,
    put_u16, put_u8,
};
use crate::framing::{be32, leading_be32};

verus! {

/// The kind byte of an IPv4 address.
pub const KIND_IPV4: u8 = 4;

/// The kind byte of an IPv6 address.
pub const KIND_IPV6: u8 = 6;

/// A datagram on its way through a tunnel.
pub struct Datagram {
    pub source: SocketAddress,
    pub dest: SocketAddress,
    pub data: bytes::Bytes,
}

/// Why bytes are no datagram.
#[derive(Clone, Copy, Debug, PartialEq, Eq, Structural)]
pub enum DatagramError {
    TooShort,
    InvalidAddressKind,
}

/// The bytes of an address. Flow label and scope are not among them.
pub open spec fn address_bytes(address: (Seq<u8>, u16)) -> Seq<u8> {
    seq![
        if address.0.len() == 4 {
            KIND_IPV4
        } else {
            KIND_IPV6
        },
    ] + address.0 + seq![(address.1 / 256) as u8, (address.1 % 256) as u8]
}

/// The bytes of a datagram.
pub open spec fn datagram_bytes(
    source: (Seq<u8>, u16),
    dest: (Seq<u8>, u16),
    data: Seq<u8>,
) -> Seq<u8> {
    address_bytes(source) + address_bytes(dest) + be32(data.len() as int) + data
}

/// The address at the front of bytes, and what follows it.
pub open spec fn address_in(bytes: Seq<u8>) -> Result<((Seq<u8>, u16), Seq<u8>), DatagramError> {
    if bytes.len() == 0 {
        Err(DatagramError::TooShort)
    } else if bytes[0] != KIND_IPV4 && bytes[0] != KIND_IPV6 {
        Err(DatagramError::InvalidAddressKind)
    } else {
        let length: int = if bytes[0] == KIND_IPV4 {
            4
        } else {
            16
        };
        if bytes.len() < 3 + length {
            Err(DatagramError::TooShort)
        } else {
            Ok(
                (
                    (
                        bytes.subrange(1, 1 + length),
                        (bytes[1 + length] * 256 + bytes[2 + length]) as u16,
                    ),
                    bytes.skip(3 + length),
                ),
            )
        }
    }
}

/// The data behind the addresses.
pub open spec fn data_in(bytes: Seq<u8>) -> Result<Seq<u8>, DatagramError> {
    if bytes.len() < 4 || bytes.len() < 4 + leading_be32(bytes) {
        Err(DatagramError::TooShort)
    } else {
        Ok(bytes.subrange(4, 4 + leading_be32(bytes)))
    }
}

/// Source, destination and data of a datagram in a tunnel.
pub open spec fn datagram_in(bytes: Seq<u8>) -> Result<
    ((Seq<u8>, u16), (Seq<u8>, u16), Seq<u8>),
    DatagramError,
> {
    match address_in(bytes) {
        Err(error) => Err(error),
        Ok((source, rest)) => match address_in(rest) {
            Err(error) => Err(error),
            Ok((dest, rest)) => match data_in(rest) {
                Err(error) => Err(error),
                Ok(data) => Ok((source, dest, data)),
            },
        },
    }
}

proof fn lemma_address_round_trip(address: (Seq<u8>, u16), rest: Seq<u8>)
    requires
        address.0.len() == 4 || address.0.len() == 16,
    ensures
        address_in(address_bytes(address) + rest) == Ok::<_, DatagramError>((address, rest)),
{
    let bytes = address_bytes(address) + rest;
    let length = address.0.len() as int;
    assert(bytes.subrange(1, 1 + length) =~= address.0);
    assert(bytes.skip(3 + length) =~= rest);
    assert(bytes[1 + length] == (address.1 / 256) as u8);
    assert(bytes[2 + length] == (address.1 % 256) as u8);
}

proof fn lemma_data_round_trip(data: Seq<u8>)
    requires
        data.len() <= u32::MAX,
    ensures
        data_in(be32(data.len() as int) + data) == Ok::<_, DatagramError>(data),
{
    let bytes = be32(data.len() as int) + data;
    assert(leading_be32(bytes) == data.len());
    assert(bytes.subrange(4, 4 + data.len() as int) =~= data);
}

proof fn lemma_joined(a: Seq<u8>, b: Seq<u8>, c: Seq<u8>, d: Seq<u8>)
    ensures
        a + b + c + d == a + (b + (c + d)),
{
    assert(a + b + c + d =~= a + (b + (c + d)));
}

/// Reading a datagram gives back what was written.
pub proof fn law_datagram_round_trip(
    source: (Seq<u8>, u16),
    dest: (Seq<u8>, u16),
    data: Seq<u8>,
)
    requires
        source.0.len() == 4 || source.0.len() == 16,
        dest.0.len() == 4 || dest.0.len() == 16,
        data.len() <= u32::MAX,
    ensures
        datagram_in(datagram_bytes(source, dest, data)) == Ok::<_, DatagramError>(
            (source, dest, data),
        ),
{
    let front = address_bytes(source);
    let middle = address_bytes(dest);
    let length = be32(data.len() as int);
    lemma_joined(front, middle, length, data);
    lemma_address_round_trip(source, middle + (length + data));
    lemma_address_round_trip(dest, length + data);
    lemma_data_round_trip(data);
}

fn put_address(buffer: &mut bytes::BytesMut, address: &SocketAddress)
    ensures
        buffer_contents(*final(buffer)) == buffer_contents(*old(buffer)) + address_bytes(address.endpoint()),
{
    if address.is_ipv4() {
        put_u8(buffer, KIND_IPV4);
    } else {
        put_u8(buffer, KIND_IPV6);
    }
    put_slice(buffer, address.ip().octets());
    put_u16(buffer, address.port());
    assert(buffer_contents(*buffer) =~= buffer_contents(*old(buffer)) + address_bytes(address.endpoint()));
}

fn take_address(bytes: &[u8]) -> (result: Result<(SocketAddress, &[u8]), DatagramError>)
    ensures
        match result {
            Ok((address, rest)) => address@ == unscoped(address.endpoint()) && address_in(bytes@)
                == Ok::<_, DatagramError>((address.endpoint(), rest@)),
            Err(error) => address_in(bytes@) == Err::<((Seq<u8>, u16), Seq<u8>), _>(error),
        },
{
    if bytes.len() == 0 {
        return Err(DatagramError::TooShort);
    }
    if bytes[0] == KIND_IPV4 {
        if bytes.len() < 7 {
            return Err(DatagramError::TooShort);
        }
        let octets: [u8; 4] = [bytes[1], bytes[2], bytes[3], bytes[4]];
        let port: u16 = bytes[5] as u16 * 256 + bytes[6] as u16;
        let rest = vstd::slice::slice_subrange(bytes, 7, bytes.len());
        assert(octets@ =~= bytes@.subrange(1, 5));
        assert(rest@ =~= bytes@.skip(7));
        Ok((SocketAddress::new(IpAddress::V4(octets), port), rest))
    } else if bytes[0] == KIND_IPV6 {
        if bytes.len() < 19 {
            return Err(DatagramError::TooShort);
        }
        let octets: [u8; 16] = [
            bytes[1],
            bytes[2],
            bytes[3],
            bytes[4],
            bytes[5],
            bytes[6],
            bytes[7],
            bytes[8],
            bytes[9],
            bytes[10],
            bytes[11],
            bytes[12],
            bytes[13],
            bytes[14],
            bytes[15],
            bytes[16],
        ];
        let port: u16 = bytes[17] as u16 * 256 + bytes[18] as u16;
        let rest = vstd::slice::slice_subrange(bytes, 19, bytes.len());
        assert(octets@ =~= bytes@.subrange(1, 17));
        assert(rest@ =~= bytes@.skip(19));
        Ok((SocketAddress::new(IpAddress::V6(octets), port), rest))
    } else {
        Err(DatagramError::InvalidAddressKind)
    }
}

impl Datagram {
    pub fn new(source: SocketAddress, dest: SocketAddress, data: bytes::Bytes) -> (datagram: Self)
        ensures
            datagram.source == source,
            datagram.dest == dest,
            datagram.data == data,
    {
        Datagram { source, dest, data }
    }

    /// The bytes of the datagram. The length field holds 32 bits of the length.
    pub fn serialize(&self) -> (bytes: bytes::Bytes)
        ensures
            bytes_contents(bytes) == datagram_bytes(
                self.source.endpoint(),
                self.dest.endpoint(),
                bytes_contents(self.data),
            ),
    {
        let mut buffer = new_buffer();
        put_address(&mut buffer, &self.source);
        put_address(&mut buffer, &self.dest);
        let data = bytes_slice(&self.data);
        let length: u64 = data.len() as u64;
        put_u8(&mut buffer, (length / 0x100_0000 % 256) as u8);
        put_u8(&mut buffer, (length / 0x1_0000 % 256) as u8);
        put_u8(&mut buffer, (length / 0x100 % 256) as u8);
        put_u8(&mut buffer, (length % 256) as u8);
        put_slice(&mut buffer, data);
        assert(buffer_contents(buffer) =~= datagram_bytes(
            self.source.endpoint(),
            self.dest.endpoint(),
            data@,
        ));
        freeze(buffer)
    }

    /// Reads a datagram from bytes. What follows it is ignored.
    pub fn deserialize(bytes: &bytes::Bytes) -> (result: Result<Self, DatagramError>)
        ensures
            match result {
                Ok(datagram) => datagram.source@ == unscoped(datagram.source.endpoint())
                    && datagram.dest@ == unscoped(datagram.dest.endpoint()) && datagram_in(
                    bytes_contents(*bytes),
                ) == Ok::<_, DatagramError>(
                    (
                        datagram.source.endpoint(),
                        datagram.dest.endpoint(),
                        bytes_contents(datagram.data),
                    ),
                ),
                Err(error) => datagram_in(bytes_contents(*bytes)) == Err::<
                    ((Seq<u8>, u16), (Seq<u8>, u16), Seq<u8>),
                    _,
                >(error),
            },
    {
        let (source, rest) = match take_address(bytes_slice(bytes)) {
            Ok(taken) => taken,
            Err(error) => return Err(error),
        };
        let (dest, rest) = match take_address(rest) {
            Ok(taken) => taken,
            Err(error) => return Err(error),
        };
        if rest.len() < 4 {
            return Err(DatagramError::TooShort);
        }
        let length: u32 = rest[0] as u32 * 0x100_0000 + rest[1] as u32 * 0x1_0000 + rest[2] as u32
            * 0x100 + rest[3] as u32;
        let length: usize = length as usize;
        if rest.len() - 4 < length {
            return Err(DatagramError::TooShort);
        }
        let data = vstd::slice::slice_subrange(rest, 4, 4 + length);
        Ok(Datagram { source, dest, data: copy_bytes(data) })
    }
}

/// The address begins with 4 or 6, the number of the version, then come the octets and the port
/// with its higher byte first; the data begins with its length in four bytes.
pub proof fn law_datagrams_have_their_layout(datagram: Datagram, bytes: bytes::Bytes)
    requires
        datagram.source is V4,
        datagram.dest is V6,
        bytes_contents(datagram.data).len() <= u32::MAX,
        call_ensures(Datagram::serialize, (&datagram,), bytes),
    ensures
        ({
            let written = bytes_contents(bytes);
            let data = bytes_contents(datagram.data);
            &&& written.len() == 7 + 19 + 4 + data.len()
            &&& written[0] == 4
            &&& written.subrange(1, 5) == datagram.source@.ip
            &&& written[5] * 256 + written[6] == datagram.source@.port
            &&& written[7] == 6
            &&& written.subrange(8, 24) == datagram.dest@.ip
            &&& written[24] * 256 + written[25] == datagram.dest@.port
            &&& written[26] * 0x100_0000 + written[27] * 0x1_0000 + written[28] * 0x100
                + written[29] == data.len()
            &&& written.skip(30) == data
        }),
{
    let written = bytes_contents(bytes);
    let data = bytes_contents(datagram.data);
    let front = address_bytes(datagram.source.endpoint());
    let middle = address_bytes(datagram.dest.endpoint());
    assert(front.len() == 7 && middle.len() == 19);
    assert(written.subrange(1, 5) =~= datagram.source@.ip);
    assert(written.subrange(8, 24) =~= datagram.dest@.ip);
    assert(written[5] == front[5] && written[6] == front[6]);
    assert(written[24] == middle[17] && written[25] == middle[18]);
    let length = be32(data.len() as int);
    assert(written[26] == length[0] && written[27] == length[1]);
    assert(written[28] == length[2] && written[29] == length[3]);
    assert(leading_be32(length) == data.len());
    assert(written.skip(30) =~= data);
}

proof fn lemma_cut_address(address: (Seq<u8>, u16), rest: Seq<u8>, length: int)
    requires
        address.0.len() == 4 || address.0.len() == 16,
        0 <= length <= address_bytes(address).len() + rest.len(),
    ensures
        length < address_bytes(address).len() ==> address_in(
            (address_bytes(address) + rest).take(length),
        ) == Err::<((Seq<u8>, u16), Seq<u8>), _>(DatagramError::TooShort),
        length >= address_bytes(address).len() ==> address_in(
            (address_bytes(address) + rest).take(length),
        ) == Ok::<_, DatagramError>(
            (address, rest.take(length - address_bytes(address).len())),
        ),
{
    let front = address_bytes(address);
    let cut = (front + rest).take(length);
    if length < front.len() {
        if length > 0 {
            assert(cut[0] == front[0]);
        }
    } else {
        let left = rest.take(length - front.len());
        assert(cut =~= front + left);
        lemma_address_round_trip(address, left);
    }
}

proof fn lemma_cut_data(data: Seq<u8>, length: int)
    requires
        data.len() <= u32::MAX,
        0 <= length < 4 + data.len(),
    ensures
        data_in((be32(data.len() as int) + data).take(length)) == Err::<Seq<u8>, _>(
            DatagramError::TooShort,
        ),
{
    let field = be32(data.len() as int);
    let cut = (field + data).take(length);
    if length >= 4 {
        assert(cut[0] == field[0] && cut[1] == field[1]);
        assert(cut[2] == field[2] && cut[3] == field[3]);
        assert(leading_be32(field) == data.len());
        assert(leading_be32(cut) == data.len());
    }
}

proof fn lemma_cut_datagram(
    source: (Seq<u8>, u16),
    dest: (Seq<u8>, u16),
    data: Seq<u8>,
    length: int,
)
    requires
        source.0.len() == 4 || source.0.len() == 16,
        dest.0.len() == 4 || dest.0.len() == 16,
        data.len() <= u32::MAX,
        0 <= length < datagram_bytes(source, dest, data).len(),
    ensures
        datagram_in(datagram_bytes(source, dest, data).take(length)) == Err::<
            ((Seq<u8>, u16), (Seq<u8>, u16), Seq<u8>),
            _,
        >(DatagramError::TooShort),
{
    let front = address_bytes(source);
    let middle = address_bytes(dest);
    let field = be32(data.len() as int);
    lemma_joined(front, middle, field, data);
    lemma_cut_address(source, middle + (field + data), length);
    if length >= front.len() {
        lemma_cut_address(dest, field + data, length - front.len());
        if length >= front.len() + middle.len() {
            lemma_cut_data(data, length - front.len() - middle.len());
        }
    }
}

/// A datagram that is cut off anywhere is too short.
pub proof fn law_cut_datagrams_are_too_short(
    datagram: Datagram,
    written: bytes::Bytes,
    received: bytes::Bytes,
    result: Result<Datagram, DatagramError>,
)
    requires
        bytes_contents(datagram.data).len() <= u32::MAX,
        call_ensures(Datagram::serialize, (&datagram,), written),
        bytes_contents(received).len() < bytes_contents(written).len(),
        bytes_contents(received) == bytes_contents(written).take(
            bytes_contents(received).len() as int,
        ),
        call_ensures(Datagram::deserialize, (&received,), result),
    ensures
        result == Err::<Datagram, _>(DatagramError::TooShort),
{
    lemma_cut_datagram(
        datagram.source.endpoint(),
        datagram.dest.endpoint(),
        bytes_contents(datagram.data),
        bytes_contents(received).len() as int,
    );
}

proof fn lemma_data_before_more(data: Seq<u8>, more: Seq<u8>)
    requires
        data.len() <= u32::MAX,
    ensures
        data_in(be32(data.len() as int) + data + more) == Ok::<_, DatagramError>(data),
{
    let field = be32(data.len() as int);
    let rest = field + data + more;
    assert(rest[0] == field[0] && rest[1] == field[1]);
    assert(rest[2] == field[2] && rest[3] == field[3]);
    assert(leading_be32(field) == data.len());
    assert(leading_be32(rest) == data.len());
    assert(rest.subrange(4, 4 + data.len() as int) =~= data);
}

proof fn lemma_datagram_before_more(
    source: (Seq<u8>, u16),
    dest: (Seq<u8>, u16),
    data: Seq<u8>,
    more: Seq<u8>,
)
    requires
        source.0.len() == 4 || source.0.len() == 16,
        dest.0.len() == 4 || dest.0.len() == 16,
        data.len() <= u32::MAX,
    ensures
        datagram_in(datagram_bytes(source, dest, data) + more) == Ok::<_, DatagramError>(
            (source, dest, data),
        ),
{
    let front = address_bytes(source);
    let middle = address_bytes(dest);
    let field = be32(data.len() as int);
    let rest = field + data + more;
    assert(front + middle + field + data + more =~= front + (middle + rest));
    lemma_address_round_trip(source, middle + rest);
    lemma_address_round_trip(dest, rest);
    lemma_data_before_more(data, more);
}

/// What was written is read back, whatever follows it.
pub proof fn law_datagrams_are_read_to_their_end(
    datagram: Datagram,
    written: bytes::Bytes,
    more: Seq<u8>,
    received: bytes::Bytes,
    result: Result<Datagram, DatagramError>,
)
    requires
        bytes_contents(datagram.data).len() <= u32::MAX,
        call_ensures(Datagram::serialize, (&datagram,), written),
        bytes_contents(received) == bytes_contents(written) + more,
        call_ensures(Datagram::deserialize, (&received,), result),
    ensures
        result matches Ok(read) && read.source@ == unscoped(datagram.source.endpoint())
            && read.dest@ == unscoped(datagram.dest.endpoint()) && bytes_contents(read.data)
            == bytes_contents(datagram.data),
{
    lemma_datagram_before_more(
        datagram.source.endpoint(),
        datagram.dest.endpoint(),
        bytes_contents(datagram.data),
        more,
    );
}

/// An address begins with 4 or 6; bytes that begin otherwise are refused, and so are no bytes.
pub proof fn law_other_kinds_are_refused(
    received: bytes::Bytes,
    result: Result<Datagram, DatagramError>,
)
    requires
        call_ensures(Datagram::deserialize, (&received,), result),
    ensures
        bytes_contents(received).len() == 0 ==> result == Err::<Datagram, _>(DatagramError::TooShort),
        bytes_contents(received).len() > 0 && bytes_contents(received)[0] != 4 && bytes_contents(
            received,
        )[0] != 6 ==> result == Err::<Datagram, _>(DatagramError::InvalidAddressKind),
{
}

} // verus!
