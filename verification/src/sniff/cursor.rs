//! A cursor that takes fields off the front of a byte slice.

use vstd::prelude::*;

verus! {

/// The big-endian number in the first two bytes.
pub open spec fn leading_u16(bytes: Seq<u8>) -> int {
    bytes[0] * 256 + bytes[1]
}

/// The first `length` bytes and the rest.
pub open spec fn taken(bytes: Seq<u8>, length: int) -> Option<(Seq<u8>, Seq<u8>)> {
    if length <= bytes.len() {
        Some((bytes.take(length), bytes.skip(length)))
    } else {
        None
    }
}

/// The contents of a block with a one-byte length, and the rest.
pub open spec fn u8_block(bytes: Seq<u8>) -> Option<(Seq<u8>, Seq<u8>)> {
    if bytes.len() < 1 {
        None
    } else {
        taken(bytes.skip(1), bytes[0] as int)
    }
}

/// The contents of a block with a two-byte length, and the rest.
pub open spec fn u16_block(bytes: Seq<u8>) -> Option<(Seq<u8>, Seq<u8>)> {
    if bytes.len() < 2 {
        None
    } else {
        taken(bytes.skip(2), leading_u16(bytes))
    }
}

/// The unread rest of a byte slice.
pub struct SliceCursor<'a> {
    pub remaining: &'a [u8],
}

impl<'a> View for SliceCursor<'a> {
    type V = Seq<u8>;

    open spec fn view(&self) -> Seq<u8> {
        self.remaining@
    }
}

impl<'a> SliceCursor<'a> {
    pub fn new(remaining: &'a [u8]) -> (cursor: Self)
        ensures
            cursor@ == remaining@,
    {
        SliceCursor { remaining }
    }

    pub fn is_empty(&self) -> (result: bool)
        ensures
            result == (self@.len() == 0),
    {
        self.remaining.len() == 0
    }

    /// The number of unread bytes.
    pub fn len(&self) -> (result: usize)
        ensures
            result == self@.len(),
    {
        self.remaining.len()
    }

    /// Takes `length` bytes, or nothing where fewer are left.
    pub fn take(&mut self, length: usize) -> (result: Option<&'a [u8]>)
        ensures
            match result {
                Some(value) => taken(old(self)@, length as int) == Some((value@, final(self)@)),
                None => taken(old(self)@, length as int) is None && final(self)@ == old(self)@,
            },
    {
        let all = self.remaining;
        if length > all.len() {
            return None;
        }
        let value = vstd::slice::slice_subrange(all, 0, length);
        let rest = vstd::slice::slice_subrange(all, length, all.len());
        proof {
            assert(value@ =~= all@.take(length as int));
            assert(rest@ =~= all@.skip(length as int));
        }
        self.remaining = rest;
        Some(value)
    }

    pub fn take_u8(&mut self) -> (result: Option<u8>)
        ensures
            match result {
                Some(value) => old(self)@.len() >= 1 && value == old(self)@[0] && final(self)@
                    == old(self)@.skip(1),
                None => old(self)@.len() == 0 && final(self)@ == old(self)@,
            },
    {
        match self.take(1) {
            Some(value) => Some(value[0]),
            None => None,
        }
    }

    pub fn take_u16(&mut self) -> (result: Option<u16>)
        ensures
            match result {
                Some(value) => old(self)@.len() >= 2 && value == leading_u16(old(self)@)
                    && final(self)@ == old(self)@.skip(2),
                None => old(self)@.len() < 2 && final(self)@ == old(self)@,
            },
    {
        match self.take(2) {
            Some(value) => Some(value[0] as u16 * 256 + value[1] as u16),
            None => None,
        }
    }

    /// Takes a block with a one-byte length. A block that is cut short loses its length.
    pub fn take_u8_length_prefixed(&mut self) -> (result: Option<&'a [u8]>)
        ensures
            match result {
                Some(value) => u8_block(old(self)@) == Some((value@, final(self)@)),
                None => u8_block(old(self)@) is None && final(self)@ == if old(self)@.len() < 1 {
                    old(self)@
                } else {
                    old(self)@.skip(1)
                },
            },
    {
        match self.take_u8() {
            Some(length) => self.take(length as usize),
            None => None,
        }
    }

    /// Takes a block with a two-byte length. A block that is cut short loses its length.
    pub fn take_u16_length_prefixed(&mut self) -> (result: Option<&'a [u8]>)
        ensures
            match result {
                Some(value) => u16_block(old(self)@) == Some((value@, final(self)@)),
                None => u16_block(old(self)@) is None && final(self)@ == if old(self)@.len() < 2 {
                    old(self)@
                } else {
                    old(self)@.skip(2)
                },
            },
    {
        match self.take_u16() {
            Some(length) => self.take(length as usize),
            None => None,
        }
    }
}

/// A number below 65536 in two bytes, most significant first.
pub open spec fn be16(number: int) -> Seq<u8> {
    seq![(number / 256) as u8, (number % 256) as u8]
}

/// Bytes behind their length in one byte.
pub open spec fn behind_u8_length(bytes: Seq<u8>) -> Seq<u8> {
    seq![bytes.len() as u8] + bytes
}

/// Bytes behind their length in two bytes.
pub open spec fn behind_u16_length(bytes: Seq<u8>) -> Seq<u8> {
    be16(bytes.len() as int) + bytes
}

/// A block is read back as it was written, and what follows it is left.
pub proof fn law_blocks_round_trip(bytes: Seq<u8>, rest: Seq<u8>)
    ensures
        bytes.len() < 256 ==> u8_block(behind_u8_length(bytes) + rest) == Some((bytes, rest)),
        bytes.len() < 65536 ==> u16_block(behind_u16_length(bytes) + rest) == Some((bytes, rest)),
{
    if bytes.len() < 256 {
        let all = behind_u8_length(bytes) + rest;
        assert(all[0] == bytes.len());
        assert(all.skip(1).take(bytes.len() as int) =~= bytes);
        assert(all.skip(1).skip(bytes.len() as int) =~= rest);
    }
    if bytes.len() < 65536 {
        let all = behind_u16_length(bytes) + rest;
        assert(leading_u16(all) == bytes.len());
        assert(all.skip(2).take(bytes.len() as int) =~= bytes);
        assert(all.skip(2).skip(bytes.len() as int) =~= rest);
    }
}

/// A block that announces more bytes than there are is no block.
pub proof fn law_cut_blocks_are_refused(bytes: Seq<u8>, length: int)
    ensures
        bytes.len() < 256 && 0 <= length <= bytes.len() ==> u8_block(
            behind_u8_length(bytes).take(length),
        ) is None,
        bytes.len() < 65536 && 0 <= length <= bytes.len() + 1 ==> u16_block(
            behind_u16_length(bytes).take(length),
        ) is None,
{
    let short = behind_u8_length(bytes);
    let long = behind_u16_length(bytes);
    if 0 < length <= bytes.len() {
        assert(short.take(length)[0] == short[0]);
    }
    if 2 <= length <= bytes.len() + 1 {
        assert(long.take(length)[0] == long[0] && long.take(length)[1] == long[1]);
    }
}

} // verus!
