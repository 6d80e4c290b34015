//! Compact encoding of a 16-bit length in one to three bytes.
//!
//! The value is split into groups of seven bits, least significant group
//! first. Every byte but the last has its top bit set. Only the shortest
//! encoding of a value is accepted when decoding.

use vstd::prelude::*;

verus! {

/// Why a byte string is not the encoding of a value.
#[derive(Clone, Copy, Debug, PartialEq, Eq, Structural)]
pub enum DecodeError {
    /// The input ended before the value was complete.
    Truncated,
    /// The encoding runs past three bytes or past 16 bits.
    Overflow,
    /// The encoding is longer than the shortest one of its value.
    NonCanonical,
    /// A signer flag is neither 0 nor 1.
    InvalidFlag,
}

/// Why a list has no wire form.
#[derive(Clone, Copy, Debug, PartialEq, Eq, Structural)]
pub enum EncodeError {
    /// The list has more than `MAX_KEYS` items.
    TooLong,
}

/// The most items that a list can hold: what a 16-bit length can count.
pub const MAX_KEYS: usize = 0xffff;

/// The longest encoding of a length, in bytes.
pub const MAX_ENCODING_LENGTH: usize = 3;

/// The encoding of `value`.
pub open spec fn spec_encode_shortu16(value: u16) -> Seq<u8> {
    if value < 0x80 {
        seq![value as u8]
    } else if value < 0x4000 {
        seq![(value % 0x80 + 0x80) as u8, (value / 0x80) as u8]
    } else {
        seq![(value % 0x80 + 0x80) as u8, (value / 0x80 % 0x80 + 0x80) as u8, (value / 0x4000) as u8]
    }
}

/// The value that starts `bytes` and the number of bytes it takes, or the
/// reason why there is none.
pub open spec fn spec_decode_shortu16(bytes: Seq<u8>) -> Result<(u16, nat), DecodeError> {
    if bytes.len() < 1 {
        Err(DecodeError::Truncated)
    } else if bytes[0] < 0x80 {
        Ok((bytes[0] as u16, 1nat))
    } else if bytes.len() < 2 {
        Err(DecodeError::Truncated)
    } else if bytes[1] == 0 {
        Err(DecodeError::NonCanonical)
    } else if bytes[1] < 0x80 {
        Ok(((bytes[0] - 0x80 + bytes[1] * 0x80) as u16, 2nat))
    } else if bytes.len() < 3 {
        Err(DecodeError::Truncated)
    } else if bytes[2] == 0 {
        Err(DecodeError::NonCanonical)
    } else if bytes[2] >= 0x80 {
        if bytes.len() < 4 {
            Err(DecodeError::Truncated)
        } else {
            Err(DecodeError::Overflow)
        }
    } else if bytes[2] > 3 {
        Err(DecodeError::Overflow)
    } else {
        Ok(((bytes[0] - 0x80 + (bytes[1] - 0x80) * 0x80 + bytes[2] * 0x4000) as u16, 3nat))
    }
}

/// A 16-bit length in its compact encoding.
#[derive(Clone, Copy, Debug, PartialEq, Eq, Structural)]
pub struct ShortU16(pub u16);

impl ShortU16 {
    /// Appends the encoding of the value to `writer`.
    pub fn serialize(&self, writer: &mut Vec<u8>)
        ensures
            final(writer)@ == old(writer)@ + spec_encode_shortu16(self.0),
    {
        let ghost before = writer@;
        let mut value: u16 = self.0;
        let ghost start = self.0;
        if value > 0x7f {
            let low: u8 = ((value & 0x7f) as u8) | 0x80;
            assert(low == (start % 0x80 + 0x80) as u8) by (bit_vector)
                requires
                    low == ((value & 0x7f) as u8) | 0x80,
                    value == start,
            ;
            writer.push(low);
            value = value >> 7;
            assert(value == start / 0x80) by (bit_vector)
                requires
                    value == start >> 7,
            ;
            if value > 0x7f {
                let mid: u8 = ((value & 0x7f) as u8) | 0x80;
                assert(mid == (start / 0x80 % 0x80 + 0x80) as u8) by (bit_vector)
                    requires
                        mid == ((value & 0x7f) as u8) | 0x80,
                        value == start / 0x80,
                ;
                writer.push(mid);
                value = value >> 7;
                assert(value == start / 0x4000) by (bit_vector)
                    requires
                        value == (start / 0x80) >> 7,
                ;
            }
        }
        assert(value <= 0x7f) by (bit_vector)
            requires
                value == start || (start > 0x7f && value == start / 0x80 && value <= 0x7f) || value
                    == start / 0x4000,
                value == start ==> start <= 0x7f,
        ;
        writer.push(value as u8);
        assert(writer@ =~= before + spec_encode_shortu16(self.0));
    }

    /// Reads a value from the start of `reader`. Returns it with the number
    /// of bytes it took.
    pub fn deserialize_reader(reader: &[u8]) -> (r: Result<(ShortU16, usize), DecodeError>)
        ensures
            match spec_decode_shortu16(reader@) {
                Ok((value, taken)) => r == Ok::<_, DecodeError>((ShortU16(value), taken as usize)),
                Err(e) => r == Err::<(ShortU16, usize), _>(e),
            },
    {
        if reader.len() < 1 {
            return Err(DecodeError::Truncated);
        }
        let first: u8 = reader[0];
        if first < 0x80 {
            return Ok((ShortU16(first as u16), 1));
        }
        if reader.len() < 2 {
            return Err(DecodeError::Truncated);
        }
        let second: u8 = reader[1];
        if second == 0 {
            return Err(DecodeError::NonCanonical);
        }
        let low: u16 = (first - 0x80) as u16;
        if second < 0x80 {
            return Ok((ShortU16(low + (second as u16) * 0x80), 2));
        }
        if reader.len() < 3 {
            return Err(DecodeError::Truncated);
        }
        let third: u8 = reader[2];
        if third == 0 {
            return Err(DecodeError::NonCanonical);
        }
        if third >= 0x80 {
            if reader.len() < 4 {
                return Err(DecodeError::Truncated);
            }
            return Err(DecodeError::Overflow);
        }
        if third > 3 {
            return Err(DecodeError::Overflow);
        }
        let mid: u16 = ((second - 0x80) as u16) * 0x80;
        Ok((ShortU16(low + mid + (third as u16) * 0x4000), 3))
    }
}

/// What `solana_short_vec::decode_shortu16_len` returns: the length that
/// starts `bytes` and the number of bytes it takes, where `bytes` starts
/// with the shortest encoding of a 16-bit value, and an error on every other
/// input.
pub assume_specification[ solana_short_vec::decode_shortu16_len ](bytes: &[u8]) -> (r: Result<
    (usize, usize),
    (),
>)
    ensures
        match spec_decode_shortu16(bytes@) {
            Ok((value, taken)) => r == Ok::<_, ()>((value as usize, taken as usize)),
            Err(_) => r is Err,
        },
;

/// Every encoding has one to three bytes.
pub proof fn lemma_encode_len(value: u16)
    ensures
        1 <= spec_encode_shortu16(value).len() <= MAX_ENCODING_LENGTH,
        spec_encode_shortu16(value).len() == 1 <==> value < 0x80,
        spec_encode_shortu16(value).len() == 2 <==> 0x80 <= value < 0x4000,
{
}

/// Decoding what was encoded gives the value back, whatever follows it.
pub proof fn lemma_decode_encode(value: u16, rest: Seq<u8>)
    ensures
        spec_decode_shortu16(spec_encode_shortu16(value) + rest) == Ok::<_, DecodeError>(
            (value, spec_encode_shortu16(value).len()),
        ),
{
    let enc = spec_encode_shortu16(value);
    let bytes = enc + rest;
    assert(forall|i: int| 0 <= i < enc.len() ==> bytes[i] == enc[i]);
    if value < 0x80 {
        assert(bytes[0] == enc[0]);
    } else if value < 0x4000 {
        assert(bytes[0] == enc[0]);
        assert(bytes[1] == enc[1]);
    } else {
        assert(bytes[0] == enc[0]);
        assert(bytes[1] == enc[1]);
        assert(bytes[2] == enc[2]);
    }
}

/// A value decodes from its shortest encoding only: the bytes that were
/// taken are the encoding of the value.
pub proof fn lemma_decode_canonical(bytes: Seq<u8>)
    requires
        spec_decode_shortu16(bytes) is Ok,
    ensures
        ({
            let (value, taken) = spec_decode_shortu16(bytes)->Ok_0;
            &&& 1 <= taken <= MAX_ENCODING_LENGTH
            &&& taken <= bytes.len()
            &&& bytes.subrange(0, taken as int) == spec_encode_shortu16(value)
        }),
{
    let (value, taken) = spec_decode_shortu16(bytes)->Ok_0;
    assert(bytes.subrange(0, taken as int) =~= spec_encode_shortu16(value));
}

/// A list whose wire form starts with its length in compact encoding.
#[derive(Clone, Debug, Eq, PartialEq)]
pub struct ShortVec<T>(pub Vec<T>);

impl<T> View for ShortVec<T> {
    type V = Seq<T>;

    open spec fn view(&self) -> Seq<T> {
        self.0@
    }
}

/// The wire form of a list of at most `MAX_KEYS` bytes.
pub open spec fn spec_serialize_bytes(items: Seq<u8>) -> Seq<u8> {
    spec_encode_shortu16(items.len() as u16) + items
}

/// The list of bytes that starts `bytes` and the number of bytes it takes,
/// or the reason why there is none.
pub open spec fn spec_deserialize_bytes(bytes: Seq<u8>) -> Result<(Seq<u8>, nat), DecodeError> {
    match spec_decode_shortu16(bytes) {
        Err(e) => Err(e),
        Ok((count, taken)) => {
            if bytes.len() < taken + count {
                Err(DecodeError::Truncated)
            } else {
                Ok((bytes.subrange(taken as int, taken + count), (taken + count) as nat))
            }
        },
    }
}

impl ShortVec<u8> {
    /// Appends the wire form of the list to `writer`, or leaves `writer` as
    /// it is where the list has more than `MAX_KEYS` items.
    pub fn serialize(&self, writer: &mut Vec<u8>) -> (r: Result<(), EncodeError>)
        ensures
            self@.len() <= MAX_KEYS ==> r is Ok && final(writer)@ == old(writer)@
                + spec_serialize_bytes(self@),
            self@.len() > MAX_KEYS ==> r == Err::<(), _>(EncodeError::TooLong) && final(writer)@
                == old(writer)@,
    {
        let count: usize = self.0.len();
        if count > MAX_KEYS {
            return Err(EncodeError::TooLong);
        }
        let ghost before = writer@;
        ShortU16(count as u16).serialize(writer);
        let ghost prefixed = writer@;
        let mut i: usize = 0;
        while i < count
            invariant
                i <= count,
                count == self.0.len(),
                writer@ == prefixed + self@.take(i as int),
            decreases count - i,
        {
            writer.push(self.0[i]);
            assert(self@.take(i + 1) =~= self@.take(i as int).push(self@[i as int]));
            assert(writer@ =~= prefixed + self@.take(i + 1));
            i += 1;
        }
        assert(self@.take(count as int) =~= self@);
        assert(writer@ =~= before + spec_serialize_bytes(self@));
        Ok(())
    }

    /// Reads a list from the start of `reader`. Returns it with the number
    /// of bytes it took. No item is read before the length that the input
    /// declares is known to fit in the input.
    pub fn deserialize_reader(reader: &[u8]) -> (r: Result<(ShortVec<u8>, usize), DecodeError>)
        ensures
            match spec_deserialize_bytes(reader@) {
                Ok((items, taken)) => r matches Ok((list, n)) && list@ == items && n == taken,
                Err(e) => r == Err::<(ShortVec<u8>, usize), _>(e),
            },
    {
        let (count, taken) = match ShortU16::deserialize_reader(reader) {
            Ok((ShortU16(value), taken)) => (value as usize, taken),
            Err(e) => {
                return Err(e);
            },
        };
        if reader.len() - taken < count {
            return Err(DecodeError::Truncated);
        }
        let mut items: Vec<u8> = Vec::new();
        let mut i: usize = 0;
        while i < count
            invariant
                i <= count,
                taken + count <= reader.len(),
                items@ == reader@.subrange(taken as int, taken + i),
            decreases count - i,
        {
            items.push(reader[taken + i]);
            assert(items@ =~= reader@.subrange(taken as int, taken + i + 1));
            i += 1;
        }
        Ok((ShortVec(items), taken + count))
    }
}

/// Reading a list of bytes that was written gives it back, whatever follows.
pub proof fn lemma_deserialize_serialize_bytes(items: Seq<u8>, rest: Seq<u8>)
    requires
        items.len() <= MAX_KEYS,
    ensures
        spec_deserialize_bytes(spec_serialize_bytes(items) + rest) == Ok::<_, DecodeError>(
            (items, spec_serialize_bytes(items).len()),
        ),
{
    let count = items.len() as u16;
    let prefix = spec_encode_shortu16(count);
    let bytes = spec_serialize_bytes(items) + rest;
    assert(bytes =~= prefix + (items + rest));
    lemma_decode_encode(count, items + rest);
    assert(bytes.subrange(prefix.len() as int, prefix.len() + count) =~= items);
}

} // verus!
