//! The list of authorized keys that starts a record and an update.
//!
//! On the wire the list is its length in compact encoding, then for each
//! entry the 32 bytes of the key and one byte for the signer flag, 0 or 1.

use crate::pubkey::Pubkey;
use crate::short_vec::{
    spec_decode_shortu16, spec_encode_shortu16, DecodeError, EncodeError, ShortU16, MAX_KEYS,
};
use vstd::prelude::*;

verus! {

/// The number of bytes that one entry takes on the wire.
pub const ENTRY_SIZE: usize = 33;

/// An entry as the contracts see it: the bytes of the key and the flag.
pub type KeyEntry = (Seq<u8>, bool);

/// The entries of `keys` as the contracts see them.
pub open spec fn spec_entries(keys: Seq<(Pubkey, bool)>) -> Seq<KeyEntry> {
    keys.map_values(|entry: (Pubkey, bool)| (entry.0@, entry.1))
}

/// The byte that stands for a signer flag.
pub open spec fn spec_flag_byte(flag: bool) -> u8 {
    if flag {
        1u8
    } else {
        0u8
    }
}

/// The wire form of one entry.
pub open spec fn spec_entry_bytes(entry: KeyEntry) -> Seq<u8> {
    entry.0.push(spec_flag_byte(entry.1))
}

/// The wire forms of the entries, one after the other.
pub open spec fn spec_entries_bytes(entries: Seq<KeyEntry>) -> Seq<u8>
    decreases entries.len(),
{
    if entries.len() == 0 {
        Seq::empty()
    } else {
        spec_entries_bytes(entries.drop_last()) + spec_entry_bytes(entries.last())
    }
}

/// The wire form of a list of at most `MAX_KEYS` entries.
pub open spec fn spec_serialize_keys(entries: Seq<KeyEntry>) -> Seq<u8> {
    spec_encode_shortu16(entries.len() as u16) + spec_entries_bytes(entries)
}

/// Whether every key of the list has 32 bytes.
pub open spec fn spec_well_formed(entries: Seq<KeyEntry>) -> bool {
    forall|i: int| 0 <= i < entries.len() ==> (#[trigger] entries[i]).0.len() == 32
}

/// The flag byte of entry `i` of a list whose entries start at `start`.
pub open spec fn spec_flag_at(bytes: Seq<u8>, start: int, i: int) -> u8 {
    bytes[start + i * 33 + 32]
}

/// The entry that `bytes` holds at `offset`.
pub open spec fn spec_entry_at(bytes: Seq<u8>, offset: int) -> KeyEntry {
    (bytes.subrange(offset, offset + 32), bytes[offset + 32] == 1)
}

/// The list that starts `bytes` and the number of bytes it takes, or the
/// reason why there is none. The bytes behind the list are not looked at.
pub open spec fn spec_deserialize_keys(bytes: Seq<u8>) -> Result<(Seq<KeyEntry>, nat), DecodeError> {
    match spec_decode_shortu16(bytes) {
        Err(e) => Err(e),
        Ok((count, taken)) => {
            if bytes.len() < taken + count * 33 {
                Err(DecodeError::Truncated)
            } else if exists|i: int| 0 <= i < count && #[trigger] spec_flag_at(bytes, taken as int, i) > 1 {
                Err(DecodeError::InvalidFlag)
            } else {
                Ok(
                    (
                        Seq::new(count as nat, |i: int| spec_entry_at(bytes, taken + i * 33)),
                        (taken + count * 33) as nat,
                    ),
                )
            }
        },
    }
}

/// A payload that a record can hold behind its list of keys.
pub trait ConfigState: Default {
    /// The most bytes that the wire form of the payload can take.
    fn max_space() -> u64;
}

/// A list of keys, each with a flag that says whether the key must sign an
/// update of the data that the list guards.
#[derive(Clone, Debug, Eq, PartialEq)]
pub struct ConfigKeys {
    /// The entries, in the order of the wire.
    pub keys: Vec<(Pubkey, bool)>,
}

impl View for ConfigKeys {
    type V = Seq<KeyEntry>;

    open spec fn view(&self) -> Seq<KeyEntry> {
        spec_entries(self.keys@)
    }
}

/// The wire form of the first `n + 1` entries is that of the first `n`
/// followed by that of the next entry.
pub proof fn lemma_entries_bytes_take(entries: Seq<KeyEntry>, n: int)
    requires
        0 <= n < entries.len(),
    ensures
        spec_entries_bytes(entries.take(n + 1)) == spec_entries_bytes(entries.take(n))
            + spec_entry_bytes(entries[n]),
{
    assert(entries.take(n + 1).drop_last() =~= entries.take(n));
    assert(entries.take(n + 1).last() == entries[n]);
}

/// The wire form of well-formed entries has 33 bytes for each.
pub proof fn lemma_entries_bytes_len(entries: Seq<KeyEntry>)
    requires
        spec_well_formed(entries),
    ensures
        spec_entries_bytes(entries).len() == entries.len() * 33,
    decreases entries.len(),
{
    if entries.len() > 0 {
        lemma_entries_bytes_len(entries.drop_last());
    }
}

/// Appends the 32 bytes of `key` to `writer`.
fn write_pubkey(key: &Pubkey, writer: &mut Vec<u8>)
    ensures
        final(writer)@ == old(writer)@ + key@,
{
    let ghost before = writer@;
    let mut i: usize = 0;
    while i < 32
        invariant
            i <= 32,
            key@.len() == 32,
            writer@ == before + key@.take(i as int),
        decreases 32 - i,
    {
        writer.push(key.0[i]);
        assert(key@.take(i + 1) =~= key@.take(i as int).push(key@[i as int]));
        assert(writer@ =~= before + key@.take(i + 1));
        i += 1;
    }
    assert(key@.take(32) =~= key@);
}

impl ConfigKeys {
    /// Appends the wire form of the list to `writer`, or leaves `writer` as
    /// it is where the list has more than `MAX_KEYS` entries.
    pub fn serialize(&self, writer: &mut Vec<u8>) -> (r: Result<(), EncodeError>)
        ensures
            self@.len() <= MAX_KEYS ==> r is Ok && final(writer)@ == old(writer)@
                + spec_serialize_keys(self@),
            self@.len() > MAX_KEYS ==> r == Err::<(), _>(EncodeError::TooLong) && final(writer)@
                == old(writer)@,
    {
        let count: usize = self.keys.len();
        if count > MAX_KEYS {
            return Err(EncodeError::TooLong);
        }
        let ghost before = writer@;
        let ghost entries = self@;
        ShortU16(count as u16).serialize(writer);
        let ghost prefixed = writer@;
        let mut i: usize = 0;
        while i < count
            invariant
                i <= count,
                count == self.keys.len(),
                entries == self@,
                writer@ == prefixed + spec_entries_bytes(entries.take(i as int)),
            decreases count - i,
        {
            let ghost so_far = writer@;
            let entry: &(Pubkey, bool) = &self.keys[i];
            write_pubkey(&entry.0, writer);
            writer.push(if entry.1 { 1u8 } else { 0u8 });
            proof {
                lemma_entries_bytes_take(entries, i as int);
                assert(writer@ =~= so_far + spec_entry_bytes(entries[i as int]));
                assert(writer@ =~= prefixed + spec_entries_bytes(entries.take(i + 1)));
            }
            i += 1;
        }
        assert(entries.take(count as int) =~= entries);
        assert(writer@ =~= before + spec_serialize_keys(entries));
        Ok(())
    }
}

/// The key that `bytes` holds at `offset`.
fn read_pubkey(bytes: &[u8], offset: usize) -> (key: Pubkey)
    requires
        offset + 32 <= bytes@.len(),
    ensures
        key@ == bytes@.subrange(offset as int, offset + 32),
{
    let mut array: [u8; 32] = [0u8; 32];
    let mut i: usize = 0;
    while i < 32
        invariant
            i <= 32,
            offset + 32 <= bytes.len(),
            forall|j: int| 0 <= j < i ==> array@[j] == bytes@[offset + j],
        decreases 32 - i,
    {
        array[i] = bytes[offset + i];
        i += 1;
    }
    assert(array@ =~= bytes@.subrange(offset as int, offset + 32));
    Pubkey(array)
}

impl ConfigKeys {
    /// Reads a list from the start of `reader`. Returns it with the number
    /// of bytes it took. No entry is read before the length that the input
    /// declares is known to fit in the input.
    pub fn deserialize_reader(reader: &[u8]) -> (r: Result<(ConfigKeys, usize), DecodeError>)
        ensures
            match spec_deserialize_keys(reader@) {
                Ok((entries, taken)) => r matches Ok((list, n)) && list@ == entries && n == taken,
                Err(e) => r == Err::<(ConfigKeys, usize), _>(e),
            },
    {
        let (count, taken) = match ShortU16::deserialize_reader(reader) {
            Ok((ShortU16(value), taken)) => (value as usize, taken),
            Err(e) => {
                return Err(e);
            },
        };
        if (reader.len() - taken) / ENTRY_SIZE < count {
            return Err(DecodeError::Truncated);
        }
        let ghost bytes = reader@;
        let mut keys: Vec<(Pubkey, bool)> = Vec::new();
        let mut i: usize = 0;
        while i < count
            invariant
                i <= count,
                count <= 0xffff,
                1 <= taken <= 3,
                bytes == reader@,
                spec_decode_shortu16(bytes) == Ok::<_, DecodeError>((count as u16, taken as nat)),
                taken + count * 33 <= bytes.len(),
                keys@.len() == i,
                forall|j: int| 0 <= j < i ==> #[trigger] spec_flag_at(bytes, taken as int, j) <= 1,
                forall|j: int|
                    0 <= j < i ==> (#[trigger] keys@[j]).0@ == bytes.subrange(
                        taken + j * 33,
                        taken + j * 33 + 32,
                    ) && keys@[j].1 == (bytes[taken + j * 33 + 32] == 1),
            decreases count - i,
        {
            let offset: usize = taken + i * ENTRY_SIZE;
            let flag: u8 = reader[offset + 32];
            if flag > 1 {
                assert(spec_flag_at(bytes, taken as int, i as int) > 1);
                return Err(DecodeError::InvalidFlag);
            }
            let key = read_pubkey(reader, offset);
            keys.push((key, flag == 1));
            i += 1;
        }
        let list = ConfigKeys { keys };
        assert(list@ =~= spec_deserialize_keys(bytes)->Ok_0.0);
        Ok((list, taken + count * ENTRY_SIZE))
    }
}

/// Where each byte of the wire form of well-formed entries comes from.
pub proof fn lemma_entries_bytes_index(entries: Seq<KeyEntry>, i: int, j: int)
    requires
        spec_well_formed(entries),
        0 <= i < entries.len(),
        0 <= j < 33,
    ensures
        i * 33 + j < spec_entries_bytes(entries).len(),
        spec_entries_bytes(entries)[i * 33 + j] == spec_entry_bytes(entries[i])[j],
    decreases entries.len(),
{
    lemma_entries_bytes_len(entries);
    lemma_entries_bytes_len(entries.drop_last());
    if i < entries.len() - 1 {
        lemma_entries_bytes_index(entries.drop_last(), i, j);
    }
}

/// Reading what was written gives the list back, whatever follows it.
pub proof fn lemma_deserialize_serialize(entries: Seq<KeyEntry>, rest: Seq<u8>)
    requires
        spec_well_formed(entries),
        entries.len() <= MAX_KEYS,
    ensures
        spec_deserialize_keys(spec_serialize_keys(entries) + rest) == Ok::<_, DecodeError>(
            (entries, spec_serialize_keys(entries).len()),
        ),
{
    let count = entries.len() as u16;
    let prefix = spec_encode_shortu16(count);
    let body = spec_entries_bytes(entries);
    let bytes = spec_serialize_keys(entries) + rest;
    let taken = prefix.len() as int;
    assert(bytes =~= prefix + (body + rest));
    crate::short_vec::lemma_decode_encode(count, body + rest);
    lemma_entries_bytes_len(entries);
    assert forall|i: int, j: int| 0 <= i < count && 0 <= j < 33 implies bytes[taken + i * 33 + j]
        == spec_entry_bytes(entries[i])[j] by {
        lemma_entries_bytes_index(entries, i, j);
        assert(bytes[taken + i * 33 + j] == body[i * 33 + j]);
    }
    assert forall|i: int| 0 <= i < count implies #[trigger] spec_flag_at(bytes, taken, i) <= 1 by {
        assert(bytes[taken + i * 33 + 32] == spec_entry_bytes(entries[i])[32]);
    }
    let decoded = Seq::new(count as nat, |i: int| spec_entry_at(bytes, taken + i * 33));
    assert forall|i: int| 0 <= i < count implies decoded[i] == entries[i] by {
        assert(bytes[taken + i * 33 + 32] == spec_entry_bytes(entries[i])[32]);
        assert forall|j: int| 0 <= j < 32 implies bytes.subrange(
            taken + i * 33,
            taken + i * 33 + 32,
        )[j] == entries[i].0[j] by {
            assert(bytes[taken + i * 33 + j] == spec_entry_bytes(entries[i])[j]);
        }
        assert(decoded[i].0 =~= entries[i].0);
    }
    assert(decoded =~= entries);
}

/// The number of bytes that the wire form of a list of `count` entries has.
pub open spec fn spec_serialized_size(count: nat) -> nat {
    spec_encode_shortu16(count as u16).len() + count * 33
}

impl ConfigKeys {
    /// The number of bytes that the wire form of the list `keys` has.
    pub fn serialized_size(keys: Vec<(Pubkey, bool)>) -> (size: u64)
        requires
            keys@.len() <= MAX_KEYS,
        ensures
            size == spec_serialized_size(keys@.len()),
            size == spec_serialize_keys(spec_entries(keys@)).len(),
    {
        let count: usize = keys.len();
        let prefix: u64 = if count < 0x80 {
            1
        } else if count < 0x4000 {
            2
        } else {
            3
        };
        proof {
            crate::short_vec::lemma_encode_len(count as u16);
            lemma_entries_bytes_len(spec_entries(keys@));
        }
        prefix + (count as u64) * 33
    }
}

/// The bytes of a record that follow its list of keys.
pub fn get_config_data(bytes: &[u8]) -> (r: Result<&[u8], DecodeError>)
    ensures
        match spec_deserialize_keys(bytes@) {
            Ok((_, taken)) => r matches Ok(data) && data@ == bytes@.skip(taken as int),
            Err(e) => r == Err::<&[u8], _>(e),
        },
{
    match ConfigKeys::deserialize_reader(bytes) {
        Ok((_, taken)) => {
            let data = vstd::slice::slice_subrange(bytes, taken, bytes.len());
            assert(data@ =~= bytes@.skip(taken as int));
            Ok(data)
        },
        Err(e) => Err(e),
    }
}

/// A list is read from the bytes that it takes alone: what follows them
/// changes nothing.
pub proof fn lemma_deserialize_prefix(bytes: Seq<u8>, rest: Seq<u8>)
    requires
        spec_deserialize_keys(bytes) is Ok,
    ensures
        spec_deserialize_keys(bytes + rest) == spec_deserialize_keys(bytes),
{
    let longer = bytes + rest;
    let (count, taken) = spec_decode_shortu16(bytes)->Ok_0;
    assert(forall|i: int| 0 <= i < bytes.len() ==> longer[i] == bytes[i]);
    assert(spec_decode_shortu16(longer) == spec_decode_shortu16(bytes));
    assert forall|i: int| 0 <= i < count implies #[trigger] spec_flag_at(longer, taken as int, i)
        == spec_flag_at(bytes, taken as int, i) by {
        assert(longer[taken + i * 33 + 32] == bytes[taken + i * 33 + 32]);
    }
    let short_list = Seq::new(count as nat, |i: int| spec_entry_at(bytes, taken + i * 33));
    let long_list = Seq::new(count as nat, |i: int| spec_entry_at(longer, taken + i * 33));
    assert forall|i: int| 0 <= i < count implies long_list[i] == short_list[i] by {
        assert(longer[taken + i * 33 + 32] == bytes[taken + i * 33 + 32]);
        assert(longer.subrange(taken + i * 33, taken + i * 33 + 32) =~= bytes.subrange(
            taken + i * 33,
            taken + i * 33 + 32,
        ));
    }
    assert(long_list =~= short_list);
}

/// The bytes that a list takes are its wire form: no other bytes give the
/// same list.
pub proof fn lemma_deserialize_canonical(bytes: Seq<u8>)
    requires
        spec_deserialize_keys(bytes) is Ok,
    ensures
        ({
            let (entries, taken) = spec_deserialize_keys(bytes)->Ok_0;
            &&& spec_well_formed(entries)
            &&& entries.len() <= MAX_KEYS
            &&& taken <= bytes.len()
            &&& forall|i: int|
                0 <= i < entries.len() ==> bytes.subrange(
                    spec_decode_shortu16(bytes)->Ok_0.1 + i * 33,
                    spec_decode_shortu16(bytes)->Ok_0.1 + i * 33 + 33,
                ) == spec_entry_bytes(#[trigger] entries[i])
        }),
{
    let (entries, taken) = spec_deserialize_keys(bytes)->Ok_0;
    let start = spec_decode_shortu16(bytes)->Ok_0.1 as int;
    assert forall|i: int| 0 <= i < entries.len() implies bytes.subrange(
        start + i * 33,
        start + i * 33 + 33,
    ) == spec_entry_bytes(#[trigger] entries[i]) by {
        assert(spec_flag_at(bytes, start, i) <= 1);
        assert(bytes.subrange(start + i * 33, start + i * 33 + 33) =~= spec_entry_bytes(
            entries[i],
        ));
    }
}

} // verus!
