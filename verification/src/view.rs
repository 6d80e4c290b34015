//! A look at the list of a record without copying it.
//!
//! The view borrows the record's bytes. It is made once the list is known
//! to be well formed, and answers questions about the entries from the bytes
//! where they lie. It is for reading only: an update always goes through the
//! processor.

use crate::pubkey::Pubkey;
use crate::short_vec::{spec_decode_shortu16, DecodeError};
use crate::state::{
    spec_deserialize_keys, spec_entry_at, spec_flag_at, KeyEntry, ENTRY_SIZE,
};
use vstd::prelude::*;

verus! {

/// The entries of a record's list, read in place.
#[derive(Clone, Copy, Debug)]
pub struct ConfigKeysView<'a> {
    data: &'a [u8],
    start: usize,
    count: usize,
}

impl<'a> ConfigKeysView<'a> {
    /// Whether the view lies over a well-formed list.
    #[verifier::type_invariant]
    pub closed spec fn well_formed(&self) -> bool {
        &&& spec_deserialize_keys(self.data@) is Ok
        &&& spec_decode_shortu16(self.data@) == Ok::<_, DecodeError>(
            (self.count as u16, self.start as nat),
        )
        &&& self.count <= 0xffff
    }

    /// The entries that the view shows.
    pub closed spec fn view(&self) -> Seq<KeyEntry> {
        Seq::new(self.count as nat, |i: int| spec_entry_at(self.data@, self.start + i * 33))
    }

    /// A view of the list that starts `data`, if there is one. Only the
    /// length and the flag bytes are read, and nothing is copied.
    pub fn new(data: &'a [u8]) -> (r: Result<ConfigKeysView<'a>, DecodeError>)
        ensures
            match spec_deserialize_keys(data@) {
                Ok((entries, _)) => r matches Ok(view) && view@ == entries,
                Err(e) => r == Err::<ConfigKeysView<'a>, _>(e),
            },
    {
        let (count, start) = match crate::short_vec::ShortU16::deserialize_reader(data) {
            Ok((value, taken)) => (value.0 as usize, taken),
            Err(e) => {
                return Err(e);
            },
        };
        if (data.len() - start) / ENTRY_SIZE < count {
            return Err(DecodeError::Truncated);
        }
        let mut i: usize = 0;
        while i < count
            invariant
                i <= count,
                count <= 0xffff,
                1 <= start <= 3,
                spec_decode_shortu16(data@) == Ok::<_, DecodeError>((count as u16, start as nat)),
                start + count * 33 <= data.len(),
                forall|j: int| 0 <= j < i ==> #[trigger] spec_flag_at(data@, start as int, j) <= 1,
            decreases count - i,
        {
            if data[start + i * ENTRY_SIZE + 32] > 1 {
                assert(spec_flag_at(data@, start as int, i as int) > 1);
                return Err(DecodeError::InvalidFlag);
            }
            i += 1;
        }
        Ok(ConfigKeysView { data, start, count })
    }

    /// The number of entries.
    pub fn len(&self) -> (n: usize)
        ensures
            n == self@.len(),
    {
        self.count
    }

    /// Whether the list is empty.
    pub fn is_empty(&self) -> (empty: bool)
        ensures
            empty == (self@.len() == 0),
    {
        self.count == 0
    }

    /// The bytes of the key of entry `index`, where they lie.
    pub fn key(&self, index: usize) -> (key: &'a [u8])
        requires
            index < self@.len(),
        ensures
            key@ == self@[index as int].0,
            key@.len() == 32,
    {
        proof {
            use_type_invariant(self);
        }
        let offset: usize = self.start + index * ENTRY_SIZE;
        vstd::slice::slice_subrange(self.data, offset, offset + 32)
    }

    /// Whether entry `index` is flagged as a signer.
    pub fn is_signer(&self, index: usize) -> (flag: bool)
        requires
            index < self@.len(),
        ensures
            flag == self@[index as int].1,
    {
        proof {
            use_type_invariant(self);
        }
        self.data[self.start + index * ENTRY_SIZE + 32] == 1
    }

    /// Entry `index`, if the list has one there: the bytes of its key,
    /// where they lie, and its flag.
    pub fn get(&self, index: usize) -> (entry: Option<(&'a [u8], bool)>)
        ensures
            index < self@.len() ==> (entry matches Some((key, flag)) && (key@, flag)
                == self@[index as int]),
            index >= self@.len() ==> entry is None,
    {
        if index < self.count {
            Some((self.key(index), self.is_signer(index)))
        } else {
            None
        }
    }

    /// Whether the list names `key` as a signer.
    pub fn has_signer(&self, key: &Pubkey) -> (found: bool)
        ensures
            found == self@.contains((key@, true)),
    {
        proof {
            use_type_invariant(self);
        }
        let mut index: usize = 0;
        while index < self.count
            invariant
                index <= self.count,
                self.count == self@.len(),
                forall|j: int| 0 <= j < index ==> self@[j] != (key@, true),
            decreases self.count - index,
        {
            if self.is_signer(index) && same_bytes(self.key(index), key) {
                assert(self@[index as int] == (key@, true));
                return true;
            }
            index += 1;
        }
        false
    }
}

/// Whether `bytes` are the bytes of `key`.
fn same_bytes(bytes: &[u8], key: &Pubkey) -> (same: bool)
    requires
        bytes@.len() == 32,
    ensures
        same == (bytes@ == key@),
{
    let mut i: usize = 0;
    while i < 32
        invariant
            i <= 32,
            bytes@.len() == 32,
            forall|j: int| 0 <= j < i ==> bytes@[j] == key@[j],
        decreases 32 - i,
    {
        if bytes[i] != key.0[i] {
            return false;
        }
        i += 1;
    }
    assert(bytes@ =~= key@);
    true
}

} // verus!
