//! The processor: decides whether an update may replace a record's
//! contents, and writes it where it may.

use crate::error::ProcessError;
use crate::pubkey::Pubkey;
use crate::short_vec::{spec_decode_shortu16, DecodeError};
use crate::state::{spec_deserialize_keys, ConfigKeys, KeyEntry, ENTRY_SIZE};
use vstd::prelude::*;

verus! {

/// The most bytes that an update can have.
pub const MAX_INPUT_LEN: usize = 1232;

/// The most entries that the list of an update can have: what is left of
/// `MAX_INPUT_LEN` after the longest length prefix, in whole entries.
pub const MAX_VECTOR_LEN: usize = 37;

/// `MAX_VECTOR_LEN` is what it is said to be, and its encoding is one byte.
pub proof fn lemma_max_vector_len()
    ensures
        MAX_VECTOR_LEN == (MAX_INPUT_LEN - crate::short_vec::MAX_ENCODING_LENGTH) / (ENTRY_SIZE as int),
        MAX_VECTOR_LEN < 0x80,
{
}

/// An account that comes with an update. The first one is the record.
#[derive(Clone, Debug, Eq, PartialEq)]
pub struct AccountInfo {
    /// The key of the account.
    pub key: Pubkey,
    /// Whether the account has signed the update.
    pub is_signer: bool,
    /// The program that controls the account.
    pub owner: Pubkey,
    /// The bytes of the account. Their number never changes.
    pub data: Vec<u8>,
}

/// The test that an entry is flagged as a signer.
pub open spec fn spec_flagged() -> spec_fn(KeyEntry) -> bool {
    |entry: KeyEntry| entry.1
}

/// The keys of the entries that are flagged as signers, in their order.
pub open spec fn spec_signers(entries: Seq<KeyEntry>) -> Seq<Seq<u8>> {
    entries.filter(spec_flagged()).map_values(|entry: KeyEntry| entry.0)
}

/// The list that an update carries, where the update starts with a
/// well-formed list of at most `MAX_VECTOR_LEN` entries.
pub open spec fn spec_request_keys(input: Seq<u8>) -> Result<Seq<KeyEntry>, ProcessError> {
    match spec_deserialize_keys(input) {
        Ok((entries, _)) => if entries.len() <= MAX_VECTOR_LEN {
            Ok(entries)
        } else {
            Err(ProcessError::InvalidRequestData)
        },
        Err(_) => Err(ProcessError::InvalidRequestData),
    }
}

/// The list of an update is read from at most `MAX_INPUT_LEN` bytes, and
/// its length from the first byte alone.
pub proof fn lemma_request_keys_bounded(input: Seq<u8>)
    requires
        spec_request_keys(input) is Ok,
    ensures
        spec_deserialize_keys(input) is Ok,
        spec_deserialize_keys(input)->Ok_0.1 <= MAX_INPUT_LEN,
        spec_deserialize_keys(input)->Ok_0.1 == 1 + 33 * spec_request_keys(input)->Ok_0.len(),
        input.len() > 0,
        input[0] == spec_request_keys(input)->Ok_0.len(),
{
}

/// The list that a record holds, where the record starts with a well-formed
/// list.
pub open spec fn spec_stored_keys(data: Seq<u8>) -> Result<Seq<KeyEntry>, ProcessError> {
    match spec_deserialize_keys(data) {
        Ok((entries, _)) => Ok(entries),
        Err(_) => Err(ProcessError::InvalidStoredData),
    }
}

/// Whether the accounts vouch for `signer`, the signer entry number
/// `position` of an update, counted from 1. The record vouches for its own
/// key by its signature. Any other key needs the account at `position` to be
/// that key and to have signed, and must be among the record's signers if the
/// record has any.
pub open spec fn spec_signer_authorized(
    accounts: Seq<AccountInfo>,
    current_signers: Seq<Seq<u8>>,
    position: int,
    signer: Seq<u8>,
) -> bool {
    if signer == accounts[0].key@ {
        accounts[0].is_signer
    } else {
        &&& position < accounts.len()
        &&& accounts[position].is_signer
        &&& accounts[position].key@ == signer
        &&& (current_signers.len() == 0 || current_signers.contains(signer))
    }
}

/// Whether the accounts vouch for every signer of the update.
pub open spec fn spec_signers_authorized(
    accounts: Seq<AccountInfo>,
    current_signers: Seq<Seq<u8>>,
    new_signers: Seq<Seq<u8>>,
) -> bool {
    forall|k: int|
        0 <= k < new_signers.len() ==> spec_signer_authorized(
            accounts,
            current_signers,
            k + 1,
            #[trigger] new_signers[k],
        )
}

/// What the processor answers to an update `input` that comes with
/// `accounts`, where `program_id` is the processor's own key.
pub open spec fn spec_process(program_id: Pubkey, accounts: Seq<AccountInfo>, input: Seq<u8>)
    -> Result<(), ProcessError> {
    match spec_request_keys(input) {
        Err(e) => Err(e),
        Ok(new_keys) => {
            if accounts.len() == 0 {
                Err(ProcessError::MissingAccounts)
            } else if accounts[0].owner@ != program_id@ {
                Err(ProcessError::InvalidOwner)
            } else {
                match spec_stored_keys(accounts[0].data@) {
                    Err(e) => Err(e),
                    Ok(current_keys) => {
                        let current_signers = spec_signers(current_keys);
                        let new_signers = spec_signers(new_keys);
                        if current_signers.len() == 0 && !accounts[0].is_signer {
                            Err(ProcessError::MissingRequiredSignature)
                        } else if !spec_signers_authorized(accounts, current_signers, new_signers) {
                            Err(ProcessError::MissingRequiredSignature)
                        } else if !new_keys.no_duplicates() {
                            Err(ProcessError::DuplicateAuthorizationEntry)
                        } else if current_signers.len() > new_signers.len() {
                            Err(ProcessError::MissingRequiredSignature)
                        } else if input.len() > accounts[0].data@.len() {
                            Err(ProcessError::RequestTooLarge)
                        } else {
                            Ok(())
                        }
                    },
                }
            }
        },
    }
}

/// Reads the list of an update. The first byte is looked at before anything
/// is read: a list that declares more than `MAX_VECTOR_LEN` entries is turned
/// down at once.
pub fn safe_deserialize_config_keys(input: &[u8]) -> (r: Result<ConfigKeys, ProcessError>)
    ensures
        match spec_request_keys(input@) {
            Ok(entries) => r matches Ok(list) && list@ == entries,
            Err(e) => r == Err::<ConfigKeys, _>(e),
        },
{
    if input.len() == 0 {
        return Err(ProcessError::InvalidRequestData);
    }
    let first_byte: u8 = input[0];
    if first_byte as usize > MAX_VECTOR_LEN {
        return Err(ProcessError::InvalidRequestData);
    }
    match ConfigKeys::deserialize_reader(input) {
        Ok((list, _)) => {
            assert(spec_decode_shortu16(input@) == Ok::<_, DecodeError>((first_byte as u16, 1nat)));
            assert(list@.len() == first_byte);
            Ok(list)
        },
        Err(_) => Err(ProcessError::InvalidRequestData),
    }
}

/// Reads the list of a record. The length that the record declares is held
/// against the bytes that the record has before any entry is read.
pub fn safe_deserialize_config_keys_from_state(input: &[u8]) -> (r: Result<
    ConfigKeys,
    ProcessError,
>)
    ensures
        match spec_stored_keys(input@) {
            Ok(entries) => r matches Ok(list) && list@ == entries,
            Err(e) => r == Err::<ConfigKeys, _>(e),
        },
{
    let (vector_len, offset) = match solana_short_vec::decode_shortu16_len(input) {
        Ok(decoded) => decoded,
        Err(_) => {
            return Err(ProcessError::InvalidStoredData);
        },
    };
    if (input.len() - offset) / ENTRY_SIZE < vector_len {
        return Err(ProcessError::InvalidStoredData);
    }
    match ConfigKeys::deserialize_reader(input) {
        Ok((list, _)) => Ok(list),
        Err(_) => Err(ProcessError::InvalidStoredData),
    }
}

/// The bytes of each key.
pub open spec fn spec_key_views(keys: Seq<Pubkey>) -> Seq<Seq<u8>> {
    keys.map_values(|key: Pubkey| key@)
}

/// The signers among the first `n + 1` entries are those among the first
/// `n`, and then the key of the next entry if it is flagged.
pub proof fn lemma_signers_take(entries: Seq<KeyEntry>, n: int)
    requires
        0 <= n < entries.len(),
    ensures
        spec_signers(entries.take(n + 1)) == if entries[n].1 {
            spec_signers(entries.take(n)).push(entries[n].0)
        } else {
            spec_signers(entries.take(n))
        },
{
    reveal(Seq::filter);
    let flagged = spec_flagged();
    assert(entries.take(n + 1).drop_last() =~= entries.take(n));
    assert(entries.take(n + 1).last() == entries[n]);
    if entries[n].1 {
        assert(entries.take(n + 1).filter(flagged) == entries.take(n).filter(flagged).push(
            entries[n],
        ));
        assert(spec_signers(entries.take(n + 1)) =~= spec_signers(entries.take(n)).push(
            entries[n].0,
        ));
    } else {
        assert(entries.take(n + 1).filter(flagged) == entries.take(n).filter(flagged));
    }
}

/// The signers among the first `n` entries start the signers of the list.
pub proof fn lemma_signers_prefix(entries: Seq<KeyEntry>, n: int)
    requires
        0 <= n <= entries.len(),
    ensures
        spec_signers(entries.take(n)).len() <= spec_signers(entries).len(),
        spec_signers(entries.take(n)) == spec_signers(entries).take(
            spec_signers(entries.take(n)).len() as int,
        ),
    decreases entries.len() - n,
{
    if n == entries.len() {
        assert(entries.take(n) =~= entries);
        assert(spec_signers(entries).take(spec_signers(entries).len() as int) =~= spec_signers(
            entries,
        ));
    } else {
        lemma_signers_take(entries, n);
        lemma_signers_prefix(entries, n + 1);
        let longer = spec_signers(entries.take(n + 1));
        let shorter = spec_signers(entries.take(n));
        assert(shorter =~= spec_signers(entries).take(shorter.len() as int));
    }
}

/// The keys of the entries of `list` that are flagged as signers.
fn signer_keys(list: &ConfigKeys) -> (signers: Vec<Pubkey>)
    ensures
        spec_key_views(signers@) == spec_signers(list@),
{
    let ghost entries = list@;
    let mut signers: Vec<Pubkey> = Vec::new();
    let mut i: usize = 0;
    assert(spec_key_views(signers@) =~= spec_signers(entries.take(0)));
    while i < list.keys.len()
        invariant
            i <= list.keys.len(),
            entries == list@,
            entries.len() == list.keys.len(),
            spec_key_views(signers@) == spec_signers(entries.take(i as int)),
        decreases list.keys.len() - i,
    {
        proof {
            lemma_signers_take(entries, i as int);
        }
        if list.keys[i].1 {
            let ghost before = signers@;
            signers.push(list.keys[i].0);
            assert(spec_key_views(signers@) =~= spec_key_views(before).push(entries[i as int].0));
        }
        i += 1;
    }
    assert(entries.take(i as int) =~= entries);
    signers
}

/// Whether `key` is among `keys`.
fn contains_key(keys: &Vec<Pubkey>, key: &Pubkey) -> (found: bool)
    ensures
        found == spec_key_views(keys@).contains(key@),
{
    let mut i: usize = 0;
    while i < keys.len()
        invariant
            i <= keys.len(),
            forall|j: int| 0 <= j < i ==> spec_key_views(keys@)[j] != key@,
        decreases keys.len() - i,
    {
        if keys[i] == *key {
            assert(spec_key_views(keys@)[i as int] == key@);
            return true;
        }
        i += 1;
    }
    false
}

/// Whether some entry of `list` stands in it twice, key and flag alike.
fn has_duplicates(list: &ConfigKeys) -> (found: bool)
    ensures
        found == !list@.no_duplicates(),
{
    let ghost entries = list@;
    let count: usize = list.keys.len();
    let mut i: usize = 0;
    while i < count
        invariant
            i <= count,
            count == list.keys.len(),
            entries == list@,
            forall|a: int, b: int| 0 <= a < i && a < b < count ==> entries[a] != entries[b],
        decreases count - i,
    {
        let mut j: usize = i + 1;
        while j < count
            invariant
                i < j <= count,
                count == list.keys.len(),
                entries == list@,
                forall|b: int| i < b < j ==> entries[i as int] != entries[b],
            decreases count - j,
        {
            if list.keys[i].0 == list.keys[j].0 && list.keys[i].1 == list.keys[j].1 {
                assert(entries[i as int] == entries[j as int]);
                return true;
            }
            j += 1;
        }
        i += 1;
    }
    assert forall|a: int, b: int|
        0 <= a < entries.len() && 0 <= b < entries.len() && a != b implies entries[a]
        != entries[b] by {
        if a < b {
            assert(entries[a] != entries[b]);
        } else {
            assert(entries[b] != entries[a]);
        }
    }
    false
}

/// Where the accounts do not vouch for one signer among the first `n`
/// entries, they do not vouch for every signer of the list.
pub proof fn lemma_signer_rejected(
    accounts: Seq<AccountInfo>,
    current_signers: Seq<Seq<u8>>,
    entries: Seq<KeyEntry>,
    n: int,
    k: int,
)
    requires
        0 <= n <= entries.len(),
        0 <= k < spec_signers(entries.take(n)).len(),
        !spec_signer_authorized(accounts, current_signers, k + 1, spec_signers(entries.take(n))[k]),
    ensures
        !spec_signers_authorized(accounts, current_signers, spec_signers(entries)),
{
    lemma_signers_prefix(entries, n);
    assert(spec_signers(entries)[k] == spec_signers(entries.take(n))[k]);
}

/// Decides whether the update `input` may replace the contents of the
/// record `accounts[0]`. Nothing is written.
pub fn validate(program_id: &Pubkey, accounts: &[AccountInfo], input: &[u8]) -> (r: Result<
    (),
    ProcessError,
>)
    ensures
        r == spec_process(*program_id, accounts@, input@),
{
    let key_list = match safe_deserialize_config_keys(input) {
        Ok(list) => list,
        Err(e) => {
            return Err(e);
        },
    };
    if accounts.len() == 0 {
        return Err(ProcessError::MissingAccounts);
    }
    let config_account = &accounts[0];
    if config_account.owner != *program_id {
        return Err(ProcessError::InvalidOwner);
    }
    let current_data = match safe_deserialize_config_keys_from_state(
        config_account.data.as_slice(),
    ) {
        Ok(list) => list,
        Err(e) => {
            return Err(e);
        },
    };
    let current_signer_keys = signer_keys(&current_data);
    let ghost current_signers = spec_signers(current_data@);
    let ghost new_keys = key_list@;
    assert(current_signers.len() == current_signer_keys@.len());
    if current_signer_keys.len() == 0 {
        // The record must sign for itself as long as nobody else can.
        if !config_account.is_signer {
            return Err(ProcessError::MissingRequiredSignature);
        }
    }
    let mut counter: usize = 0;
    let mut i: usize = 0;
    assert(spec_signers(new_keys.take(0)) =~= Seq::<Seq<u8>>::empty()) by {
        reveal(Seq::filter);
    }
    while i < key_list.keys.len()
        invariant
            i <= key_list.keys.len(),
            new_keys == key_list@,
            new_keys.len() == key_list.keys.len(),
            accounts@.len() > 0,
            config_account == accounts@[0],
            current_signers == spec_key_views(current_signer_keys@),
            counter == spec_signers(new_keys.take(i as int)).len(),
            counter <= i,
            forall|k: int|
                0 <= k < counter ==> spec_signer_authorized(
                    accounts@,
                    current_signers,
                    k + 1,
                    #[trigger] spec_signers(new_keys.take(i as int))[k],
                ),
            spec_request_keys(input@) == Ok::<_, ProcessError>(new_keys),
            accounts@[0].owner@ == program_id@,
            spec_stored_keys(accounts@[0].data@) is Ok,
            current_signers == spec_signers(spec_stored_keys(accounts@[0].data@)->Ok_0),
            current_signers.len() == 0 ==> accounts@[0].is_signer,
        decreases key_list.keys.len() - i,
    {
        proof {
            lemma_signers_take(new_keys, i as int);
        }
        if key_list.keys[i].1 {
            let signer: &Pubkey = &key_list.keys[i].0;
            let ghost position = counter as int;
            counter = counter + 1;
            assert(spec_signers(new_keys.take(i + 1))[position] == signer@);
            let vouched: bool = if *signer != config_account.key {
                if counter >= accounts.len() {
                    false
                } else {
                    let signer_account = &accounts[counter];
                    if !signer_account.is_signer {
                        false
                    } else if signer_account.key != *signer {
                        false
                    } else if current_signer_keys.len() != 0 && !contains_key(
                        &current_signer_keys,
                        signer,
                    ) {
                        // Once a record has signers, only they can be named as signers.
                        false
                    } else {
                        true
                    }
                }
            } else {
                config_account.is_signer
            };
            assert(vouched == spec_signer_authorized(
                accounts@,
                current_signers,
                position + 1,
                signer@,
            ));
            if !vouched {
                proof {
                    lemma_signer_rejected(accounts@, current_signers, new_keys, i + 1, position);
                }
                return Err(ProcessError::MissingRequiredSignature);
            }
        }
        i += 1;
    }
    assert(new_keys.take(i as int) =~= new_keys);
    assert(spec_signers_authorized(accounts@, current_signers, spec_signers(new_keys)));
    if has_duplicates(&key_list) {
        return Err(ProcessError::DuplicateAuthorizationEntry);
    }
    // Every signer of the record must have a place among those of the update.
    if current_signer_keys.len() > counter {
        return Err(ProcessError::MissingRequiredSignature);
    }
    if config_account.data.len() < input.len() {
        return Err(ProcessError::RequestTooLarge);
    }
    Ok(())
}

/// What a record of contents `data` holds once the update `input` is
/// written: the update, then what the record held behind it.
pub open spec fn spec_stored(data: Seq<u8>, input: Seq<u8>) -> Seq<u8> {
    input + data.skip(input.len() as int)
}

/// Processes the update `input` that comes with `accounts`, the record
/// first. Where the update is in order it replaces the start of the record,
/// byte for byte, and the bytes behind it stay. Where it is not, nothing
/// changes. Every check is made before the first byte is written. The
/// exclusive borrow of `accounts` keeps any other writer from the record for
/// the length of the call.
pub fn process(program_id: &Pubkey, accounts: &mut [AccountInfo], input: &[u8]) -> (r: Result<
    (),
    ProcessError,
>)
    ensures
        r == spec_process(*program_id, old(accounts)@, input@),
        r is Err ==> final(accounts)@ == old(accounts)@,
        r is Ok ==> {
            &&& final(accounts)@.len() == old(accounts)@.len()
            &&& final(accounts)@[0].key == old(accounts)@[0].key
            &&& final(accounts)@[0].is_signer == old(accounts)@[0].is_signer
            &&& final(accounts)@[0].owner == old(accounts)@[0].owner
            &&& final(accounts)@[0].data@ == spec_stored(old(accounts)@[0].data@, input@)
            &&& forall|j: int|
                1 <= j < old(accounts)@.len() ==> final(accounts)@[j] == old(accounts)@[j]
        },
{
    match validate(program_id, accounts, input) {
        Ok(()) => {},
        Err(e) => {
            return Err(e);
        },
    }
    let ghost before = accounts@;
    let mut i: usize = 0;
    while i < input.len()
        invariant
            i <= input@.len(),
            before.len() > 0,
            input@.len() <= before[0].data@.len(),
            accounts@.len() == before.len(),
            accounts@[0].key == before[0].key,
            accounts@[0].is_signer == before[0].is_signer,
            accounts@[0].owner == before[0].owner,
            accounts@[0].data@.len() == before[0].data@.len(),
            forall|j: int| 1 <= j < before.len() ==> accounts@[j] == before[j],
            forall|j: int| 0 <= j < i ==> accounts@[0].data@[j] == input@[j],
            forall|j: int|
                i <= j < before[0].data@.len() ==> accounts@[0].data@[j] == before[0].data@[j],
        decreases input@.len() - i,
    {
        accounts[0].data[i] = input[i];
        i += 1;
    }
    assert(accounts@[0].data@ =~= spec_stored(before[0].data@, input@));
    Ok(())
}

/// What holds of every update that the processor accepts: the record
/// belongs to the processor; the update fits in the record; no entry of its
/// list stands there twice; it names at least as many signers as the record
/// has, and the accounts vouch for each; and a record without signers has
/// signed for itself.
pub proof fn lemma_accepted_update(program_id: Pubkey, accounts: Seq<AccountInfo>, input: Seq<u8>)
    requires
        spec_process(program_id, accounts, input) is Ok,
    ensures
        accounts.len() > 0,
        accounts[0].owner@ == program_id@,
        input.len() <= accounts[0].data@.len(),
        spec_request_keys(input) is Ok,
        spec_stored_keys(accounts[0].data@) is Ok,
        ({
            let new_keys = spec_request_keys(input)->Ok_0;
            let current_signers = spec_signers(spec_stored_keys(accounts[0].data@)->Ok_0);
            &&& new_keys.len() <= MAX_VECTOR_LEN
            &&& new_keys.no_duplicates()
            &&& current_signers.len() <= spec_signers(new_keys).len()
            &&& spec_signers_authorized(accounts, current_signers, spec_signers(new_keys))
            &&& current_signers.len() == 0 ==> accounts[0].is_signer
        }),
{
}

/// An update that comes with no account is turned down for that, unless
/// it is turned down for its own bytes.
pub proof fn lemma_missing_accounts_first(program_id: Pubkey, input: Seq<u8>)
    ensures
        spec_request_keys(input) is Ok ==> spec_process(program_id, Seq::empty(), input) == Err::<
            (),
            _,
        >(ProcessError::MissingAccounts),
        spec_request_keys(input) is Err ==> spec_process(program_id, Seq::empty(), input) == Err::<
            (),
            _,
        >(ProcessError::InvalidRequestData),
{
}

/// Once an update is written, the record holds the list of the update: the
/// next update is judged by it.
pub proof fn lemma_stored_keys_after_update(
    program_id: Pubkey,
    accounts: Seq<AccountInfo>,
    input: Seq<u8>,
)
    requires
        spec_process(program_id, accounts, input) is Ok,
    ensures
        spec_stored(accounts[0].data@, input).len() == accounts[0].data@.len(),
        spec_stored_keys(spec_stored(accounts[0].data@, input)) == spec_request_keys(input),
{
    crate::state::lemma_deserialize_prefix(input, accounts[0].data@.skip(input.len() as int));
}

/// An update as long as the record replaces all of it.
pub proof fn lemma_stored_whole(data: Seq<u8>, input: Seq<u8>)
    requires
        input.len() == data.len(),
    ensures
        spec_stored(data, input) == input,
{
    assert(spec_stored(data, input) =~= input);
}

/// Writing the same update twice leaves the record as the first did.
pub proof fn lemma_stored_twice(data: Seq<u8>, input: Seq<u8>)
    requires
        input.len() <= data.len(),
    ensures
        spec_stored(spec_stored(data, input), input) == spec_stored(data, input),
{
    assert(spec_stored(spec_stored(data, input), input) =~= spec_stored(data, input));
}

/// What the first checks of the processor ask: the update starts with a
/// list, an account came with it, the record belongs to the processor and
/// starts with a list.
pub open spec fn spec_readable(program_id: Pubkey, accounts: Seq<AccountInfo>, input: Seq<u8>)
    -> bool {
    &&& spec_request_keys(input) is Ok
    &&& accounts.len() > 0
    &&& accounts[0].owner@ == program_id@
    &&& spec_stored_keys(accounts[0].data@) is Ok
}

/// A record without signers takes an update that names no signer but the
/// record itself, once the record has signed, as long as the update fits and
/// names no entry twice.
pub proof fn lemma_self_signed_update_accepted(
    program_id: Pubkey,
    accounts: Seq<AccountInfo>,
    input: Seq<u8>,
)
    requires
        spec_readable(program_id, accounts, input),
        spec_signers(spec_stored_keys(accounts[0].data@)->Ok_0).len() == 0,
        accounts[0].is_signer,
        forall|k: int|
            0 <= k < spec_signers(spec_request_keys(input)->Ok_0).len() ==> spec_signers(
                spec_request_keys(input)->Ok_0,
            )[k] == accounts[0].key@,
        spec_request_keys(input)->Ok_0.no_duplicates(),
        input.len() <= accounts[0].data@.len(),
    ensures
        spec_process(program_id, accounts, input) == Ok::<(), ProcessError>(()),
{
}

/// A record takes an update that names the record's own signers again, each
/// with its signed account at the signer's place, as long as the update fits
/// and names no entry twice.
pub proof fn lemma_resubmitted_signers_accepted(
    program_id: Pubkey,
    accounts: Seq<AccountInfo>,
    input: Seq<u8>,
)
    requires
        spec_readable(program_id, accounts, input),
        spec_signers(spec_request_keys(input)->Ok_0) == spec_signers(
            spec_stored_keys(accounts[0].data@)->Ok_0,
        ),
        spec_signers(spec_request_keys(input)->Ok_0).len() > 0,
        forall|k: int|
            0 <= k < spec_signers(spec_request_keys(input)->Ok_0).len() ==> {
                &&& k + 1 < accounts.len()
                &&& accounts[k + 1].is_signer
                &&& accounts[k + 1].key@ == spec_signers(spec_request_keys(input)->Ok_0)[k]
                &&& accounts[k + 1].key@ != accounts[0].key@
            },
        spec_request_keys(input)->Ok_0.no_duplicates(),
        input.len() <= accounts[0].data@.len(),
    ensures
        spec_process(program_id, accounts, input) == Ok::<(), ProcessError>(()),
{
    let signers = spec_signers(spec_request_keys(input)->Ok_0);
    assert forall|k: int| 0 <= k < signers.len() implies spec_signer_authorized(
        accounts,
        signers,
        k + 1,
        #[trigger] signers[k],
    ) by {
        assert(signers.contains(signers[k]));
    }
}

/// An update is turned down where a signer that is not the record has no
/// account at its place.
pub proof fn lemma_missing_signer_account_rejected(
    program_id: Pubkey,
    accounts: Seq<AccountInfo>,
    input: Seq<u8>,
    k: int,
)
    requires
        spec_readable(program_id, accounts, input),
        0 <= k < spec_signers(spec_request_keys(input)->Ok_0).len(),
        spec_signers(spec_request_keys(input)->Ok_0)[k] != accounts[0].key@,
        k + 1 >= accounts.len(),
    ensures
        spec_process(program_id, accounts, input) == Err::<(), _>(
            ProcessError::MissingRequiredSignature,
        ),
{
    let signers = spec_signers(spec_request_keys(input)->Ok_0);
    let current = spec_signers(spec_stored_keys(accounts[0].data@)->Ok_0);
    assert(!spec_signer_authorized(accounts, current, k + 1, signers[k]));
}

/// An update whose signatures are in order is turned down where its list
/// names an entry twice.
pub proof fn lemma_duplicate_entry_rejected(
    program_id: Pubkey,
    accounts: Seq<AccountInfo>,
    input: Seq<u8>,
    i: int,
    j: int,
)
    requires
        spec_readable(program_id, accounts, input),
        spec_signers(spec_stored_keys(accounts[0].data@)->Ok_0).len() == 0
            ==> accounts[0].is_signer,
        spec_signers_authorized(
            accounts,
            spec_signers(spec_stored_keys(accounts[0].data@)->Ok_0),
            spec_signers(spec_request_keys(input)->Ok_0),
        ),
        0 <= i < j < spec_request_keys(input)->Ok_0.len(),
        spec_request_keys(input)->Ok_0[i] == spec_request_keys(input)->Ok_0[j],
    ensures
        spec_process(program_id, accounts, input) == Err::<(), _>(
            ProcessError::DuplicateAuthorizationEntry,
        ),
{
}

/// An update that is in order in every other way is turned down where it is
/// longer than the record.
pub proof fn lemma_oversized_update_rejected(
    program_id: Pubkey,
    accounts: Seq<AccountInfo>,
    input: Seq<u8>,
)
    requires
        spec_readable(program_id, accounts, input),
        spec_signers(spec_stored_keys(accounts[0].data@)->Ok_0).len() == 0
            ==> accounts[0].is_signer,
        spec_signers_authorized(
            accounts,
            spec_signers(spec_stored_keys(accounts[0].data@)->Ok_0),
            spec_signers(spec_request_keys(input)->Ok_0),
        ),
        spec_request_keys(input)->Ok_0.no_duplicates(),
        spec_signers(spec_stored_keys(accounts[0].data@)->Ok_0).len() <= spec_signers(
            spec_request_keys(input)->Ok_0,
        ).len(),
        input.len() > accounts[0].data@.len(),
    ensures
        spec_process(program_id, accounts, input) == Err::<(), _>(ProcessError::RequestTooLarge),
{
}

/// A well-formed update for a record of another owner is turned down for
/// the owner, whatever else holds of it.
pub proof fn lemma_foreign_owner_rejected(
    program_id: Pubkey,
    accounts: Seq<AccountInfo>,
    input: Seq<u8>,
)
    requires
        spec_request_keys(input) is Ok,
        accounts.len() > 0,
        accounts[0].owner@ != program_id@,
    ensures
        spec_process(program_id, accounts, input) == Err::<(), _>(ProcessError::InvalidOwner),
{
}

} // verus!
