//! The instructions that create a record and send an update to it.

use crate::processor::{spec_flagged, spec_signers};
use crate::pubkey::{lemma_pubkey_ext_equal, Pubkey};
use crate::short_vec::MAX_KEYS;
use crate::state::{spec_entries, spec_serialize_keys, ConfigKeys};
use vstd::prelude::*;

verus! {

/// An account that an instruction names.
#[derive(Clone, Copy, Debug, PartialEq, Eq, Hash)]
pub struct AccountMeta {
    /// The key of the account.
    pub pubkey: Pubkey,
    /// Whether the account must sign.
    pub is_signer: bool,
    /// Whether the instruction may change the account.
    pub is_writable: bool,
}

impl AccountMeta {
    /// A writable account.
    pub open spec fn spec_new(pubkey: Pubkey, is_signer: bool) -> AccountMeta {
        AccountMeta { pubkey, is_signer, is_writable: true }
    }

    /// A writable account.
    pub fn new(pubkey: Pubkey, is_signer: bool) -> (meta: AccountMeta)
        ensures
            meta == AccountMeta::spec_new(pubkey, is_signer),
    {
        AccountMeta { pubkey, is_signer, is_writable: true }
    }
}

/// A call of a program: the program, the accounts and the bytes it gets.
#[derive(Clone, Debug, PartialEq, Eq)]
pub struct Instruction {
    /// The key of the program that is called.
    pub program_id: Pubkey,
    /// The accounts that come with the call, in order.
    pub accounts: Vec<AccountMeta>,
    /// The bytes that the program reads.
    pub data: Vec<u8>,
}

/// The test that an entry needs an account of its own in an update of the
/// record `config`: it is flagged as a signer and is not the record itself.
pub open spec fn spec_cosigner(config: Pubkey) -> spec_fn((Pubkey, bool)) -> bool {
    |entry: (Pubkey, bool)| entry.1 && entry.0 != config
}

/// The accounts of an update of the record `config` with the list `keys`:
/// the record, then each signer of the list but the record, in order.
pub open spec fn spec_store_accounts(
    config: Pubkey,
    is_config_signer: bool,
    keys: Seq<(Pubkey, bool)>,
) -> Seq<AccountMeta> {
    seq![AccountMeta::spec_new(config, is_config_signer)] + keys.filter(
        spec_cosigner(config),
    ).map_values(|entry: (Pubkey, bool)| AccountMeta::spec_new(entry.0, true))
}

/// The bytes of an update: the list `keys`, then `data`.
pub open spec fn spec_store_data(keys: Seq<(Pubkey, bool)>, data: Seq<u8>) -> Seq<u8> {
    spec_serialize_keys(spec_entries(keys)) + data
}

/// The bytes of an update or of a record: the list `keys`, then `data`.
pub fn serialize_with_data(keys: Vec<(Pubkey, bool)>, data: &[u8]) -> (bytes: Vec<u8>)
    requires
        keys@.len() <= MAX_KEYS,
    ensures
        bytes@ == spec_store_data(keys@, data@),
{
    let list = ConfigKeys { keys };
    let mut bytes: Vec<u8> = Vec::new();
    let written = list.serialize(&mut bytes);
    assert(written is Ok);
    let ghost head = bytes@;
    let mut i: usize = 0;
    while i < data.len()
        invariant
            i <= data@.len(),
            bytes@ == head + data@.take(i as int),
        decreases data@.len() - i,
    {
        bytes.push(data[i]);
        assert(data@.take(i + 1) =~= data@.take(i as int).push(data@[i as int]));
        assert(bytes@ =~= head + data@.take(i + 1));
        i += 1;
    }
    assert(data@.take(i as int) =~= data@);
    assert(bytes@ =~= spec_store_data(list.keys@, data@));
    bytes
}

/// The instruction that stores `data` under the list `keys` in the record
/// `config_account_pubkey` of the program `program_id`.
pub fn store(
    program_id: &Pubkey,
    config_account_pubkey: &Pubkey,
    is_config_signer: bool,
    keys: Vec<(Pubkey, bool)>,
    data: &[u8],
) -> (instruction: Instruction)
    requires
        keys@.len() <= MAX_KEYS,
    ensures
        instruction.program_id == *program_id,
        instruction.accounts@ == spec_store_accounts(
            *config_account_pubkey,
            is_config_signer,
            keys@,
        ),
        instruction.data@ == spec_store_data(keys@, data@),
{
    let ghost config = *config_account_pubkey;
    let ghost entries = keys@;
    let mut account_metas: Vec<AccountMeta> = Vec::new();
    account_metas.push(AccountMeta::new(*config_account_pubkey, is_config_signer));
    let ghost first = account_metas@;
    let mut i: usize = 0;
    assert(entries.take(0).filter(spec_cosigner(config)) =~= Seq::<(Pubkey, bool)>::empty()) by {
        reveal(Seq::filter);
    }
    while i < keys.len()
        invariant
            i <= keys.len(),
            entries == keys@,
            config == *config_account_pubkey,
            first == seq![AccountMeta::spec_new(config, is_config_signer)],
            account_metas@ == first + entries.take(i as int).filter(
                spec_cosigner(config),
            ).map_values(|entry: (Pubkey, bool)| AccountMeta::spec_new(entry.0, true)),
        decreases keys.len() - i,
    {
        let ghost so_far = entries.take(i as int).filter(spec_cosigner(config));
        let ghost next = entries.take(i + 1).filter(spec_cosigner(config));
        proof {
            reveal(Seq::filter);
            assert(entries.take(i + 1).drop_last() =~= entries.take(i as int));
            assert(entries.take(i + 1).last() == entries[i as int]);
            if keys[i as int].0@ == config@ {
                lemma_pubkey_ext_equal(keys[i as int].0, config);
            }
        }
        if keys[i].1 && keys[i].0 != *config_account_pubkey {
            account_metas.push(AccountMeta::new(keys[i].0, true));
            assert(next == so_far.push(entries[i as int]));
            assert(account_metas@ =~= first + next.map_values(
                |entry: (Pubkey, bool)| AccountMeta::spec_new(entry.0, true),
            ));
        } else {
            assert(next == so_far);
        }
        i += 1;
    }
    assert(entries.take(i as int) =~= entries);
    let account_data = serialize_with_data(keys, data);
    Instruction { program_id: *program_id, accounts: account_metas, data: account_data }
}

/// Whether no entry of `keys` names the record `config` as a signer.
pub open spec fn spec_record_signs_not(config: Pubkey, keys: Seq<(Pubkey, bool)>) -> bool {
    forall|i: int| 0 <= i < keys.len() ==> !((#[trigger] keys[i]).1 && keys[i].0 == config)
}

/// Where the record is not among the signers of a list, the accounts that
/// `store` names behind the record are the signers of the list, in order.
pub proof fn lemma_store_accounts_are_signers(
    config: Pubkey,
    is_config_signer: bool,
    keys: Seq<(Pubkey, bool)>,
)
    requires
        spec_record_signs_not(config, keys),
    ensures
        spec_store_accounts(config, is_config_signer, keys).len() == 1 + spec_signers(
            spec_entries(keys),
        ).len(),
        spec_store_accounts(config, is_config_signer, keys)[0] == AccountMeta::spec_new(
            config,
            is_config_signer,
        ),
        forall|k: int|
            0 <= k < spec_signers(spec_entries(keys)).len() ==> {
                &&& (#[trigger] spec_store_accounts(config, is_config_signer, keys)[k + 1]).pubkey@
                    == spec_signers(spec_entries(keys))[k]
                &&& spec_store_accounts(config, is_config_signer, keys)[k + 1].is_signer
                &&& spec_store_accounts(config, is_config_signer, keys)[k + 1].is_writable
            },
    decreases keys.len(),
{
    reveal(Seq::filter);
    let named = keys.filter(spec_cosigner(config));
    let signers = spec_signers(spec_entries(keys));
    if keys.len() == 0 {
        assert(spec_entries(keys).filter(spec_flagged()).len() == 0);
    } else {
        let front = keys.drop_last();
        let last = keys.last();
        lemma_store_accounts_are_signers(config, is_config_signer, front);
        assert(spec_entries(keys).drop_last() =~= spec_entries(front));
        assert(spec_entries(keys).last() == (last.0@, last.1));
        let front_named = front.filter(spec_cosigner(config));
        let front_signers = spec_signers(spec_entries(front));
        assert(front_named.len() == front_signers.len());
        assert forall|k: int| 0 <= k < front_signers.len() implies (#[trigger] front_named[k]).0@
            == front_signers[k] by {
            assert(spec_store_accounts(config, is_config_signer, front)[k + 1].pubkey@
                == front_signers[k]);
        }
        if last.1 {
            assert(last == keys[keys.len() - 1]);
            assert(named == front_named.push(last));
            assert(signers =~= front_signers.push(last.0@));
        } else {
            assert(named == front_named);
            assert(signers =~= front_signers);
        }
        assert forall|k: int| 0 <= k < signers.len() implies {
            &&& (#[trigger] spec_store_accounts(config, is_config_signer, keys)[k + 1]).pubkey@
                == signers[k]
            &&& spec_store_accounts(config, is_config_signer, keys)[k + 1].is_signer
            &&& spec_store_accounts(config, is_config_signer, keys)[k + 1].is_writable
        } by {
            assert(spec_store_accounts(config, is_config_signer, keys)[k + 1]
                == AccountMeta::spec_new(named[k].0, true));
            if k < front_signers.len() {
                assert(named[k] == front_named[k]);
            }
        }
    }
}

/// The eight bytes of `value`, lowest first.
pub open spec fn spec_u64_le_bytes(value: u64) -> Seq<u8> {
    seq![
        (value % 0x100) as u8,
        (value / 0x100 % 0x100) as u8,
        (value / 0x1_0000 % 0x100) as u8,
        (value / 0x100_0000 % 0x100) as u8,
        (value / 0x1_0000_0000 % 0x100) as u8,
        (value / 0x100_0000_0000 % 0x100) as u8,
        (value / 0x1_0000_0000_0000 % 0x100) as u8,
        (value / 0x100_0000_0000_0000) as u8,
    ]
}

/// The key of the system program: 32 zero bytes.
pub open spec fn spec_system_program() -> Seq<u8> {
    Seq::new(32, |i: int| 0u8)
}

/// The bytes that ask the system program for a new account: the number 0
/// in four bytes, then the balance and the size, eight bytes each, lowest
/// first, then the key of the owner.
pub open spec fn spec_create_account_data(lamports: u64, space: u64, owner: Seq<u8>) -> Seq<u8> {
    seq![0u8, 0u8, 0u8, 0u8] + spec_u64_le_bytes(lamports) + spec_u64_le_bytes(space) + owner
}

/// What `solana_system_interface::instruction::create_account` returns: a
/// call of the system program with the two accounts `from` and `to`, both
/// writable signers, and the bytes of `spec_create_account_data`.
#[verifier::external_body]
fn system_create_account(from: &Pubkey, to: &Pubkey, lamports: u64, space: u64, owner: &Pubkey) -> (made:
    Instruction)
    ensures
        made.program_id@ == spec_system_program(),
        made.accounts@ == seq![AccountMeta::spec_new(*from, true), AccountMeta::spec_new(*to, true)],
        made.data@ == spec_create_account_data(lamports, space, owner@),
{
    let made = solana_system_interface::instruction::create_account(
        &from.0.into(), &to.0.into(), lamports, space, &owner.0.into(),
    );
    let accounts = made.accounts.iter().map(|meta| AccountMeta {
        pubkey: Pubkey(meta.pubkey.to_bytes()),
        is_signer: meta.is_signer,
        is_writable: meta.is_writable,
    }).collect();
    Instruction { program_id: Pubkey(made.program_id.to_bytes()), accounts, data: made.data }
}

/// The instruction that fills a new record `config_pubkey` with an empty
/// list and the payload `data`.
fn initialize_account(program_id: &Pubkey, config_pubkey: &Pubkey, data: &[u8]) -> (instruction:
    Instruction)
    ensures
        instruction.program_id == *program_id,
        instruction.accounts@ == seq![AccountMeta::spec_new(*config_pubkey, true)],
        instruction.data@ == spec_store_data(Seq::empty(), data@),
{
    let instruction = store(program_id, config_pubkey, true, Vec::new(), data);
    assert(instruction.accounts@ =~= seq![AccountMeta::spec_new(*config_pubkey, true)]) by {
        reveal(Seq::filter);
    }
    instruction
}

/// The size of a record that holds a list of `count` keys and a payload of
/// at most `max_config_space` bytes, cut off at the largest `u64`.
pub open spec fn spec_account_space(max_config_space: u64, count: nat) -> u64 {
    if max_config_space + crate::state::spec_serialized_size(count) > u64::MAX {
        u64::MAX
    } else {
        (max_config_space + crate::state::spec_serialized_size(count)) as u64
    }
}

/// The two instructions that create a record: one asks the system program
/// for an account that `from_account_pubkey` pays for, large enough for the
/// list `keys` and `max_config_space` bytes of payload and owned by
/// `program_id`; the other fills it with an empty list and `data`.
pub fn create_account_with_max_config_space(
    program_id: &Pubkey,
    from_account_pubkey: &Pubkey,
    config_account_pubkey: &Pubkey,
    lamports: u64,
    max_config_space: u64,
    keys: Vec<(Pubkey, bool)>,
    data: &[u8],
) -> (instructions: Vec<Instruction>)
    requires
        keys@.len() <= MAX_KEYS,
    ensures
        instructions@.len() == 2,
        instructions@[0].program_id@ == spec_system_program(),
        instructions@[0].accounts@ == seq![
            AccountMeta::spec_new(*from_account_pubkey, true),
            AccountMeta::spec_new(*config_account_pubkey, true),
        ],
        instructions@[0].data@ == spec_create_account_data(
            lamports,
            spec_account_space(max_config_space, keys@.len()),
            program_id@,
        ),
        instructions@[1].program_id == *program_id,
        instructions@[1].accounts@ == seq![AccountMeta::spec_new(*config_account_pubkey, true)],
        instructions@[1].data@ == spec_store_data(Seq::empty(), data@),
{
    let space: u64 = max_config_space.saturating_add(ConfigKeys::serialized_size(keys));
    let mut instructions: Vec<Instruction> = Vec::new();
    instructions.push(
        system_create_account(
            from_account_pubkey,
            config_account_pubkey,
            lamports,
            space,
            program_id,
        ),
    );
    instructions.push(initialize_account(program_id, config_account_pubkey, data));
    instructions
}

/// The same as `create_account_with_max_config_space`.
pub fn create_account(
    program_id: &Pubkey,
    from_account_pubkey: &Pubkey,
    config_account_pubkey: &Pubkey,
    lamports: u64,
    max_space: u64,
    keys: Vec<(Pubkey, bool)>,
    data: &[u8],
) -> (instructions: Vec<Instruction>)
    requires
        keys@.len() <= MAX_KEYS,
    ensures
        instructions@.len() == 2,
        instructions@[0].program_id@ == spec_system_program(),
        instructions@[0].accounts@ == seq![
            AccountMeta::spec_new(*from_account_pubkey, true),
            AccountMeta::spec_new(*config_account_pubkey, true),
        ],
        instructions@[0].data@ == spec_create_account_data(
            lamports,
            spec_account_space(max_space, keys@.len()),
            program_id@,
        ),
        instructions@[1].program_id == *program_id,
        instructions@[1].accounts@ == seq![AccountMeta::spec_new(*config_account_pubkey, true)],
        instructions@[1].data@ == spec_store_data(Seq::empty(), data@),
{
    create_account_with_max_config_space(
        program_id,
        from_account_pubkey,
        config_account_pubkey,
        lamports,
        max_space,
        keys,
        data,
    )
}

} // verus!
