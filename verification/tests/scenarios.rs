use config_program::error::ProcessError;
use config_program::instruction::serialize_with_data;
use config_program::processor::{
    process, safe_deserialize_config_keys, safe_deserialize_config_keys_from_state, validate,
    AccountInfo, MAX_INPUT_LEN, MAX_VECTOR_LEN,
};
use config_program::pubkey::Pubkey;

fn key(n: u8) -> Pubkey {
    Pubkey::new_from_array([n; 32])
}

fn processor() -> Pubkey {
    key(200)
}

fn record(keys: Vec<(Pubkey, bool)>, payload: &[u8], is_signer: bool) -> AccountInfo {
    AccountInfo {
        key: key(1),
        is_signer,
        owner: processor(),
        data: serialize_with_data(keys, payload),
    }
}

fn cosigner(n: u8, is_signer: bool) -> AccountInfo {
    AccountInfo {
        key: key(n),
        is_signer,
        owner: key(0),
        data: vec![],
    }
}

#[test]
fn record_without_signers_is_updated_by_its_own_signature() {
    let mut accounts = vec![record(vec![], &[0; 8], true)];
    let input = serialize_with_data(vec![(key(9), false)], &[]);
    assert_eq!(input.len(), 34);
    accounts[0].data = vec![0xff; 40];
    accounts[0].data[0] = 0;
    assert_eq!(process(&processor(), &mut accounts, &input), Ok(()));
    assert_eq!(accounts[0].data[..34], input[..]);
    assert_eq!(accounts[0].data[34..], [0xff; 6]);
}

#[test]
fn record_without_signers_needs_its_own_signature() {
    let mut accounts = vec![record(vec![(key(9), false)], &[0; 8], false)];
    let before = accounts.clone();
    let input = serialize_with_data(vec![], &[7; 8]);
    assert_eq!(
        process(&processor(), &mut accounts, &input),
        Err(ProcessError::MissingRequiredSignature)
    );
    assert_eq!(accounts, before);
}

#[test]
fn signers_resubmitted_at_matching_positions() {
    let keys = vec![(key(2), true), (key(3), true)];
    let mut accounts = vec![
        record(keys.clone(), &[0; 8], false),
        cosigner(2, true),
        cosigner(3, true),
    ];
    let input = serialize_with_data(keys, &[1, 2, 3, 4, 5, 6, 7, 8]);
    assert_eq!(process(&processor(), &mut accounts, &input), Ok(()));
    assert_eq!(accounts[0].data, input);
}

#[test]
fn signer_account_missing() {
    let keys = vec![(key(2), true), (key(3), true)];
    let mut accounts = vec![record(keys.clone(), &[0; 8], false), cosigner(2, true)];
    let before = accounts.clone();
    let input = serialize_with_data(keys, &[1, 2, 3, 4, 5, 6, 7, 8]);
    assert_eq!(
        process(&processor(), &mut accounts, &input),
        Err(ProcessError::MissingRequiredSignature)
    );
    assert_eq!(accounts, before);
}

#[test]
fn signers_at_swapped_positions() {
    let keys = vec![(key(2), true), (key(3), true)];
    let mut accounts = vec![
        record(keys.clone(), &[0; 8], false),
        cosigner(3, true),
        cosigner(2, true),
    ];
    let input = serialize_with_data(keys, &[0; 8]);
    assert_eq!(
        process(&processor(), &mut accounts, &input),
        Err(ProcessError::MissingRequiredSignature)
    );
}

#[test]
fn same_pair_twice() {
    let keys = vec![(key(2), true), (key(2), true)];
    let mut accounts = vec![
        record(vec![], &[0; 80], true),
        cosigner(2, true),
        cosigner(2, true),
    ];
    let before = accounts.clone();
    let input = serialize_with_data(keys, &[]);
    assert_eq!(
        process(&processor(), &mut accounts, &input),
        Err(ProcessError::DuplicateAuthorizationEntry)
    );
    assert_eq!(accounts, before);
}

#[test]
fn same_key_with_both_flags_is_no_duplicate() {
    let keys = vec![(key(2), false), (key(2), true)];
    let mut accounts = vec![record(vec![], &[0; 80], true), cosigner(2, true)];
    let input = serialize_with_data(keys, &[]);
    assert_eq!(process(&processor(), &mut accounts, &input), Ok(()));
}

#[test]
fn update_longer_than_record() {
    let mut accounts = vec![record(vec![], &[0; 8], true)];
    assert_eq!(accounts[0].data.len(), 9);
    let before = accounts.clone();
    let input = serialize_with_data(vec![], &[0; 9]);
    assert_eq!(
        process(&processor(), &mut accounts, &input),
        Err(ProcessError::RequestTooLarge)
    );
    assert_eq!(accounts, before);
    let input = serialize_with_data(vec![], &[5; 8]);
    assert_eq!(process(&processor(), &mut accounts, &input), Ok(()));
    assert_eq!(accounts[0].data, input);
}

#[test]
fn record_of_another_owner() {
    let mut accounts = vec![record(vec![], &[0; 8], true)];
    accounts[0].owner = key(77);
    let before = accounts.clone();
    let input = serialize_with_data(vec![], &[0; 8]);
    assert_eq!(
        process(&processor(), &mut accounts, &input),
        Err(ProcessError::InvalidOwner)
    );
    assert_eq!(accounts, before);
}

#[test]
fn no_accounts() {
    let input = serialize_with_data(vec![], &[0; 8]);
    assert_eq!(
        process(&processor(), &mut [], &input),
        Err(ProcessError::MissingAccounts)
    );
}

#[test]
fn malformed_update_comes_before_missing_accounts() {
    assert_eq!(
        process(&processor(), &mut [], &[0x80, 0x00]),
        Err(ProcessError::InvalidRequestData)
    );
    assert_eq!(
        process(&processor(), &mut [], &[1, 0]),
        Err(ProcessError::InvalidRequestData)
    );
}

#[test]
fn record_with_a_bad_flag_byte() {
    let mut accounts = vec![record(vec![(key(2), true)], &[0; 8], true)];
    accounts[0].data[33] = 2;
    let input = serialize_with_data(vec![], &[]);
    assert_eq!(
        process(&processor(), &mut accounts, &input),
        Err(ProcessError::InvalidStoredData)
    );
}

#[test]
fn update_with_a_bad_flag_byte() {
    let mut accounts = vec![record(vec![], &[0; 80], true)];
    let mut input = serialize_with_data(vec![(key(2), false)], &[]);
    input[33] = 2;
    assert_eq!(
        process(&processor(), &mut accounts, &input),
        Err(ProcessError::InvalidRequestData)
    );
}

#[test]
fn new_signer_must_be_among_the_record_signers() {
    let mut accounts = vec![
        record(vec![(key(2), true)], &[0; 80], true),
        cosigner(4, true),
    ];
    let input = serialize_with_data(vec![(key(4), true)], &[]);
    assert_eq!(
        process(&processor(), &mut accounts, &input),
        Err(ProcessError::MissingRequiredSignature)
    );
}

#[test]
fn record_without_signers_takes_any_new_signer() {
    let mut accounts = vec![
        record(vec![(key(2), false)], &[0; 80], true),
        cosigner(4, true),
    ];
    let input = serialize_with_data(vec![(key(4), true)], &[]);
    assert_eq!(process(&processor(), &mut accounts, &input), Ok(()));
    assert_eq!(accounts[0].data[..34], input[..]);
}

#[test]
fn the_record_counts_as_a_position() {
    // The record is the first signer of the list, so the second signer is
    // looked for at the third place.
    let keys = vec![(key(1), true), (key(2), true)];
    let mut accounts = vec![record(vec![], &[0; 80], true), cosigner(2, true)];
    let input = serialize_with_data(keys.clone(), &[]);
    assert_eq!(
        process(&processor(), &mut accounts, &input),
        Err(ProcessError::MissingRequiredSignature)
    );
    let mut accounts = vec![
        record(vec![], &[0; 80], true),
        cosigner(9, false),
        cosigner(2, true),
    ];
    assert_eq!(process(&processor(), &mut accounts, &input), Ok(()));
}

#[test]
fn fewer_signers_than_the_record_has() {
    let mut accounts = vec![
        record(vec![(key(2), true), (key(3), true)], &[0; 8], false),
        cosigner(2, true),
    ];
    let input = serialize_with_data(vec![(key(2), true)], &[]);
    assert_eq!(
        process(&processor(), &mut accounts, &input),
        Err(ProcessError::MissingRequiredSignature)
    );
}

#[test]
fn validate_writes_nothing_and_agrees_with_process() {
    let keys = vec![(key(2), true)];
    let mut accounts = vec![record(keys.clone(), &[0; 8], false), cosigner(2, true)];
    let before = accounts.clone();
    let input = serialize_with_data(keys, &[9; 8]);
    assert_eq!(validate(&processor(), &accounts, &input), Ok(()));
    assert_eq!(accounts, before);
    assert_eq!(process(&processor(), &mut accounts, &input), Ok(()));
    assert_ne!(accounts, before);
}

#[test]
fn limits() {
    assert_eq!(MAX_INPUT_LEN, 1232);
    assert_eq!(MAX_VECTOR_LEN, 37);
    assert_eq!(MAX_VECTOR_LEN, (MAX_INPUT_LEN - 3) / 33);
}

#[test]
fn request_list_is_capped_and_record_list_is_not() {
    let keys: Vec<(Pubkey, bool)> = (0..38).map(|n| (key(n), false)).collect();
    let bytes = serialize_with_data(keys.clone(), &[]);
    assert_eq!(
        safe_deserialize_config_keys(&bytes).map(|list| list.keys),
        Err(ProcessError::InvalidRequestData)
    );
    assert_eq!(
        safe_deserialize_config_keys_from_state(&bytes).map(|list| list.keys),
        Ok(keys.clone())
    );
    let bytes = serialize_with_data(keys[..37].to_vec(), &[1, 2, 3]);
    assert_eq!(
        safe_deserialize_config_keys(&bytes).map(|list| list.keys),
        Ok(keys[..37].to_vec())
    );
}

#[test]
fn record_list_with_a_long_prefix() {
    let keys: Vec<(Pubkey, bool)> = (0..200).map(|n| (key(n), n % 3 == 0)).collect();
    let mut bytes = serialize_with_data(keys.clone(), &[]);
    assert_eq!(bytes[..2], [0xc8, 0x01]);
    assert_eq!(
        safe_deserialize_config_keys_from_state(&bytes).map(|list| list.keys),
        Ok(keys)
    );
    bytes.pop();
    assert_eq!(
        safe_deserialize_config_keys_from_state(&bytes).map(|list| list.keys),
        Err(ProcessError::InvalidStoredData)
    );
    assert_eq!(
        safe_deserialize_config_keys_from_state(&[0x80, 0x00]).map(|list| list.keys),
        Err(ProcessError::InvalidStoredData)
    );
    assert_eq!(
        safe_deserialize_config_keys_from_state(&[]).map(|list| list.keys),
        Err(ProcessError::InvalidStoredData)
    );
}

#[test]
fn rewrite_of_the_same_data_is_accepted() {
    let mut accounts = vec![record(vec![], &[4; 8], true)];
    let before = accounts.clone();
    let input = serialize_with_data(vec![], &[4; 8]);
    assert_eq!(process(&processor(), &mut accounts, &input), Ok(()));
    assert_eq!(accounts, before);
}
