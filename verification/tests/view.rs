use config_program::instruction::serialize_with_data;
use config_program::pubkey::Pubkey;
use config_program::short_vec::DecodeError;
use config_program::view::ConfigKeysView;

fn key(n: u8) -> Pubkey {
    let mut bytes = [n; 32];
    bytes[3] = 0x33;
    Pubkey::new_from_array(bytes)
}

#[test]
fn view_shows_the_entries_in_place() {
    let keys = vec![(key(1), true), (key(2), false), (key(3), true)];
    let data = serialize_with_data(keys.clone(), &[0xaa; 5]);
    let view = ConfigKeysView::new(&data).unwrap();
    assert_eq!(view.len(), 3);
    assert!(!view.is_empty());
    for (index, (expected, flag)) in keys.iter().enumerate() {
        assert_eq!(view.key(index), &expected.to_bytes()[..]);
        assert_eq!(view.is_signer(index), *flag);
        assert_eq!(view.get(index), Some((&expected.to_bytes()[..], *flag)));
    }
    assert_eq!(view.get(3), None);
    // The key is a part of the record's own bytes.
    assert!(std::ptr::eq(view.key(1).as_ptr(), data[34..].as_ptr()));
}

#[test]
fn view_finds_signers() {
    let keys = vec![(key(1), true), (key(2), false), (key(3), true)];
    let data = serialize_with_data(keys, &[]);
    let view = ConfigKeysView::new(&data).unwrap();
    assert!(view.has_signer(&key(1)));
    assert!(!view.has_signer(&key(2)));
    assert!(view.has_signer(&key(3)));
    assert!(!view.has_signer(&key(4)));
}

#[test]
fn view_of_an_empty_list() {
    let view = ConfigKeysView::new(&[0, 1, 2, 3]).unwrap();
    assert_eq!(view.len(), 0);
    assert!(view.is_empty());
    assert_eq!(view.get(0), None);
    assert!(!view.has_signer(&key(1)));
}

#[test]
fn view_of_a_list_with_a_long_prefix() {
    let keys: Vec<(Pubkey, bool)> = (0..130).map(|n| (key(n), n == 129)).collect();
    let data = serialize_with_data(keys, &[]);
    let view = ConfigKeysView::new(&data).unwrap();
    assert_eq!(view.len(), 130);
    assert_eq!(view.key(129), &key(129).to_bytes()[..]);
    assert!(view.has_signer(&key(129)));
    assert!(!view.has_signer(&key(128)));
}

#[test]
fn view_gives_each_error() {
    let data = serialize_with_data(vec![(key(1), true)], &[]);
    assert_eq!(
        ConfigKeysView::new(&data[..33]).err(),
        Some(DecodeError::Truncated)
    );
    assert_eq!(ConfigKeysView::new(&[]).err(), Some(DecodeError::Truncated));
    assert_eq!(
        ConfigKeysView::new(&[0x80, 0x00]).err(),
        Some(DecodeError::NonCanonical)
    );
    assert_eq!(
        ConfigKeysView::new(&[0x80, 0x80, 0x80, 0x00]).err(),
        Some(DecodeError::Overflow)
    );
    let mut bad = data.clone();
    bad[33] = 7;
    assert_eq!(
        ConfigKeysView::new(&bad).err(),
        Some(DecodeError::InvalidFlag)
    );
    // A length that the bytes cannot back.
    let mut bad = data;
    bad[0] = 0xff;
    bad[1] = 0x7f;
    assert_eq!(
        ConfigKeysView::new(&bad).err(),
        Some(DecodeError::Truncated)
    );
}
