use frame_storage::store::MemoryStore;
use frame_storage::sudo::{
    stored_sudo_key, CheckOnlySudoAccount, InvalidTransaction, TransactionValidityError, UnknownTransaction,
    CHECK_ONLY_SUDO_ACCOUNT_IDENTIFIER,
};

#[test]
fn new_is_default() {
    assert_eq!(CheckOnlySudoAccount::new(), CheckOnlySudoAccount::default());
    assert_eq!(format!("{:?}", CheckOnlySudoAccount::new()), CHECK_ONLY_SUDO_ACCOUNT_IDENTIFIER);
}

#[test]
fn sudo_signer_is_valid() {
    let sudo = [1u8; 32];
    let hash = [9u8; 32];
    let v = CheckOnlySudoAccount::new().validate(Some(&sudo), Some(&sudo), &hash, 1234).unwrap();
    assert_eq!(v.priority, 1234);
    assert_eq!(v.provides, vec![[sudo.to_vec(), hash.to_vec()].concat()]);
    assert!(v.requires.is_empty());
    assert_eq!(v.longevity, u64::MAX);
    assert!(v.propagate);
}

#[test]
fn other_signer_is_bad() {
    let r = CheckOnlySudoAccount::new().validate(Some(&[2u8; 32]), Some(&[1u8; 32]), &[0u8; 32], 1);
    assert_eq!(r.err(), Some(TransactionValidityError::Invalid(InvalidTransaction::BadSigner)));
}

#[test]
fn unsigned_is_bad_signer() {
    let r = CheckOnlySudoAccount::new().validate(None, Some(&[1u8; 32]), &[0u8; 32], 1);
    assert_eq!(r.err(), Some(TransactionValidityError::Invalid(InvalidTransaction::BadSigner)));
}

#[test]
fn missing_sudo_key_cannot_lookup() {
    let r = CheckOnlySudoAccount::new().validate(Some(&[1u8; 32]), None, &[0u8; 32], 1);
    assert_eq!(r.err(), Some(TransactionValidityError::Unknown(UnknownTransaction::CannotLookup)));
}

#[test]
fn validate_reads_sudo_key_from_store() {
    let mut store = MemoryStore::new();
    let check = CheckOnlySudoAccount::new();
    let sudo = [5u8; 32];
    let r = check.validate_in_store(&store, b"Sudo", Some(&sudo), &[1u8; 32], 3);
    assert_eq!(r.err(), Some(TransactionValidityError::Unknown(UnknownTransaction::CannotLookup)));
    let key = [
        0x5c, 0x0d, 0x11, 0x76, 0xa5, 0x68, 0xc1, 0xf9, 0x29, 0x44, 0x34, 0x0d, 0xbf, 0xed, 0x9e,
        0x9c, 0x53, 0x0e, 0xbc, 0xa7, 0x03, 0xc8, 0x59, 0x10, 0xe7, 0x16, 0x4c, 0xb7, 0xd1, 0xc9,
        0xe4, 0x7b,
    ];
    store.put(&key, &sudo);
    assert_eq!(stored_sudo_key(&store, b"Sudo"), Some(sudo.to_vec()));
    let v = check.validate_in_store(&store, b"Sudo", Some(&sudo), &[1u8; 32], 3).unwrap();
    assert_eq!(v.priority, 3);
    assert_eq!(v.provides, vec![[sudo.to_vec(), vec![1u8; 32]].concat()]);
    let r = check.validate_in_store(&store, b"Sudo", Some(&[6u8; 32]), &[1u8; 32], 3);
    assert_eq!(r.err(), Some(TransactionValidityError::Invalid(InvalidTransaction::BadSigner)));
    let r = check.validate_in_store(&store, b"Sudo", None, &[1u8; 32], 3);
    assert_eq!(r.err(), Some(TransactionValidityError::Invalid(InvalidTransaction::BadSigner)));
}
