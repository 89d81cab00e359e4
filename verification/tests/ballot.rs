use votings_service::ballot::{Ballot, BallotSchema, EncryptedChoice, EncryptedChoiceSchema};
use votings_service::keys::{PublicKey, TxHash};

fn choice() -> EncryptedChoice {
    EncryptedChoice::new(vec![1, 2, 3], [7u8; 24], [9u8; 32])
}

fn record(decrypted: Vec<u32>, decrypt_tx: TxHash) -> BallotSchema {
    BallotSchema {
        index: 3,
        voter: PublicKey([1u8; 32]),
        district_id: 5,
        encrypted_choice: EncryptedChoiceSchema::from(choice()),
        decrypted_choices: decrypted,
        store_tx_hash: TxHash([2u8; 32]),
        decrypt_tx_hash: decrypt_tx,
        invalid: false,
    }
}

#[test]
fn zero_hash_is_all_zero() {
    assert_eq!(TxHash::zero().0, [0u8; 32]);
    assert!(TxHash::zero().is_zero());
    let mut h = [0u8; 32];
    h[31] = 1;
    assert!(!TxHash(h).is_zero());
}

#[test]
fn keys_compare_by_bytes() {
    assert_eq!(PublicKey([4u8; 32]), PublicKey([4u8; 32]));
    let mut k = [4u8; 32];
    k[0] = 5;
    assert_ne!(PublicKey([4u8; 32]), PublicKey(k));
}

#[test]
fn an_undecrypted_record_reads_back_without_choices_or_decryption() {
    let b = Ballot::from(record(vec![], TxHash::zero()));
    assert_eq!(b.index, 3);
    assert_eq!(b.district_id, 5);
    assert_eq!(b.decrypted_choices, None);
    assert_eq!(b.decrypt_tx_hash, None);
    assert_eq!(b.encrypted_choice.encrypted_message, vec![1, 2, 3]);
    assert_eq!(b.encrypted_choice.nonce, [7u8; 24]);
}

#[test]
fn a_decrypted_record_reads_back_with_choices_and_decryption() {
    let b = Ballot::from(record(vec![4, 2], TxHash([6u8; 32])));
    assert_eq!(b.decrypted_choices, Some(vec![4, 2]));
    assert_eq!(b.decrypt_tx_hash, Some(TxHash([6u8; 32])));
}

#[test]
fn a_new_ballot_is_stored_with_empty_choices_and_the_zero_hash() {
    let b = Ballot::new(1, PublicKey([1u8; 32]), 2, choice(), TxHash([3u8; 32]));
    let s = b.into_schema();
    assert_eq!(s.index, 1);
    assert_eq!(s.decrypted_choices, Vec::<u32>::new());
    assert!(s.decrypt_tx_hash.is_zero());
    assert!(!s.invalid);
    assert_eq!(s.encrypted_choice.public_key, [9u8; 32]);
}

#[test]
fn a_record_survives_reading_and_storing() {
    let s = Ballot::from(record(vec![4, 2], TxHash([6u8; 32]))).into_schema();
    assert_eq!(s.decrypted_choices, vec![4, 2]);
    assert_eq!(s.decrypt_tx_hash, TxHash([6u8; 32]));
    let s = Ballot::from(record(vec![], TxHash::zero())).into_schema();
    assert_eq!(s.decrypted_choices, Vec::<u32>::new());
    assert!(s.decrypt_tx_hash.is_zero());
}

#[test]
fn an_empty_list_of_choices_does_not_survive_storing() {
    let mut b = Ballot::new(1, PublicKey([1u8; 32]), 2, choice(), TxHash([3u8; 32]));
    b.decrypted_choices = Some(vec![]);
    b.decrypt_tx_hash = Some(TxHash::zero());
    let back = Ballot::from(b.into_schema());
    assert_eq!(back.decrypted_choices, None);
    assert_eq!(back.decrypt_tx_hash, None);
}

#[test]
fn encrypted_choices_convert_both_ways() {
    let s = EncryptedChoiceSchema::from(choice());
    let c = EncryptedChoice::from(s);
    assert_eq!(c.encrypted_message, vec![1, 2, 3]);
    assert_eq!(c.nonce, [7u8; 24]);
    assert_eq!(c.public_key, [9u8; 32]);
}
