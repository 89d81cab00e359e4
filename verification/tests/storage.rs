use votings_service::ballot::EncryptedChoice;
use votings_service::keys::{PublicKey, TxHash};
use votings_service::storage::{BallotsStorage, BallotsStorageError};

fn key(n: u8) -> PublicKey {
    PublicKey([n; 32])
}

fn tx(n: u8) -> TxHash {
    TxHash([n; 32])
}

fn choice(n: u8) -> EncryptedChoice {
    EncryptedChoice::new(vec![n, n, n], [n; 24], [n; 32])
}

/// A packed `Choices` message with the given small option numbers.
fn message(choices: &[u8]) -> Vec<u8> {
    let mut m = vec![0x0a, choices.len() as u8];
    m.extend_from_slice(choices);
    m
}

fn storage_with_voters(voters: &[u8]) -> BallotsStorage {
    let mut s = BallotsStorage::instantiate("voting".to_string());
    for v in voters {
        s.add_voter_to_voters_list(key(*v));
    }
    s
}

#[test]
fn a_new_storage_is_empty() {
    let s = BallotsStorage::instantiate("voting".to_string());
    assert!(s.get_ballot_by_index(0).is_none());
    assert!(s.get_ballot_by_store_tx_hash(tx(1)).is_none());
    assert!(s.get_invalid_ballots().is_empty());
    assert!(s.get_stored_ballots_amount().is_empty());
    assert!(s.get_voting_results().is_empty());
    let st = s.get_decryption_statistics();
    assert_eq!(st.decrypted_ballots_amount, 0);
    assert_eq!(st.invalid_ballots_amount, 0);
}

#[test]
fn a_voter_not_on_the_list_cannot_vote() {
    let mut s = storage_with_voters(&[1]);
    assert_eq!(
        s.store_ballot(key(2), 1, choice(1), tx(1)),
        Err(BallotsStorageError::VoterNotInList)
    );
    assert!(s.get_ballot_by_index(0).is_none());
}

#[test]
fn a_voter_votes_once() {
    let mut s = storage_with_voters(&[1]);
    assert_eq!(s.store_ballot(key(1), 7, choice(1), tx(1)), Ok(()));
    assert_eq!(
        s.store_ballot(key(1), 7, choice(2), tx(2)),
        Err(BallotsStorageError::VoterAlreadyVoted)
    );
    s.add_voter_to_voters_list(key(1));
    assert_eq!(
        s.store_ballot(key(1), 7, choice(2), tx(3)),
        Err(BallotsStorageError::VoterAlreadyVoted)
    );
    assert!(s.get_ballot_by_index(1).is_none());
    assert_eq!(s.get_stored_ballots_amount().get(&7), Some(&1));
}

#[test]
fn a_stored_ballot_reads_back() {
    let mut s = storage_with_voters(&[1, 2]);
    s.store_ballot(key(1), 7, choice(1), tx(11)).unwrap();
    s.store_ballot(key(2), 8, choice(2), tx(12)).unwrap();
    let b = s.get_ballot_by_store_tx_hash(tx(12)).unwrap();
    assert_eq!(b.index, 1);
    assert_eq!(b.voter, key(2));
    assert_eq!(b.district_id, 8);
    assert_eq!(b.encrypted_choice.encrypted_message, vec![2, 2, 2]);
    assert_eq!(b.decrypted_choices, None);
    assert_eq!(b.decrypt_tx_hash, None);
    assert!(!b.invalid);
    let first = s.get_ballot_by_index(0).unwrap();
    assert_eq!(first.store_tx_hash, tx(11));
    assert_eq!(first.voter, key(1));
}

#[test]
fn ballots_are_counted_per_district() {
    let mut s = storage_with_voters(&[1, 2, 3]);
    s.store_ballot(key(1), 7, choice(1), tx(1)).unwrap();
    s.store_ballot(key(2), 7, choice(2), tx(2)).unwrap();
    s.store_ballot(key(3), 9, choice(3), tx(3)).unwrap();
    let counts = s.get_stored_ballots_amount();
    assert_eq!(counts.len(), 2);
    assert_eq!(counts.get(&7), Some(&2));
    assert_eq!(counts.get(&9), Some(&1));
}

#[test]
fn decrypting_a_missing_ballot_fails() {
    let mut s = storage_with_voters(&[1]);
    assert_eq!(
        s.decrypt_ballot(0, Some(message(&[1])), tx(9), &vec![1, 2], 1, 1),
        Err(BallotsStorageError::BallotNotFound)
    );
    assert_eq!(s.get_decryption_statistics().invalid_ballots_amount, 0);
}

#[test]
fn a_valid_ballot_is_decrypted() {
    let mut s = storage_with_voters(&[1]);
    s.store_ballot(key(1), 7, choice(1), tx(1)).unwrap();
    assert_eq!(s.decrypt_ballot(0, Some(message(&[2, 0, 3])), tx(9), &vec![1, 2, 3], 1, 2), Ok(()));
    let b = s.get_ballot_by_index(0).unwrap();
    assert_eq!(b.decrypted_choices, Some(vec![2, 3]));
    assert_eq!(b.decrypt_tx_hash, Some(tx(9)));
    assert!(!b.invalid);
    let st = s.get_decryption_statistics();
    assert_eq!(st.decrypted_ballots_amount, 1);
    assert_eq!(st.invalid_ballots_amount, 0);
    assert!(s.get_invalid_ballots().is_empty());
}

#[test]
fn a_message_that_could_not_be_opened_makes_the_ballot_invalid() {
    let mut s = storage_with_voters(&[1]);
    s.store_ballot(key(1), 7, choice(1), tx(1)).unwrap();
    assert_eq!(s.decrypt_ballot(0, None, tx(9), &vec![1, 2, 3], 1, 2), Ok(()));
    let b = s.get_ballot_by_index(0).unwrap();
    assert!(b.invalid);
    assert_eq!(b.decrypted_choices, None);
    assert_eq!(b.decrypt_tx_hash, Some(tx(9)));
    let st = s.get_decryption_statistics();
    assert_eq!(st.decrypted_ballots_amount, 0);
    assert_eq!(st.invalid_ballots_amount, 1);
    let invalid = s.get_invalid_ballots();
    assert_eq!(invalid.len(), 1);
    assert_eq!(invalid[0].store_tx_hash, tx(1));
}

#[test]
fn choices_that_break_the_rules_make_the_ballot_invalid() {
    let mut s = storage_with_voters(&[1, 2, 3]);
    s.store_ballot(key(1), 7, choice(1), tx(1)).unwrap();
    s.store_ballot(key(2), 7, choice(2), tx(2)).unwrap();
    s.store_ballot(key(3), 7, choice(3), tx(3)).unwrap();
    // An option that does not exist.
    s.decrypt_ballot(0, Some(message(&[5])), tx(9), &vec![1, 2, 3], 1, 2).unwrap();
    // Only blank choices: fewer than the minimum.
    s.decrypt_ballot(1, Some(message(&[0, 0])), tx(9), &vec![1, 2, 3], 1, 2).unwrap();
    // The same option twice.
    s.decrypt_ballot(2, Some(message(&[1, 2, 1])), tx(9), &vec![1, 2, 3], 1, 3).unwrap();
    let st = s.get_decryption_statistics();
    assert_eq!(st.invalid_ballots_amount, 3);
    let invalid = s.get_invalid_ballots();
    assert_eq!(invalid.len(), 3);
    assert_eq!(invalid[2].index, 2);
}

#[test]
fn decoded_choices_are_applied_as_given() {
    let mut s = storage_with_voters(&[1]);
    s.store_ballot(key(1), 7, choice(1), tx(1)).unwrap();
    assert_eq!(
        s.apply_decrypted_choices(0, Some(vec![0, 1, 2]), tx(5), &vec![1, 2], 2, 2),
        Ok(())
    );
    assert_eq!(s.get_ballot_by_index(0).unwrap().decrypted_choices, Some(vec![1, 2]));
    assert_eq!(
        s.apply_decrypted_choices(3, Some(vec![1]), tx(5), &vec![1, 2], 1, 1),
        Err(BallotsStorageError::BallotNotFound)
    );
}

#[test]
fn no_choices_allowed_reads_back_as_none() {
    let mut s = storage_with_voters(&[1]);
    s.store_ballot(key(1), 7, choice(1), tx(1)).unwrap();
    s.apply_decrypted_choices(0, Some(vec![]), tx(5), &vec![1, 2], 0, 2).unwrap();
    let b = s.get_ballot_by_index(0).unwrap();
    assert_eq!(b.decrypted_choices, None);
    assert!(!b.invalid);
    assert_eq!(s.get_decryption_statistics().decrypted_ballots_amount, 1);
}

#[test]
fn results_are_tallied_per_district() {
    let mut s = storage_with_voters(&[1, 2, 3, 4]);
    s.store_ballot(key(1), 7, choice(1), tx(1)).unwrap();
    s.store_ballot(key(2), 7, choice(2), tx(2)).unwrap();
    s.store_ballot(key(3), 8, choice(3), tx(3)).unwrap();
    s.store_ballot(key(4), 7, choice(4), tx(4)).unwrap();
    s.decrypt_ballot(0, Some(message(&[1, 2])), tx(9), &vec![1, 2, 3], 1, 2).unwrap();
    s.decrypt_ballot(1, Some(message(&[2])), tx(9), &vec![1, 2, 3], 1, 2).unwrap();
    s.decrypt_ballot(2, Some(message(&[3])), tx(9), &vec![1, 2, 3], 1, 2).unwrap();
    s.decrypt_ballot(3, None, tx(9), &vec![1, 2, 3], 1, 2).unwrap();
    s.tally_results();
    let results = s.get_voting_results();
    assert_eq!(results.len(), 2);
    let d7 = results.get(&7).unwrap();
    assert_eq!(d7.district_id, 7);
    assert_eq!(d7.invalid_ballots_amount, 1);
    assert_eq!(d7.tally.len(), 2);
    assert_eq!(d7.tally.get(&1), Some(&1));
    assert_eq!(d7.tally.get(&2), Some(&2));
    let d8 = results.get(&8).unwrap();
    assert_eq!(d8.invalid_ballots_amount, 0);
    assert_eq!(d8.tally.get(&3), Some(&1));
    assert_eq!(d8.tally.len(), 1);
}

#[test]
fn tallying_twice_changes_nothing() {
    let mut s = storage_with_voters(&[1, 2]);
    s.store_ballot(key(1), 7, choice(1), tx(1)).unwrap();
    s.store_ballot(key(2), 7, choice(2), tx(2)).unwrap();
    s.decrypt_ballot(0, Some(message(&[1])), tx(9), &vec![1, 2], 1, 1).unwrap();
    s.decrypt_ballot(1, Some(message(&[1])), tx(9), &vec![1, 2], 1, 1).unwrap();
    s.tally_results();
    s.tally_results();
    let results = s.get_voting_results();
    assert_eq!(results.get(&7).unwrap().tally.get(&1), Some(&2));
}

#[test]
fn undecrypted_ballots_count_for_nothing_but_their_district() {
    let mut s = storage_with_voters(&[1]);
    s.store_ballot(key(1), 4, choice(1), tx(1)).unwrap();
    s.tally_results();
    let results = s.get_voting_results();
    let d4 = results.get(&4).unwrap();
    assert!(d4.tally.is_empty());
    assert_eq!(d4.invalid_ballots_amount, 0);
}

#[test]
fn a_reused_storing_transaction_points_to_the_later_ballot() {
    let mut s = storage_with_voters(&[1, 2]);
    s.store_ballot(key(1), 7, choice(1), tx(5)).unwrap();
    s.store_ballot(key(2), 8, choice(2), tx(5)).unwrap();
    let b = s.get_ballot_by_store_tx_hash(tx(5)).unwrap();
    assert_eq!(b.index, 1);
    assert_eq!(b.voter, key(2));
    assert_eq!(s.get_ballot_by_index(0).unwrap().voter, key(1));
}

#[test]
fn decrypting_with_room_in_the_statistics() {
    let mut s = storage_with_voters(&[1]);
    s.store_ballot(key(1), 7, choice(1), tx(1)).unwrap();
    assert_eq!(
        s.decrypt_ballot_if_room(4, Some(message(&[1])), tx(9), &vec![1, 2], 1, 1),
        Some(Err(BallotsStorageError::BallotNotFound))
    );
    assert_eq!(
        s.decrypt_ballot_if_room(0, Some(message(&[2])), tx(9), &vec![1, 2], 1, 1),
        Some(Ok(()))
    );
    assert_eq!(s.get_ballot_by_index(0).unwrap().decrypted_choices, Some(vec![2]));
    assert_eq!(s.get_decryption_statistics().decrypted_ballots_amount, 1);
}

#[test]
fn a_ballot_with_an_option_chosen_twice_is_invalid() {
    let mut s = storage_with_voters(&[1]);
    s.store_ballot(key(1), 7, choice(1), tx(1)).unwrap();
    s.decrypt_ballot(0, Some(message(&[1, 2, 1])), tx(9), &vec![1, 2], 1, 3).unwrap();
    assert!(s.get_ballot_by_index(0).unwrap().invalid);
}
