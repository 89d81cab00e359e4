//! The ballots of one voting: its voters list, the stored ballots, the
//! indexes kept over them, the decryption statistics and the results.
use std::collections::HashMap;
use vstd::prelude::*;

use crate::assoc::KeyedList;
use crate::ballot::{
    ballot_of_record, record_of_ballot, Ballot, BallotSchema, BallotSchemaView, BallotView,
    DecryptionStatistics, EncryptedChoice, EncryptedChoiceSchema, EncryptedChoiceView,
    VotingResults, VotingResultsView,
};
use crate::choices::{choices_verdict, drop_blank_choices, nonblank, validate_decrypted_choices};
use crate::decode::{choices_in, decode_choices};
use crate::keys::{zero_hash, PublicKey, TxHash};
use crate::tally::{in_district, lemma_in_district_step, lemma_take_step, results_view, tally_ballots, tally_fits, tally_of};

verus! {

broadcast use vstd::std_specs::hash::group_hash_axioms;

/// Why an operation on the ballots of a voting was refused.
#[derive(Clone, Copy, Debug, PartialEq, Eq, Structural)]
pub enum BallotsStorageError {
    /// The voter is not on the voting's voters list.
    VoterNotInList,
    /// The voter already stored a ballot.
    VoterAlreadyVoted,
    /// No ballot has the given index.
    BallotNotFound,
}

/// The ballots of one voting, with the indexes kept over them.
pub struct BallotsStorage {
    voting_id: String,
    voters: KeyedList<PublicKey, bool>,
    ballots: Vec<BallotSchema>,
    ballot_by_store_tx: KeyedList<TxHash, u64>,
    invalid_ballots: Vec<TxHash>,
    stored_ballots_counter: HashMap<u32, u32>,
    decryption_statistics: Option<DecryptionStatistics>,
    results: HashMap<u32, VotingResults>,
}

/// The content of the storage of a voting.
pub struct StorageView {
    pub voting_id: Seq<char>,
    /// The voters allowed to vote, each with whether it stored a ballot.
    pub voters: Map<PublicKey, bool>,
    /// The stored ballots, in the order they were stored.
    pub ballots: Seq<BallotSchemaView>,
    /// The position of the ballot that each storing transaction stored.
    pub ballot_by_store_tx: Map<TxHash, u64>,
    /// The storing transactions of the ballots found invalid, in order.
    pub invalid_ballots: Seq<TxHash>,
    /// How many ballots were stored in each district.
    pub stored_ballots_counter: Map<u32, u32>,
    /// The decryption statistics, once a ballot was decrypted.
    pub decryption_statistics: Option<DecryptionStatistics>,
    /// The results of each district, once tallied.
    pub results: Map<u32, VotingResultsView>,
}

impl View for BallotsStorage {
    type V = StorageView;

    closed spec fn view(&self) -> StorageView {
        StorageView {
            voting_id: self.voting_id@,
            voters: self.voters@,
            ballots: self.ballots@.map_values(|b: BallotSchema| b@),
            ballot_by_store_tx: self.ballot_by_store_tx@,
            invalid_ballots: self.invalid_ballots@,
            stored_ballots_counter: self.stored_ballots_counter@,
            decryption_statistics: self.decryption_statistics,
            results: results_view(self.results@),
        }
    }
}

/// The storage of a voting that nothing was stored in yet.
pub open spec fn empty_storage(voting_id: Seq<char>) -> StorageView {
    StorageView {
        voting_id,
        voters: Map::empty(),
        ballots: Seq::empty(),
        ballot_by_store_tx: Map::empty(),
        invalid_ballots: Seq::empty(),
        stored_ballots_counter: Map::empty(),
        decryption_statistics: None,
        results: Map::empty(),
    }
}

/// The content of an optional ballot.
pub open spec fn ballot_option_view(b: Option<Ballot>) -> Option<BallotView> {
    match b {
        Some(b) => Some(b@),
        None => None,
    }
}

/// The ballot at position `index`, as it reads back from storage.
pub open spec fn ballot_at(s: StorageView, index: u32) -> Option<BallotView> {
    if index < s.ballots.len() {
        Some(ballot_of_record(s.ballots[index as int]))
    } else {
        None
    }
}

/// The ballot stored by the transaction `store_tx_hash`. Its position is
/// kept as a 64-bit number and read as a 32-bit one.
pub open spec fn ballot_stored_by(s: StorageView, store_tx_hash: TxHash) -> Option<BallotView> {
    if s.ballot_by_store_tx.contains_key(store_tx_hash) {
        ballot_at(s, s.ballot_by_store_tx[store_tx_hash] as u32)
    } else {
        None
    }
}

/// The ballots stored by the transactions `hashes`, in their order, leaving
/// out those that no ballot is found for.
pub open spec fn ballots_stored_by(s: StorageView, hashes: Seq<TxHash>) -> Seq<BallotView>
    decreases hashes.len(),
{
    if hashes.len() == 0 {
        Seq::empty()
    } else {
        let rest = ballots_stored_by(s, hashes.drop_last());
        match ballot_stored_by(s, hashes.last()) {
            Some(b) => rest.push(b),
            None => rest,
        }
    }
}

/// The decryption statistics; all zero before any decryption.
pub open spec fn statistics_of(s: StorageView) -> DecryptionStatistics {
    match s.decryption_statistics {
        Some(st) => st,
        None => DecryptionStatistics { decrypted_ballots_amount: 0, invalid_ballots_amount: 0 },
    }
}

/// How many ballots were stored in district `d`.
pub open spec fn stored_count(s: StorageView, d: u32) -> u32 {
    if s.stored_ballots_counter.contains_key(d) {
        s.stored_ballots_counter[d]
    } else {
        0
    }
}

/// The storage once `voter` is on the voters list: a voter already there
/// keeps whether it voted.
pub open spec fn after_add_voter(s: StorageView, voter: PublicKey) -> StorageView {
    if s.voters.contains_key(voter) {
        s
    } else {
        StorageView { voters: s.voters.insert(voter, false), ..s }
    }
}

/// Whether `voter` may store a ballot: it is on the voters list and has not
/// voted yet.
pub open spec fn store_verdict(s: StorageView, voter: PublicKey) -> Result<(), BallotsStorageError> {
    if !s.voters.contains_key(voter) {
        Err(BallotsStorageError::VoterNotInList)
    } else if s.voters[voter] {
        Err(BallotsStorageError::VoterAlreadyVoted)
    } else {
        Ok(())
    }
}

/// The record of a ballot stored next: its position is the number of
/// ballots stored before, as a 32-bit number; it is neither decrypted nor
/// found invalid.
pub open spec fn new_ballot_record(
    s: StorageView,
    voter: PublicKey,
    district_id: u32,
    encrypted_choice: EncryptedChoiceView,
    store_tx_hash: TxHash,
) -> BallotSchemaView {
    BallotSchemaView {
        index: s.ballots.len() as u32,
        voter,
        district_id,
        encrypted_choice,
        decrypted_choices: Seq::empty(),
        store_tx_hash,
        decrypt_tx_hash: zero_hash(),
        invalid: false,
    }
}

/// The storage once `voter` stored a ballot: the voter is marked as having
/// voted, the ballot is appended, its storing transaction points to it, and
/// its district counts one more ballot.
pub open spec fn after_store(
    s: StorageView,
    voter: PublicKey,
    district_id: u32,
    encrypted_choice: EncryptedChoiceView,
    store_tx_hash: TxHash,
) -> StorageView {
    StorageView {
        voters: s.voters.insert(voter, true),
        ballots: s.ballots.push(
            new_ballot_record(s, voter, district_id, encrypted_choice, store_tx_hash),
        ),
        ballot_by_store_tx: s.ballot_by_store_tx.insert(
            store_tx_hash,
            (s.ballots.len() as u32) as u64,
        ),
        stored_ballots_counter: s.stored_ballots_counter.insert(
            district_id,
            (stored_count(s, district_id) + 1) as u32,
        ),
        ..s
    }
}

/// What decrypting a ballot yields: the choices read from the decrypted
/// message with the blank ones dropped, if the message could be opened and
/// those choices follow the voting's rules.
pub open spec fn decryption_outcome(
    decoded: Option<Seq<u32>>,
    options: Seq<u32>,
    min_choices: u32,
    max_choices: u32,
) -> Option<Seq<u32>> {
    match decoded {
        Some(d) => if choices_verdict(nonblank(d), options, min_choices, max_choices) is Ok {
            Some(nonblank(d))
        } else {
            None
        },
        None => None,
    }
}

/// The storage once the ballot at `index` was decrypted by the transaction
/// `decrypt_tx_hash` with the given outcome: with choices, the ballot keeps
/// them and counts as decrypted; without, it is marked invalid, counts as
/// invalid, and its storing transaction joins the list of invalid ballots.
pub open spec fn after_decryption(
    s: StorageView,
    index: u32,
    decrypt_tx_hash: TxHash,
    outcome: Option<Seq<u32>>,
) -> StorageView {
    let ballot = ballot_of_record(s.ballots[index as int]);
    let stats = statistics_of(s);
    let decrypted = BallotView { decrypt_tx_hash: Some(decrypt_tx_hash), ..ballot };
    match outcome {
        Some(choices) => StorageView {
            ballots: s.ballots.update(
                index as int,
                record_of_ballot(BallotView { decrypted_choices: Some(choices), ..decrypted }),
            ),
            decryption_statistics: Some(
                DecryptionStatistics {
                    decrypted_ballots_amount: (stats.decrypted_ballots_amount + 1) as u32,
                    ..stats
                },
            ),
            ..s
        },
        None => StorageView {
            ballots: s.ballots.update(
                index as int,
                record_of_ballot(BallotView { invalid: true, ..decrypted }),
            ),
            invalid_ballots: s.invalid_ballots.push(ballot.store_tx_hash),
            decryption_statistics: Some(
                DecryptionStatistics {
                    invalid_ballots_amount: (stats.invalid_ballots_amount + 1) as u32,
                    ..stats
                },
            ),
            ..s
        },
    }
}

/// The counter of the statistics that an outcome adds one to is below its
/// maximum.
pub open spec fn statistics_room(s: StorageView, outcome: Option<Seq<u32>>) -> bool {
    match outcome {
        Some(_) => statistics_of(s).decrypted_ballots_amount < u32::MAX,
        None => statistics_of(s).invalid_ballots_amount < u32::MAX,
    }
}

/// The storage once the results were tallied: the results of every district
/// that has ballots are replaced by the counts over all ballots; the results
/// of other districts stay.
pub open spec fn after_tally(s: StorageView) -> StorageView {
    StorageView { results: s.results.union_prefer_right(tally_of(s.ballots)), ..s }
}

/// The content of an optional list of choices.
pub open spec fn choices_option_view(o: Option<Vec<u32>>) -> Option<Seq<u32>> {
    match o {
        Some(v) => Some(v@),
        None => None,
    }
}

/// The choices read from an opened message, if there is one.
pub open spec fn message_choices(m: Option<Vec<u8>>) -> Option<Seq<u32>> {
    match m {
        Some(m) => Some(choices_in(m@)),
        None => None,
    }
}

/// The choices a decryption keeps out of the choices read from the opened
/// message (`None` if it could not be opened): the non-blank ones, if they
/// follow the voting's rules.
pub fn decryption_choices(
    decoded_choices: Option<Vec<u32>>,
    options: &Vec<u32>,
    min_choices: u32,
    max_choices: u32,
) -> (r: Option<Vec<u32>>)
    ensures
        choices_option_view(r) == decryption_outcome(
            choices_option_view(decoded_choices),
            options@,
            min_choices,
            max_choices,
        ),
{
    match decoded_choices {
        Some(decoded) => {
            let choices = drop_blank_choices(&decoded);
            match validate_decrypted_choices(&choices, options, min_choices, max_choices) {
                Ok(()) => Some(choices),
                Err(_) => None,
            }
        },
        None => None,
    }
}

fn copy_bytes(v: &Vec<u8>) -> (r: Vec<u8>)
    ensures
        r@ == v@,
{
    let r = v.clone();
    assert(r@ =~= v@);
    r
}

fn copy_numbers(v: &Vec<u32>) -> (r: Vec<u32>)
    ensures
        r@ == v@,
{
    let r = v.clone();
    assert(r@ =~= v@);
    r
}

fn copy_record(b: &BallotSchema) -> (r: BallotSchema)
    ensures
        r@ == b@,
{
    BallotSchema {
        index: b.index,
        voter: b.voter,
        district_id: b.district_id,
        encrypted_choice: EncryptedChoiceSchema {
            encrypted_message: copy_bytes(&b.encrypted_choice.encrypted_message),
            nonce: b.encrypted_choice.nonce,
            public_key: b.encrypted_choice.public_key,
        },
        decrypted_choices: copy_numbers(&b.decrypted_choices),
        store_tx_hash: b.store_tx_hash,
        decrypt_tx_hash: b.decrypt_tx_hash,
        invalid: b.invalid,
    }
}

impl BallotsStorage {
    /// The storage of the voting `voting_id`, with nothing stored yet.
    pub fn instantiate(voting_id: String) -> (r: Self)
        ensures
            r@ == empty_storage(voting_id@),
    {
        let r = BallotsStorage {
            voting_id,
            voters: KeyedList::new(),
            ballots: Vec::new(),
            ballot_by_store_tx: KeyedList::new(),
            invalid_ballots: Vec::new(),
            stored_ballots_counter: HashMap::new(),
            decryption_statistics: None,
            results: HashMap::new(),
        };
        assert(r@.ballots =~= Seq::empty());
        assert(r@.results =~= Map::empty());
        r
    }

    /// The ballot at position `ballot_index`, if there is one.
    pub fn get_ballot_by_index(&self, ballot_index: u32) -> (r: Option<Ballot>)
        ensures
            ballot_option_view(r) == ballot_at(self@, ballot_index),
    {
        if (ballot_index as usize) < self.ballots.len() {
            let record = copy_record(&self.ballots[ballot_index as usize]);
            Some(Ballot::from(record))
        } else {
            None
        }
    }

    /// The ballot that the transaction `store_tx_hash` stored, if any.
    pub fn get_ballot_by_store_tx_hash(&self, store_tx_hash: TxHash) -> (r: Option<Ballot>)
        ensures
            ballot_option_view(r) == ballot_stored_by(self@, store_tx_hash),
    {
        match self.ballot_by_store_tx.get(&store_tx_hash) {
            None => None,
            Some(ballot_index) => self.get_ballot_by_index(#[verifier::truncate] (ballot_index as u32)),
        }
    }

    /// The ballots found invalid, in the order they were found.
    pub fn get_invalid_ballots(&self) -> (r: Vec<Ballot>)
        ensures
            r@.map_values(|b: Ballot| b@) == ballots_stored_by(self@, self@.invalid_ballots),
    {
        let mut r: Vec<Ballot> = Vec::new();
        let mut i: usize = 0;
        while i < self.invalid_ballots.len()
            invariant
                i <= self.invalid_ballots@.len(),
                r@.map_values(|b: Ballot| b@) == ballots_stored_by(
                    self@,
                    self@.invalid_ballots.take(i as int),
                ),
            decreases self.invalid_ballots.len() - i,
        {
            proof {
                lemma_take_step(self@.invalid_ballots, i as int);
            }
            let ghost before = r@;
            match self.get_ballot_by_store_tx_hash(self.invalid_ballots[i]) {
                Some(b) => {
                    r.push(b);
                    assert(r@.map_values(|b: Ballot| b@) =~= before.map_values(|b: Ballot| b@).push(
                        b@,
                    ));
                },
                None => {},
            }
            i = i + 1;
        }
        assert(self@.invalid_ballots.take(i as int) =~= self@.invalid_ballots);
        r
    }

    /// How many ballots were stored in each district.
    pub fn get_stored_ballots_amount(&self) -> (r: HashMap<u32, u32>)
        ensures
            r@ == self@.stored_ballots_counter,
    {
        self.stored_ballots_counter.clone()
    }

    /// How many ballots were decrypted and how many were found invalid.
    pub fn get_decryption_statistics(&self) -> (r: DecryptionStatistics)
        ensures
            r == statistics_of(self@),
    {
        match self.decryption_statistics {
            Some(st) => st,
            None => DecryptionStatistics::new(),
        }
    }

    /// The results of each district tallied so far.
    pub fn get_voting_results(&self) -> (r: HashMap<u32, VotingResults>)
        ensures
            results_view(r@) == self@.results,
    {
        self.results.clone()
    }

    /// Puts `voter` on the voters list, as not having voted, unless it is
    /// there already.
    pub fn add_voter_to_voters_list(&mut self, voter: PublicKey)
        ensures
            final(self)@ == after_add_voter(old(self)@, voter),
    {
        if self.voters.get(&voter).is_none() {
            self.voters.put(voter, false);
        }
    }

    /// Stores the ballot of `voter`, if it is on the voters list and has not
    /// voted yet; it then counts as having voted.
    pub fn store_ballot(
        &mut self,
        voter: PublicKey,
        district_id: u32,
        encrypted_choice: EncryptedChoice,
        store_tx_hash: TxHash,
    ) -> (r: Result<(), BallotsStorageError>)
        requires
            store_verdict(old(self)@, voter) is Ok ==> stored_count(old(self)@, district_id)
                < u32::MAX,
        ensures
            r == store_verdict(old(self)@, voter),
            r is Ok ==> final(self)@ == after_store(
                old(self)@,
                voter,
                district_id,
                encrypted_choice@,
                store_tx_hash,
            ),
            r is Err ==> final(self)@ == old(self)@,
    {
        let voter_has_voted = match self.voters.get(&voter) {
            None => return Err(BallotsStorageError::VoterNotInList),
            Some(voted) => voted,
        };
        if voter_has_voted {
            return Err(BallotsStorageError::VoterAlreadyVoted);
        }
        self.voters.put(voter, true);
        let new_ballot_index: u32 = #[verifier::truncate] (self.ballots.len() as u32);
        let ballot = Ballot::new(new_ballot_index, voter, district_id, encrypted_choice, store_tx_hash);
        self.ballot_by_store_tx.put(ballot.store_tx_hash, ballot.index as u64);
        let ghost before = self.ballots@;
        self.ballots.push(ballot.into_schema());
        let stored_ballots_for_district: u32 = match self.stored_ballots_counter.get(&district_id) {
            Some(n) => *n,
            None => 0,
        };
        self.stored_ballots_counter.insert(district_id, stored_ballots_for_district + 1);
        proof {
            let s = after_store(old(self)@, voter, district_id, encrypted_choice@, store_tx_hash);
            assert(self@.ballots =~= s.ballots);
        }
        Ok(())
    }

    /// Records the decryption of the ballot at `ballot_index` by the
    /// transaction `decrypt_tx_hash`, given the choices read from its
    /// decrypted message (`None` when the message could not be opened): the
    /// blank choices are dropped, and the rest are kept if they follow the
    /// voting's rules; otherwise the ballot is marked invalid.
    pub fn apply_decrypted_choices(
        &mut self,
        ballot_index: u32,
        decoded_choices: Option<Vec<u32>>,
        decrypt_tx_hash: TxHash,
        options: &Vec<u32>,
        min_choices: u32,
        max_choices: u32,
    ) -> (r: Result<(), BallotsStorageError>)
        requires
            ballot_index < old(self)@.ballots.len() ==> statistics_room(
                old(self)@,
                decryption_outcome(
                    choices_option_view(decoded_choices),
                    options@,
                    min_choices,
                    max_choices,
                ),
            ),
        ensures
            r is Err <==> ballot_index >= old(self)@.ballots.len(),
            r is Err ==> r == Err::<(), _>(BallotsStorageError::BallotNotFound) && final(self)@
                == old(self)@,
            r is Ok ==> final(self)@ == after_decryption(
                old(self)@,
                ballot_index,
                decrypt_tx_hash,
                decryption_outcome(
                    choices_option_view(decoded_choices),
                    options@,
                    min_choices,
                    max_choices,
                ),
            ),
    {
        if ballot_index as usize >= self.ballots.len() {
            return Err(BallotsStorageError::BallotNotFound);
        }
        let index: usize = ballot_index as usize;
        let mut ballot = Ballot::from(copy_record(&self.ballots[index]));
        let mut decrypted_ballots_counter = self.get_decryption_statistics();
        ballot.decrypt_tx_hash = Some(decrypt_tx_hash);
        let decrypted_choices = decryption_choices(decoded_choices, options, min_choices, max_choices);
        match decrypted_choices {
            Some(decrypted_choices) => {
                ballot.decrypted_choices = Some(decrypted_choices);
                decrypted_ballots_counter.decrypted_ballots_amount =
                    decrypted_ballots_counter.decrypted_ballots_amount + 1;
            },
            None => {
                ballot.invalid = true;
                decrypted_ballots_counter.invalid_ballots_amount =
                    decrypted_ballots_counter.invalid_ballots_amount + 1;
                self.invalid_ballots.push(ballot.store_tx_hash);
            },
        }
        self.ballots.set(index, ballot.into_schema());
        self.decryption_statistics = Some(decrypted_ballots_counter);
        proof {
            let s = after_decryption(
                old(self)@,
                ballot_index,
                decrypt_tx_hash,
                decryption_outcome(
                    choices_option_view(decoded_choices),
                    options@,
                    min_choices,
                    max_choices,
                ),
            );
            assert(self@.ballots =~= s.ballots);
        }
        Ok(())
    }

    /// Decrypts the ballot at `ballot_index` by the transaction
    /// `decrypt_tx_hash`. `decrypted_message` is the ballot's encrypted
    /// message opened with the voting's decryption key, or `None` if it could
    /// not be opened. The choices are read from it as a `Choices` message
    /// (`choices_in`) and recorded as `apply_decrypted_choices` does.
    pub fn decrypt_ballot(
        &mut self,
        ballot_index: u32,
        decrypted_message: Option<Vec<u8>>,
        decrypt_tx_hash: TxHash,
        options: &Vec<u32>,
        min_choices: u32,
        max_choices: u32,
    ) -> (r: Result<(), BallotsStorageError>)
        requires
            ballot_index < old(self)@.ballots.len() ==> statistics_room(
                old(self)@,
                decryption_outcome(
                    message_choices(decrypted_message),
                    options@,
                    min_choices,
                    max_choices,
                ),
            ),
        ensures
            r is Err <==> ballot_index >= old(self)@.ballots.len(),
            r is Err ==> r == Err::<(), _>(BallotsStorageError::BallotNotFound) && final(self)@
                == old(self)@,
            r is Ok ==> final(self)@ == after_decryption(
                old(self)@,
                ballot_index,
                decrypt_tx_hash,
                decryption_outcome(
                    message_choices(decrypted_message),
                    options@,
                    min_choices,
                    max_choices,
                ),
            ),
    {
        if ballot_index as usize >= self.ballots.len() {
            return Err(BallotsStorageError::BallotNotFound);
        }
        let decoded_choices: Option<Vec<u32>> = match decrypted_message {
            Some(message) => Some(decode_choices(message.as_slice())),
            None => None,
        };
        let r = self.apply_decrypted_choices(
            ballot_index,
            decoded_choices,
            decrypt_tx_hash,
            options,
            min_choices,
            max_choices,
        );
        r
    }

    /// Decrypts the ballot at `ballot_index` as `decrypt_ballot` does, if
    /// the statistics counter that the decryption adds one to has room;
    /// otherwise gives `None` and changes nothing.
    pub fn decrypt_ballot_if_room(
        &mut self,
        ballot_index: u32,
        decrypted_message: Option<Vec<u8>>,
        decrypt_tx_hash: TxHash,
        options: &Vec<u32>,
        min_choices: u32,
        max_choices: u32,
    ) -> (r: Option<Result<(), BallotsStorageError>>)
        ensures
            r is None <==> (ballot_index < old(self)@.ballots.len() && !statistics_room(
                old(self)@,
                decryption_outcome(
                    message_choices(decrypted_message),
                    options@,
                    min_choices,
                    max_choices,
                ),
            )),
            r is None ==> final(self)@ == old(self)@,
            ballot_index >= old(self)@.ballots.len() ==> r == Some(
                Err::<(), _>(BallotsStorageError::BallotNotFound),
            ) && final(self)@ == old(self)@,
            r is Some && ballot_index < old(self)@.ballots.len() ==> r == Some(
                Ok::<(), BallotsStorageError>(()),
            ) && final(self)@ == after_decryption(
                old(self)@,
                ballot_index,
                decrypt_tx_hash,
                decryption_outcome(
                    message_choices(decrypted_message),
                    options@,
                    min_choices,
                    max_choices,
                ),
            ),
    {
        if (ballot_index as usize) < self.ballots.len() {
            let decoded: Option<Vec<u32>> = match &decrypted_message {
                Some(message) => Some(decode_choices(message.as_slice())),
                None => None,
            };
            let outcome = decryption_choices(decoded, options, min_choices, max_choices);
            let statistics = self.get_decryption_statistics();
            let room = match outcome {
                Some(_) => statistics.decrypted_ballots_amount < u32::MAX,
                None => statistics.invalid_ballots_amount < u32::MAX,
            };
            if !room {
                return None;
            }
        }
        match self.decrypt_ballot(
            ballot_index,
            decrypted_message,
            decrypt_tx_hash,
            options,
            min_choices,
            max_choices,
        ) {
            Ok(()) => Some(Ok(())),
            Err(e) => Some(Err(e)),
        }
    }

    /// Tallies the results: counts, for each district that has ballots, the
    /// ballots found invalid and how often each option was chosen, and
    /// replaces that district's results with those counts.
    pub fn tally_results(&mut self)
        requires
            tally_fits(old(self)@.ballots),
        ensures
            final(self)@ == after_tally(old(self)@),
    {
        let ghost bs = self@.ballots;
        let ghost t = tally_of(bs);
        let ghost r0 = self@.results;
        let mut voting_results = tally_ballots(&self.ballots);
        proof {
            assert forall|d: u32| #[trigger] voting_results@.contains_key(d) == in_district(bs, d)
                && (voting_results@.contains_key(d) ==> voting_results@[d]@ == t[d]) by {
                assert(results_view(voting_results@).contains_key(d)
                    == voting_results@.contains_key(d));
            }
            assert(bs.take(0) =~= Seq::<BallotSchemaView>::empty());
        }
        let mut i: usize = 0;
        while i < self.ballots.len()
            invariant
                i <= self.ballots@.len(),
                bs == self@.ballots,
                t == tally_of(bs),
                self@ == (StorageView { results: self@.results, ..old(self)@ }),
                forall|d: u32| #[trigger]
                    voting_results@.contains_key(d) == (in_district(bs, d) && !in_district(
                        bs.take(i as int),
                        d,
                    )),
                forall|d: u32| #[trigger]
                    voting_results@.contains_key(d) ==> voting_results@[d]@ == t[d],
                forall|d: u32| #[trigger]
                    self@.results.contains_key(d) == (r0.contains_key(d) || in_district(
                        bs.take(i as int),
                        d,
                    )),
                forall|d: u32| #[trigger]
                    self@.results.contains_key(d) ==> self@.results[d] == if in_district(
                        bs.take(i as int),
                        d,
                    ) {
                        t[d]
                    } else {
                        r0[d]
                    },
            decreases self.ballots.len() - i,
        {
            let d: u32 = self.ballots[i].district_id;
            proof {
                assert(bs[i as int].district_id == d);
                assert(in_district(bs, d));
            }
            let ghost prev = self@.results;
            let ghost had = voting_results@.contains_key(d);
            match voting_results.remove(&d) {
                Some(results_for_district) => {
                    self.results.insert(d, results_for_district);
                },
                None => {},
            }
            proof {
                if had {
                    assert(self@.results =~= prev.insert(d, t[d]));
                } else {
                    assert(self@.results =~= prev);
                }
            }
            i = i + 1;
            proof {
                assert forall|x: u32| #[trigger]
                    in_district(bs.take(i as int), x) == (in_district(bs.take(i - 1), x) || x
                        == d) by {
                    lemma_in_district_step(bs, i - 1, x);
                }
            }
        }
        proof {
            assert(bs.take(i as int) =~= bs);
            assert(self@.results =~= r0.union_prefer_right(t));
        }
    }
}

/// A ballot just stored reads back, through its storing transaction and
/// through its position, as a ballot of that voter, district and choice,
/// neither decrypted nor found invalid, as long as its position fits in 32
/// bits.
pub proof fn lemma_stored_ballot_reads_back(
    s: StorageView,
    voter: PublicKey,
    district_id: u32,
    encrypted_choice: EncryptedChoiceView,
    store_tx_hash: TxHash,
)
    requires
        s.ballots.len() <= u32::MAX,
    ensures
        ({
            let t = after_store(s, voter, district_id, encrypted_choice, store_tx_hash);
            let expected = BallotView {
                index: s.ballots.len() as u32,
                voter,
                district_id,
                encrypted_choice,
                decrypted_choices: None,
                store_tx_hash,
                decrypt_tx_hash: None,
                invalid: false,
            };
            &&& ballot_stored_by(t, store_tx_hash) == Some(expected)
            &&& ballot_at(t, s.ballots.len() as u32) == Some(expected)
        }),
{
}

/// A decrypted ballot reads back with the decrypting transaction, unless it
/// is the zero hash, and with the choices it was decrypted to, unless there
/// were none; a ballot that yielded no choices reads back as invalid.
pub proof fn lemma_decrypted_ballot_reads_back(
    s: StorageView,
    index: u32,
    decrypt_tx_hash: TxHash,
    outcome: Option<Seq<u32>>,
)
    requires
        index < s.ballots.len(),
    ensures
        ({
            let b = ballot_at(after_decryption(s, index, decrypt_tx_hash, outcome), index).unwrap();
            &&& b.decrypt_tx_hash == if decrypt_tx_hash == zero_hash() {
                None
            } else {
                Some(decrypt_tx_hash)
            }
            &&& outcome matches Some(c) ==> b.decrypted_choices == if c.len() == 0 {
                None
            } else {
                Some(c)
            }
            &&& outcome is None ==> b.invalid
        }),
{
    if let Some(c) = outcome {
        if c.len() == 0 {
            assert(c =~= Seq::<u32>::empty());
        }
    }
}

/// Each decryption adds exactly one to the statistics: to the decrypted
/// ballots when it yields choices, to the invalid ones otherwise.
pub proof fn lemma_decryption_counts_once(
    s: StorageView,
    index: u32,
    decrypt_tx_hash: TxHash,
    outcome: Option<Seq<u32>>,
)
    requires
        index < s.ballots.len(),
        statistics_room(s, outcome),
    ensures
        ({
            let before = statistics_of(s);
            let after = statistics_of(after_decryption(s, index, decrypt_tx_hash, outcome));
            &&& after.decrypted_ballots_amount + after.invalid_ballots_amount
                == before.decrypted_ballots_amount + before.invalid_ballots_amount + 1
            &&& outcome is Some ==> after.decrypted_ballots_amount
                == before.decrypted_ballots_amount + 1
            &&& outcome is None ==> after.invalid_ballots_amount == before.invalid_ballots_amount
                + 1
        }),
{
}

/// The choices a decryption records follow the voting's rules and hold no
/// blank choice.
pub proof fn lemma_recorded_choices_follow_rules(
    decoded: Option<Seq<u32>>,
    options: Seq<u32>,
    min_choices: u32,
    max_choices: u32,
)
    ensures
        decryption_outcome(decoded, options, min_choices, max_choices) matches Some(c) ==> {
            &&& choices_verdict(c, options, min_choices, max_choices) is Ok
            &&& forall|i: int| 0 <= i < c.len() ==> c[i] != 0
        },
{
    if let Some(d) = decoded {
        let c = nonblank(d);
        assert forall|i: int| 0 <= i < c.len() implies c[i] != 0 by {
            assert(c.contains(c[i]));
            d.filter_lemma(|x: u32| x != 0);
        }
    }
}

/// Tallying twice gives the same storage as tallying once.
pub proof fn lemma_tally_idempotent(s: StorageView)
    ensures
        after_tally(after_tally(s)) == after_tally(s),
{
    let t = tally_of(s.ballots);
    assert(s.results.union_prefer_right(t).union_prefer_right(t) =~= s.results.union_prefer_right(
        t,
    ));
}

} // verus!
