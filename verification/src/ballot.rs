//! Ballots, the records they are stored as, and the statistics and results
//! kept about them.
use std::collections::HashMap;
use vstd::prelude::*;

use crate::keys::{zero_hash, TxHash, PublicKey};

verus! {

/// A voter's choice, sealed for the voting's decryption key.
#[derive(Clone, Debug)]
pub struct EncryptedChoice {
    pub encrypted_message: Vec<u8>,
    pub nonce: [u8; 24],
    pub public_key: [u8; 32],
}

/// An encrypted choice in the form it is stored in.
#[derive(Clone, Debug)]
pub struct EncryptedChoiceSchema {
    pub encrypted_message: Vec<u8>,
    pub nonce: [u8; 24],
    pub public_key: [u8; 32],
}

/// The content of an encrypted choice.
pub struct EncryptedChoiceView {
    pub encrypted_message: Seq<u8>,
    pub nonce: [u8; 24],
    pub public_key: [u8; 32],
}

impl View for EncryptedChoice {
    type V = EncryptedChoiceView;

    open spec fn view(&self) -> EncryptedChoiceView {
        EncryptedChoiceView {
            encrypted_message: self.encrypted_message@,
            nonce: self.nonce,
            public_key: self.public_key,
        }
    }
}

impl View for EncryptedChoiceSchema {
    type V = EncryptedChoiceView;

    open spec fn view(&self) -> EncryptedChoiceView {
        EncryptedChoiceView {
            encrypted_message: self.encrypted_message@,
            nonce: self.nonce,
            public_key: self.public_key,
        }
    }
}

impl EncryptedChoice {
    pub fn new(encrypted_message: Vec<u8>, nonce: [u8; 24], public_key: [u8; 32]) -> (r: Self)
        ensures
            r.encrypted_message == encrypted_message,
            r.nonce == nonce,
            r.public_key == public_key,
    {
        EncryptedChoice { encrypted_message, nonce, public_key }
    }
}

impl From<EncryptedChoiceSchema> for EncryptedChoice {
    fn from(ec: EncryptedChoiceSchema) -> (r: Self) {
        EncryptedChoice {
            encrypted_message: ec.encrypted_message,
            nonce: ec.nonce,
            public_key: ec.public_key,
        }
    }
}

impl vstd::std_specs::convert::FromSpecImpl<EncryptedChoiceSchema> for EncryptedChoice {
    open spec fn obeys_from_spec() -> bool {
        true
    }

    open spec fn from_spec(ec: EncryptedChoiceSchema) -> Self {
        EncryptedChoice {
            encrypted_message: ec.encrypted_message,
            nonce: ec.nonce,
            public_key: ec.public_key,
        }
    }
}

impl From<EncryptedChoice> for EncryptedChoiceSchema {
    fn from(ec: EncryptedChoice) -> (r: Self) {
        EncryptedChoiceSchema {
            encrypted_message: ec.encrypted_message,
            nonce: ec.nonce,
            public_key: ec.public_key,
        }
    }
}

impl vstd::std_specs::convert::FromSpecImpl<EncryptedChoice> for EncryptedChoiceSchema {
    open spec fn obeys_from_spec() -> bool {
        true
    }

    open spec fn from_spec(ec: EncryptedChoice) -> Self {
        EncryptedChoiceSchema {
            encrypted_message: ec.encrypted_message,
            nonce: ec.nonce,
            public_key: ec.public_key,
        }
    }
}

/// A voter's ballot.
#[derive(Clone, Debug)]
pub struct Ballot {
    /// Its position in the list of the voting's ballots.
    pub index: u32,
    pub voter: PublicKey,
    pub district_id: u32,
    pub encrypted_choice: EncryptedChoice,
    /// The choices read from the ballot, once it was decrypted and found valid.
    pub decrypted_choices: Option<Vec<u32>>,
    /// The transaction that stored the ballot.
    pub store_tx_hash: TxHash,
    /// The transaction that decrypted the ballot, once it was decrypted.
    pub decrypt_tx_hash: Option<TxHash>,
    /// Whether decrypting it failed or gave choices that break the rules.
    pub invalid: bool,
}

/// A ballot in the form it is stored in: no decrypted choices stand as an
/// empty list, no decryption transaction as the zero hash.
#[derive(Clone, Debug)]
pub struct BallotSchema {
    pub index: u32,
    pub voter: PublicKey,
    pub district_id: u32,
    pub encrypted_choice: EncryptedChoiceSchema,
    pub decrypted_choices: Vec<u32>,
    pub store_tx_hash: TxHash,
    pub decrypt_tx_hash: TxHash,
    pub invalid: bool,
}

/// The content of a ballot.
pub struct BallotView {
    pub index: u32,
    pub voter: PublicKey,
    pub district_id: u32,
    pub encrypted_choice: EncryptedChoiceView,
    pub decrypted_choices: Option<Seq<u32>>,
    pub store_tx_hash: TxHash,
    pub decrypt_tx_hash: Option<TxHash>,
    pub invalid: bool,
}

/// The content of a stored ballot record.
pub struct BallotSchemaView {
    pub index: u32,
    pub voter: PublicKey,
    pub district_id: u32,
    pub encrypted_choice: EncryptedChoiceView,
    pub decrypted_choices: Seq<u32>,
    pub store_tx_hash: TxHash,
    pub decrypt_tx_hash: TxHash,
    pub invalid: bool,
}

impl View for Ballot {
    type V = BallotView;

    open spec fn view(&self) -> BallotView {
        BallotView {
            index: self.index,
            voter: self.voter,
            district_id: self.district_id,
            encrypted_choice: self.encrypted_choice@,
            decrypted_choices: match self.decrypted_choices {
                Some(d) => Some(d@),
                None => None,
            },
            store_tx_hash: self.store_tx_hash,
            decrypt_tx_hash: self.decrypt_tx_hash,
            invalid: self.invalid,
        }
    }
}

impl View for BallotSchema {
    type V = BallotSchemaView;

    open spec fn view(&self) -> BallotSchemaView {
        BallotSchemaView {
            index: self.index,
            voter: self.voter,
            district_id: self.district_id,
            encrypted_choice: self.encrypted_choice@,
            decrypted_choices: self.decrypted_choices@,
            store_tx_hash: self.store_tx_hash,
            decrypt_tx_hash: self.decrypt_tx_hash,
            invalid: self.invalid,
        }
    }
}

/// The ballot that a stored record is read back as.
pub open spec fn ballot_of_record(s: BallotSchemaView) -> BallotView {
    BallotView {
        index: s.index,
        voter: s.voter,
        district_id: s.district_id,
        encrypted_choice: s.encrypted_choice,
        decrypted_choices: if s.decrypted_choices.len() == 0 {
            None
        } else {
            Some(s.decrypted_choices)
        },
        store_tx_hash: s.store_tx_hash,
        decrypt_tx_hash: if s.decrypt_tx_hash == zero_hash() {
            None
        } else {
            Some(s.decrypt_tx_hash)
        },
        invalid: s.invalid,
    }
}

/// The record that a ballot is stored as.
pub open spec fn record_of_ballot(b: BallotView) -> BallotSchemaView {
    BallotSchemaView {
        index: b.index,
        voter: b.voter,
        district_id: b.district_id,
        encrypted_choice: b.encrypted_choice,
        decrypted_choices: match b.decrypted_choices {
            Some(d) => d,
            None => Seq::empty(),
        },
        store_tx_hash: b.store_tx_hash,
        decrypt_tx_hash: match b.decrypt_tx_hash {
            Some(h) => h,
            None => zero_hash(),
        },
        invalid: b.invalid,
    }
}

impl Ballot {
    /// A ballot just stored: not decrypted yet and not found invalid.
    pub fn new(
        index: u32,
        voter: PublicKey,
        district_id: u32,
        encrypted_choice: EncryptedChoice,
        store_tx_hash: TxHash,
    ) -> (r: Self)
        ensures
            r.index == index,
            r.voter == voter,
            r.district_id == district_id,
            r.encrypted_choice == encrypted_choice,
            r.decrypted_choices is None,
            r.store_tx_hash == store_tx_hash,
            r.decrypt_tx_hash is None,
            !r.invalid,
    {
        Ballot {
            index,
            voter,
            district_id,
            encrypted_choice,
            decrypted_choices: None,
            store_tx_hash,
            decrypt_tx_hash: None,
            invalid: false,
        }
    }
}

impl From<BallotSchema> for Ballot {
    fn from(ballot: BallotSchema) -> (r: Self)
        ensures
            r@ == ballot_of_record(ballot@),
    {
        let decrypt_tx_hash = if ballot.decrypt_tx_hash == TxHash::zero() {
            None
        } else {
            Some(ballot.decrypt_tx_hash)
        };
        Ballot {
            index: ballot.index,
            voter: ballot.voter,
            district_id: ballot.district_id,
            encrypted_choice: EncryptedChoice::from(ballot.encrypted_choice),
            decrypted_choices: match ballot.decrypted_choices.len() {
                0 => None,
                _ => Some(ballot.decrypted_choices),
            },
            store_tx_hash: ballot.store_tx_hash,
            decrypt_tx_hash,
            invalid: ballot.invalid,
        }
    }
}

impl vstd::std_specs::convert::FromSpecImpl<BallotSchema> for Ballot {
    open spec fn obeys_from_spec() -> bool {
        true
    }

    open spec fn from_spec(ballot: BallotSchema) -> Self {
        Ballot {
            index: ballot.index,
            voter: ballot.voter,
            district_id: ballot.district_id,
            encrypted_choice: EncryptedChoice {
                encrypted_message: ballot.encrypted_choice.encrypted_message,
                nonce: ballot.encrypted_choice.nonce,
                public_key: ballot.encrypted_choice.public_key,
            },
            decrypted_choices: if ballot.decrypted_choices.len() == 0 {
                None
            } else {
                Some(ballot.decrypted_choices)
            },
            store_tx_hash: ballot.store_tx_hash,
            decrypt_tx_hash: if ballot.decrypt_tx_hash == zero_hash() {
                None
            } else {
                Some(ballot.decrypt_tx_hash)
            },
            invalid: ballot.invalid,
        }
    }
}

impl Ballot {
    /// The record this ballot is stored as.
    pub fn into_schema(self) -> (r: BallotSchema)
        ensures
            r@ == record_of_ballot(self@),
    {
        let ballot = self;
        BallotSchema {
            index: ballot.index,
            voter: ballot.voter,
            district_id: ballot.district_id,
            encrypted_choice: EncryptedChoiceSchema::from(ballot.encrypted_choice),
            decrypted_choices: match ballot.decrypted_choices {
                Some(decrypted_choices) => decrypted_choices,
                None => Vec::new(),
            },
            store_tx_hash: ballot.store_tx_hash,
            decrypt_tx_hash: match ballot.decrypt_tx_hash {
                Some(decrypt_tx_hash) => decrypt_tx_hash,
                None => TxHash::zero(),
            },
            invalid: ballot.invalid,
        }
    }
}

/// Storing a record read back from storage gives that record again.
pub proof fn lemma_record_round_trip(s: BallotSchemaView)
    ensures
        record_of_ballot(ballot_of_record(s)) == s,
{
    if s.decrypted_choices.len() == 0 {
        assert(s.decrypted_choices =~= Seq::<u32>::empty());
    }
}

/// A ballot reads back from storage as it was stored exactly when it does
/// not hold an empty list of decrypted choices, nor the zero hash as its
/// decryption transaction.
pub proof fn lemma_ballot_round_trip(b: BallotView)
    ensures
        ballot_of_record(record_of_ballot(b)) == b <==> (b.decrypted_choices != Some(
            Seq::<u32>::empty(),
        ) && b.decrypt_tx_hash != Some(zero_hash())),
{
    let r = ballot_of_record(record_of_ballot(b));
    if let Some(d) = b.decrypted_choices {
        if d.len() == 0 {
            assert(d =~= Seq::<u32>::empty());
        }
    }
    if b.decrypted_choices == Some(Seq::<u32>::empty()) {
        assert(r.decrypted_choices is None);
    }
    if b.decrypt_tx_hash == Some(zero_hash()) {
        assert(r.decrypt_tx_hash is None);
    }
}

/// How many ballots were decrypted, and how many of those were invalid.
#[derive(Clone, Copy, Debug, PartialEq, Eq, Structural)]
pub struct DecryptionStatistics {
    /// Ballots decrypted to choices that follow the rules.
    pub decrypted_ballots_amount: u32,
    /// Ballots that could not be decrypted, or whose choices break the rules.
    pub invalid_ballots_amount: u32,
}

impl DecryptionStatistics {
    /// Statistics before any ballot was decrypted.
    pub fn new() -> (r: Self)
        ensures
            r.decrypted_ballots_amount == 0,
            r.invalid_ballots_amount == 0,
    {
        DecryptionStatistics { decrypted_ballots_amount: 0, invalid_ballots_amount: 0 }
    }
}

/// The results of one district: how many ballots chose each option, and how
/// many ballots were invalid.
#[derive(Clone, Debug)]
pub struct VotingResults {
    pub district_id: u32,
    pub tally: HashMap<u32, u32>,
    pub invalid_ballots_amount: u32,
}

/// The content of the results of a district.
pub struct VotingResultsView {
    pub district_id: u32,
    pub tally: Map<u32, u32>,
    pub invalid_ballots_amount: u32,
}

impl View for VotingResults {
    type V = VotingResultsView;

    open spec fn view(&self) -> VotingResultsView {
        VotingResultsView {
            district_id: self.district_id,
            tally: self.tally@,
            invalid_ballots_amount: self.invalid_ballots_amount,
        }
    }
}

impl VotingResults {
    /// The results of a district before any ballot is counted.
    pub fn new(district_id: u32) -> (r: Self)
        ensures
            r@.district_id == district_id,
            r@.tally == Map::<u32, u32>::empty(),
            r@.invalid_ballots_amount == 0,
    {
        VotingResults { district_id, tally: HashMap::new(), invalid_ballots_amount: 0 }
    }
}

} // verus!
