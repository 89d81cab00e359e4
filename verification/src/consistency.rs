//! What every operation on the ballots of a voting keeps: each ballot knows
//! its position, every voter has at most one ballot and is marked as having
//! voted, the counters match the ballots, the index by storing transaction
//! points to the right ballots, and the invalid list only names ballots
//! marked invalid.
use vstd::prelude::*;

use crate::ballot::{ballot_of_record, record_of_ballot, BallotSchemaView, BallotView, EncryptedChoiceView};
use crate::keys::{PublicKey, TxHash};
use crate::choices::nonblank;
use crate::storage::{
    after_add_voter, after_decryption, after_store, after_tally, ballot_stored_by,
    ballots_stored_by, decryption_outcome, empty_storage, statistics_of, statistics_room,
    store_verdict, stored_count, StorageView,
};
use crate::tally::{in_district, tally_of};

verus! {

/// How many of the ballots belong to district `d`.
pub open spec fn district_ballot_count(ballots: Seq<BallotSchemaView>, d: u32) -> nat
    decreases ballots.len(),
{
    if ballots.len() == 0 {
        0
    } else {
        district_ballot_count(ballots.drop_last(), d) + if ballots.last().district_id == d {
            1nat
        } else {
            0nat
        }
    }
}

/// Some ballot stored by the transaction `h` is marked invalid.
pub open spec fn names_invalid_ballot(ballots: Seq<BallotSchemaView>, h: TxHash) -> bool {
    exists|i: int| 0 <= i < ballots.len() && #[trigger] ballots[i].store_tx_hash == h && ballots[i].invalid
}

/// The storage is consistent with the ballots it holds.
pub open spec fn consistent(s: StorageView) -> bool {
    let b = s.ballots;
    &&& forall|i: int| 0 <= i < b.len() ==> #[trigger] b[i].index == i
    &&& forall|i: int|
        0 <= i < b.len() ==> s.voters.contains_key(#[trigger] b[i].voter) && s.voters[b[i].voter]
    &&& forall|i: int, j: int|
        0 <= i < b.len() && 0 <= j < b.len() && i != j ==> #[trigger] b[i].voter
            != #[trigger] b[j].voter
    &&& forall|d: u32| #[trigger] stored_count(s, d) == district_ballot_count(b, d)
    &&& forall|h: TxHash| #[trigger]
        s.ballot_by_store_tx.contains_key(h) ==> s.ballot_by_store_tx[h] < b.len()
            && b[s.ballot_by_store_tx[h] as int].store_tx_hash == h
    &&& forall|i: int|
        0 <= i < b.len() ==> s.ballot_by_store_tx.contains_key(#[trigger] b[i].store_tx_hash)
    &&& forall|k: int|
        0 <= k < s.invalid_ballots.len() ==> names_invalid_ballot(b, #[trigger] s.invalid_ballots[k])
    &&& forall|v: PublicKey| #[trigger]
        s.voters.contains_key(v) && s.voters[v] ==> has_ballot_of(b, v)
    &&& forall|d: u32| #[trigger]
        s.stored_ballots_counter.contains_key(d) <==> district_ballot_count(b, d) > 0
    &&& forall|d: u32| #[trigger] s.results.contains_key(d) ==> district_ballot_count(b, d) > 0
    &&& statistics_of(s).invalid_ballots_amount == s.invalid_ballots.len()
    &&& s.stored_ballots_counter.dom().finite()
    &&& counter_total(s.stored_ballots_counter) == b.len()
}

/// The values of a map of counters, added up.
pub open spec fn counter_total(m: Map<u32, u32>) -> int {
    m.dom().fold(0int, |acc: int, d: u32| acc + m[d])
}

proof fn lemma_adding_up_commutes(m: Map<u32, u32>)
    ensures
        vstd::set::fold::is_fun_commutative(|acc: int, d: u32| acc + m[d]),
{
}

/// Adding up over a set gives the same total with two maps that agree on it.
proof fn lemma_fold_agree(keys: Set<u32>, m1: Map<u32, u32>, m2: Map<u32, u32>)
    requires
        keys.finite(),
        forall|d: u32| keys.contains(d) ==> m1[d] == m2[d],
    ensures
        keys.fold(0int, |acc: int, d: u32| acc + m1[d]) == keys.fold(
            0int,
            |acc: int, d: u32| acc + m2[d],
        ),
    decreases keys.len(),
{
    let f1 = |acc: int, d: u32| acc + m1[d];
    let f2 = |acc: int, d: u32| acc + m2[d];
    lemma_adding_up_commutes(m1);
    lemma_adding_up_commutes(m2);
    if keys.len() == 0 {
        assert(keys =~= Set::<u32>::empty());
        vstd::set::fold::lemma_fold_empty(0int, f1);
        vstd::set::fold::lemma_fold_empty(0int, f2);
    } else {
        let d = keys.choose();
        let r = keys.remove(d);
        assert(r.insert(d) =~= keys);
        lemma_fold_agree(r, m1, m2);
        vstd::set::fold::lemma_fold_insert(r, 0int, f1, d);
        vstd::set::fold::lemma_fold_insert(r, 0int, f2, d);
    }
}

/// Setting one counter changes the total by the difference.
proof fn lemma_counter_total_insert(m: Map<u32, u32>, d: u32, v: u32)
    requires
        m.dom().finite(),
    ensures
        m.insert(d, v).dom().finite(),
        counter_total(m.insert(d, v)) == counter_total(m) - (if m.contains_key(d) {
            m[d] as int
        } else {
            0
        }) + v,
{
    let n = m.insert(d, v);
    let f = |acc: int, k: u32| acc + m[k];
    let g = |acc: int, k: u32| acc + n[k];
    lemma_adding_up_commutes(m);
    lemma_adding_up_commutes(n);
    let r = m.dom().remove(d);
    assert(n.dom() =~= r.insert(d));
    lemma_fold_agree(r, m, n);
    vstd::set::fold::lemma_fold_insert(r, 0int, g, d);
    if m.contains_key(d) {
        assert(m.dom() =~= r.insert(d));
        vstd::set::fold::lemma_fold_insert(r, 0int, f, d);
    } else {
        assert(m.dom() =~= r);
    }
}

/// Some ballot is the voter's.
pub open spec fn has_ballot_of(ballots: Seq<BallotSchemaView>, voter: PublicKey) -> bool {
    exists|i: int| 0 <= i < ballots.len() && #[trigger] ballots[i].voter == voter
}

/// A district has ballots exactly when some ballot belongs to it.
pub proof fn lemma_district_count_positive(ballots: Seq<BallotSchemaView>, d: u32)
    ensures
        district_ballot_count(ballots, d) > 0 <==> in_district(ballots, d),
    decreases ballots.len(),
{
    if ballots.len() > 0 {
        let t = ballots.drop_last();
        lemma_district_count_positive(t, d);
        if in_district(t, d) {
            let i: int = choose|i: int| 0 <= i < t.len() && #[trigger] t[i].district_id == d;
            assert(ballots[i].district_id == d);
        }
        if ballots.last().district_id == d {
            assert(ballots[ballots.len() - 1].district_id == d);
        }
        if in_district(ballots, d) && ballots.last().district_id != d {
            let i: int = choose|i: int| 0 <= i < ballots.len() && #[trigger] ballots[i].district_id == d;
            assert(t[i].district_id == d);
        }
    }
}

/// A voter that voted: it is on the list, marked as having voted.
pub open spec fn has_voted(s: StorageView, voter: PublicKey) -> bool {
    s.voters.contains_key(voter) && s.voters[voter]
}

/// A fresh storage is consistent.
pub proof fn lemma_empty_storage_consistent(voting_id: Seq<char>)
    ensures
        consistent(empty_storage(voting_id)),
{
    let m = Map::<u32, u32>::empty();
    assert(m.dom() =~= Set::<u32>::empty());
    vstd::set::fold::lemma_fold_empty(0int, |acc: int, d: u32| acc + m[d]);
}

/// Putting a voter on the list keeps the storage consistent.
pub proof fn lemma_add_voter_keeps_consistency(s: StorageView, voter: PublicKey)
    requires
        consistent(s),
    ensures
        consistent(after_add_voter(s, voter)),
{
    let t = after_add_voter(s, voter);
    assert forall|d: u32| #[trigger] stored_count(t, d) == district_ballot_count(t.ballots, d) by {
        assert(stored_count(s, d) == district_ballot_count(s.ballots, d));
    }
    assert forall|k: int|
        0 <= k < t.invalid_ballots.len() implies names_invalid_ballot(
        t.ballots,
        #[trigger] t.invalid_ballots[k],
    ) by {
        assert(names_invalid_ballot(s.ballots, s.invalid_ballots[k]));
    }
}

/// Storing a ballot keeps the storage consistent, as long as its position
/// and its district's counter fit in 32 bits.
pub proof fn lemma_store_keeps_consistency(
    s: StorageView,
    voter: PublicKey,
    district_id: u32,
    encrypted_choice: EncryptedChoiceView,
    store_tx_hash: TxHash,
)
    requires
        consistent(s),
        store_verdict(s, voter) is Ok,
        s.ballots.len() < u32::MAX,
        stored_count(s, district_id) < u32::MAX,
    ensures
        consistent(after_store(s, voter, district_id, encrypted_choice, store_tx_hash)),
{
    let t = after_store(s, voter, district_id, encrypted_choice, store_tx_hash);
    let b = s.ballots;
    let n: int = b.len() as int;
    assert(t.ballots.drop_last() =~= b);
    assert(t.ballots[n].voter == voter);
    lemma_counter_total_insert(
        s.stored_ballots_counter,
        district_id,
        (stored_count(s, district_id) + 1) as u32,
    );
    assert forall|v: PublicKey| #[trigger]
        t.voters.contains_key(v) && t.voters[v] implies has_ballot_of(t.ballots, v) by {
        if v != voter {
            assert(has_ballot_of(b, v));
            let i: int = choose|i: int| 0 <= i < b.len() && #[trigger] b[i].voter == v;
            assert(t.ballots[i].voter == v);
        }
    }
    assert forall|d: u32| #[trigger]
        t.stored_ballots_counter.contains_key(d) <==> district_ballot_count(t.ballots, d) > 0 by {
        assert(s.stored_ballots_counter.contains_key(d) <==> district_ballot_count(b, d) > 0);
    }
    assert forall|d: u32| #[trigger] t.results.contains_key(d) implies district_ballot_count(
        t.ballots,
        d,
    ) > 0 by {
        assert(district_ballot_count(b, d) > 0);
    }
    assert forall|i: int| 0 <= i < b.len() implies #[trigger] b[i].voter != voter by {
        assert(s.voters.contains_key(b[i].voter) && s.voters[b[i].voter]);
    }
    assert forall|i: int, j: int|
        0 <= i < t.ballots.len() && 0 <= j < t.ballots.len() && i != j implies #[trigger] t.ballots[i].voter
        != #[trigger] t.ballots[j].voter by {
        if i < n && j < n {
            assert(b[i].voter != b[j].voter);
        } else if i < n {
            assert(b[i].voter != voter);
        } else {
            assert(b[j].voter != voter);
        }
    }
    assert forall|d: u32| #[trigger] stored_count(t, d) == district_ballot_count(t.ballots, d) by {
        assert(stored_count(s, d) == district_ballot_count(b, d));
    }
    assert forall|i: int| 0 <= i < t.ballots.len() implies #[trigger] t.ballots[i].index == i by {
        if i < n {
            assert(b[i].index == i);
        }
    }
    assert forall|i: int|
        0 <= i < t.ballots.len() implies t.voters.contains_key(#[trigger] t.ballots[i].voter)
        && t.voters[t.ballots[i].voter] by {
        if i < n {
            assert(s.voters.contains_key(b[i].voter) && s.voters[b[i].voter]);
        }
    }
    assert forall|h: TxHash| #[trigger]
        t.ballot_by_store_tx.contains_key(h) implies t.ballot_by_store_tx[h] < t.ballots.len()
        && t.ballots[t.ballot_by_store_tx[h] as int].store_tx_hash == h by {
        if h != store_tx_hash {
            assert(s.ballot_by_store_tx.contains_key(h));
        }
    }
    assert forall|i: int|
        0 <= i < t.ballots.len() implies t.ballot_by_store_tx.contains_key(
        #[trigger] t.ballots[i].store_tx_hash,
    ) by {
        if i < n {
            assert(s.ballot_by_store_tx.contains_key(b[i].store_tx_hash));
        }
    }
    assert forall|k: int|
        0 <= k < t.invalid_ballots.len() implies names_invalid_ballot(
        t.ballots,
        #[trigger] t.invalid_ballots[k],
    ) by {
        assert(names_invalid_ballot(b, s.invalid_ballots[k]));
        let i: int = choose|i: int|
            0 <= i < b.len() && #[trigger] b[i].store_tx_hash == s.invalid_ballots[k]
                && b[i].invalid;
        assert(t.ballots[i] == b[i]);
    }
}

/// Decrypting a ballot keeps the storage consistent.
pub proof fn lemma_decryption_keeps_consistency(
    s: StorageView,
    index: u32,
    decrypt_tx_hash: TxHash,
    outcome: Option<Seq<u32>>,
)
    requires
        consistent(s),
        index < s.ballots.len(),
        statistics_room(s, outcome),
    ensures
        consistent(after_decryption(s, index, decrypt_tx_hash, outcome)),
{
    let t = after_decryption(s, index, decrypt_tx_hash, outcome);
    let b = s.ballots;
    let x: int = index as int;
    assert forall|i: int| 0 <= i < b.len() implies t.ballots[i].index == b[i].index
        && t.ballots[i].voter == b[i].voter && t.ballots[i].district_id == b[i].district_id
        && t.ballots[i].store_tx_hash == b[i].store_tx_hash && (b[i].invalid
        ==> t.ballots[i].invalid) by {}
    assert(t.ballots.len() == b.len());
    assert forall|d: u32| #[trigger] stored_count(t, d) == district_ballot_count(t.ballots, d) by {
        lemma_count_same_districts(b, t.ballots, d);
        assert(stored_count(s, d) == district_ballot_count(b, d));
    }
    assert forall|d: u32| #[trigger]
        t.stored_ballots_counter.contains_key(d) <==> district_ballot_count(t.ballots, d) > 0 by {
        lemma_count_same_districts(b, t.ballots, d);
        assert(s.stored_ballots_counter.contains_key(d) <==> district_ballot_count(b, d) > 0);
    }
    assert forall|d: u32| #[trigger] t.results.contains_key(d) implies district_ballot_count(
        t.ballots,
        d,
    ) > 0 by {
        lemma_count_same_districts(b, t.ballots, d);
        assert(district_ballot_count(b, d) > 0);
    }
    assert forall|v: PublicKey| #[trigger]
        t.voters.contains_key(v) && t.voters[v] implies has_ballot_of(t.ballots, v) by {
        assert(has_ballot_of(b, v));
        let i: int = choose|i: int| 0 <= i < b.len() && #[trigger] b[i].voter == v;
        assert(t.ballots[i].voter == v);
    }
    assert forall|i: int, j: int|
        0 <= i < t.ballots.len() && 0 <= j < t.ballots.len() && i != j implies #[trigger] t.ballots[i].voter
        != #[trigger] t.ballots[j].voter by {
        assert(b[i].voter != b[j].voter);
    }
    assert forall|i: int| 0 <= i < t.ballots.len() implies #[trigger] t.ballots[i].index == i by {
        assert(b[i].index == i);
    }
    assert forall|i: int|
        0 <= i < t.ballots.len() implies t.voters.contains_key(#[trigger] t.ballots[i].voter)
        && t.voters[t.ballots[i].voter] by {
        assert(s.voters.contains_key(b[i].voter) && s.voters[b[i].voter]);
    }
    assert forall|h: TxHash| #[trigger]
        t.ballot_by_store_tx.contains_key(h) implies t.ballot_by_store_tx[h] < t.ballots.len()
        && t.ballots[t.ballot_by_store_tx[h] as int].store_tx_hash == h by {}
    assert forall|i: int|
        0 <= i < t.ballots.len() implies t.ballot_by_store_tx.contains_key(
        #[trigger] t.ballots[i].store_tx_hash,
    ) by {
        assert(s.ballot_by_store_tx.contains_key(b[i].store_tx_hash));
    }
    assert forall|k: int|
        0 <= k < t.invalid_ballots.len() implies names_invalid_ballot(
        t.ballots,
        #[trigger] t.invalid_ballots[k],
    ) by {
        if k < s.invalid_ballots.len() {
            assert(names_invalid_ballot(b, s.invalid_ballots[k]));
            let i: int = choose|i: int|
                0 <= i < b.len() && #[trigger] b[i].store_tx_hash == s.invalid_ballots[k]
                    && b[i].invalid;
            assert(t.ballots[i].store_tx_hash == t.invalid_ballots[k]);
        } else {
            assert(t.ballots[x].store_tx_hash == t.invalid_ballots[k]);
        }
    }
}

/// Ballot counts per district depend only on the ballots' districts.
proof fn lemma_count_same_districts(a: Seq<BallotSchemaView>, b: Seq<BallotSchemaView>, d: u32)
    requires
        a.len() == b.len(),
        forall|i: int| 0 <= i < a.len() ==> a[i].district_id == b[i].district_id,
    ensures
        district_ballot_count(a, d) == district_ballot_count(b, d),
    decreases a.len(),
{
    if a.len() > 0 {
        lemma_count_same_districts(a.drop_last(), b.drop_last(), d);
    }
}

/// Tallying keeps the storage consistent.
pub proof fn lemma_tally_keeps_consistency(s: StorageView)
    requires
        consistent(s),
    ensures
        consistent(after_tally(s)),
{
    let t = after_tally(s);
    assert forall|d: u32| #[trigger] stored_count(t, d) == district_ballot_count(t.ballots, d) by {
        assert(stored_count(s, d) == district_ballot_count(s.ballots, d));
    }
    assert forall|d: u32| #[trigger] t.results.contains_key(d) implies district_ballot_count(
        t.ballots,
        d,
    ) > 0 by {
        lemma_district_count_positive(s.ballots, d);
        if !s.results.contains_key(d) {
            assert(tally_of(s.ballots).contains_key(d));
        }
    }
    assert forall|d: u32| #[trigger]
        t.stored_ballots_counter.contains_key(d) <==> district_ballot_count(t.ballots, d) > 0 by {
        assert(s.stored_ballots_counter.contains_key(d) <==> district_ballot_count(s.ballots, d)
            > 0);
    }
    assert forall|k: int|
        0 <= k < t.invalid_ballots.len() implies names_invalid_ballot(
        t.ballots,
        #[trigger] t.invalid_ballots[k],
    ) by {
        assert(names_invalid_ballot(s.ballots, s.invalid_ballots[k]));
    }
}

/// Once a consistent storage is tallied, the districts with results are
/// exactly the districts with stored ballots.
pub proof fn lemma_tallied_districts_match_counters(s: StorageView)
    requires
        consistent(s),
    ensures
        after_tally(s).results.dom() == s.stored_ballots_counter.dom(),
{
    let t = after_tally(s);
    assert forall|d: u32| #[trigger] t.results.contains_key(d)
        == s.stored_ballots_counter.contains_key(d) by {
        lemma_district_count_positive(s.ballots, d);
        assert(s.stored_ballots_counter.contains_key(d) <==> district_ballot_count(s.ballots, d)
            > 0);
        if s.results.contains_key(d) {
            assert(district_ballot_count(s.ballots, d) > 0);
        }
        assert(tally_of(s.ballots).contains_key(d) == in_district(s.ballots, d));
    }
    assert(t.results.dom() =~= s.stored_ballots_counter.dom());
}

/// The voters marked as having voted.
pub open spec fn voted_voters(s: StorageView) -> Set<PublicKey> {
    s.voters.dom().filter(|v: PublicKey| s.voters[v])
}

/// No two ballots were stored by the same transaction.
pub open spec fn store_hashes_distinct(ballots: Seq<BallotSchemaView>) -> bool {
    forall|i: int, j: int|
        0 <= i < ballots.len() && 0 <= j < ballots.len() && i != j ==> #[trigger] ballots[i].store_tx_hash
            != #[trigger] ballots[j].store_tx_hash
}

/// In a consistent storage there are as many voters who voted as ballots;
/// when no two ballots share a storing transaction, the index by storing
/// transaction has as many entries as there are ballots too.
pub proof fn lemma_sizes_agree(s: StorageView)
    requires
        consistent(s),
    ensures
        voted_voters(s).finite(),
        voted_voters(s).len() == s.ballots.len(),
        store_hashes_distinct(s.ballots) ==> s.ballot_by_store_tx.dom().finite()
            && s.ballot_by_store_tx.dom().len() == s.ballots.len(),
{
    let b = s.ballots;
    let voters = b.map_values(|x: BallotSchemaView| x.voter);
    assert forall|i: int, j: int|
        0 <= i < voters.len() && 0 <= j < voters.len() && i != j implies voters[i] != voters[j] by {
        assert(b[i].voter != b[j].voter);
    }
    assert(voters.no_duplicates());
    voters.unique_seq_to_set();
    assert forall|v: PublicKey| #[trigger] voted_voters(s).contains(v) == voters.to_set().contains(v)
        by {
        if voted_voters(s).contains(v) {
            assert(has_ballot_of(b, v));
            let i: int = choose|i: int| 0 <= i < b.len() && #[trigger] b[i].voter == v;
            assert(voters[i] == v);
        }
        if voters.to_set().contains(v) {
            assert(voters.contains(v));
            let i: int = choose|i: int| 0 <= i < voters.len() && voters[i] == v;
            assert(b[i].voter == v);
        }
    }
    assert(voted_voters(s) =~= voters.to_set());
    vstd::seq_lib::seq_to_set_is_finite(voters);
    if store_hashes_distinct(b) {
        let hashes = b.map_values(|x: BallotSchemaView| x.store_tx_hash);
        assert forall|i: int, j: int|
            0 <= i < hashes.len() && 0 <= j < hashes.len() && i != j implies hashes[i]
            != hashes[j] by {
            assert(b[i].store_tx_hash != b[j].store_tx_hash);
        }
        assert(hashes.no_duplicates());
        hashes.unique_seq_to_set();
        assert forall|h: TxHash| #[trigger] s.ballot_by_store_tx.dom().contains(h)
            == hashes.to_set().contains(h) by {
            if s.ballot_by_store_tx.contains_key(h) {
                let i: int = s.ballot_by_store_tx[h] as int;
                assert(hashes[i] == h);
            }
            if hashes.to_set().contains(h) {
                assert(hashes.contains(h));
                let i: int = choose|i: int| 0 <= i < hashes.len() && hashes[i] == h;
                assert(s.ballot_by_store_tx.contains_key(b[i].store_tx_hash));
            }
        }
        assert(s.ballot_by_store_tx.dom() =~= hashes.to_set());
        vstd::seq_lib::seq_to_set_is_finite(hashes);
    }
}

/// A voter that voted stays so, whatever happens next: putting it on the
/// list again, storing any ballot, decrypting any ballot or tallying.
pub proof fn lemma_voted_stays_voted(
    s: StorageView,
    voter: PublicKey,
    other: PublicKey,
    district_id: u32,
    encrypted_choice: EncryptedChoiceView,
    store_tx_hash: TxHash,
    index: u32,
    decrypt_tx_hash: TxHash,
    outcome: Option<Seq<u32>>,
)
    requires
        has_voted(s, voter),
    ensures
        has_voted(after_add_voter(s, other), voter),
        has_voted(after_store(s, other, district_id, encrypted_choice, store_tx_hash), voter),
        has_voted(after_decryption(s, index, decrypt_tx_hash, outcome), voter),
        has_voted(after_tally(s), voter),
        store_verdict(s, voter) == Err::<(), _>(crate::storage::BallotsStorageError::VoterAlreadyVoted),
{
}

/// A voter whose ballot was stored cannot store another one.
pub proof fn lemma_one_ballot_per_voter(
    s: StorageView,
    voter: PublicKey,
    district_id: u32,
    encrypted_choice: EncryptedChoiceView,
    store_tx_hash: TxHash,
)
    requires
        store_verdict(s, voter) is Ok,
    ensures
        store_verdict(after_store(s, voter, district_id, encrypted_choice, store_tx_hash), voter)
            == Err::<(), _>(crate::storage::BallotsStorageError::VoterAlreadyVoted),
{
}

/// Some ballot was stored by the transaction `h`.
pub open spec fn has_ballot_stored_by(ballots: Seq<BallotSchemaView>, h: TxHash) -> bool {
    exists|i: int| 0 <= i < ballots.len() && #[trigger] ballots[i].store_tx_hash == h
}

/// In a consistent storage, looking a ballot up by a transaction finds one
/// exactly when some ballot was stored by that transaction, and the ballot
/// found was stored by it.
pub proof fn lemma_lookup_by_store_tx(s: StorageView, h: TxHash)
    requires
        consistent(s),
    ensures
        ballot_stored_by(s, h) is Some <==> has_ballot_stored_by(s.ballots, h),
        ballot_stored_by(s, h) matches Some(b) ==> b.store_tx_hash == h,
{
    let b = s.ballots;
    if s.ballot_by_store_tx.contains_key(h) {
        let i: int = s.ballot_by_store_tx[h] as int;
        assert(b[i].index == i);
        assert(b[i].store_tx_hash == h);
    }
    if has_ballot_stored_by(b, h) {
        let i: int = choose|i: int| 0 <= i < b.len() && #[trigger] b[i].store_tx_hash == h;
        assert(s.ballot_by_store_tx.contains_key(b[i].store_tx_hash));
    }
}

proof fn lemma_lookups_in_order(s: StorageView, hashes: Seq<TxHash>)
    requires
        consistent(s),
        forall|k: int| 0 <= k < hashes.len() ==> has_ballot_stored_by(s.ballots, #[trigger] hashes[k]),
    ensures
        ballots_stored_by(s, hashes).len() == hashes.len(),
        forall|k: int|
            0 <= k < hashes.len() ==> Some(#[trigger] ballots_stored_by(s, hashes)[k])
                == ballot_stored_by(s, hashes[k]),
    decreases hashes.len(),
{
    if hashes.len() > 0 {
        let rest = hashes.drop_last();
        assert forall|k: int| 0 <= k < rest.len() implies has_ballot_stored_by(
            s.ballots,
            #[trigger] rest[k],
        ) by {
            assert(rest[k] == hashes[k]);
        }
        lemma_lookups_in_order(s, rest);
        lemma_lookup_by_store_tx(s, hashes.last());
        assert(has_ballot_stored_by(s.ballots, hashes[hashes.len() - 1]));
        let r = ballots_stored_by(s, hashes);
        assert forall|k: int|
            0 <= k < hashes.len() implies Some(#[trigger] r[k]) == ballot_stored_by(s, hashes[k]) by {
            if k < rest.len() {
                assert(rest[k] == hashes[k]);
            }
        }
    }
}

/// In a consistent storage, the ballots found invalid are listed one for
/// each entry of the invalid list, in its order, each stored by the
/// transaction of its entry; when no two ballots share a storing
/// transaction, each listed ballot is marked invalid.
pub proof fn lemma_invalid_ballots_are_the_listed_ones(s: StorageView)
    requires
        consistent(s),
    ensures
        ballots_stored_by(s, s.invalid_ballots).len() == s.invalid_ballots.len(),
        forall|k: int|
            0 <= k < s.invalid_ballots.len() ==> (#[trigger] ballots_stored_by(
                s,
                s.invalid_ballots,
            )[k]).store_tx_hash == s.invalid_ballots[k],
        store_hashes_distinct(s.ballots) ==> forall|k: int|
            0 <= k < s.invalid_ballots.len() ==> (#[trigger] ballots_stored_by(
                s,
                s.invalid_ballots,
            )[k]).invalid,
{
    let b = s.ballots;
    let l = s.invalid_ballots;
    assert forall|k: int| 0 <= k < l.len() implies has_ballot_stored_by(b, #[trigger] l[k]) by {
        assert(names_invalid_ballot(b, l[k]));
        let i: int = choose|i: int| 0 <= i < b.len() && #[trigger] b[i].store_tx_hash == l[k]
            && b[i].invalid;
        assert(b[i].store_tx_hash == l[k]);
    }
    lemma_lookups_in_order(s, l);
    let r = ballots_stored_by(s, l);
    assert forall|k: int| 0 <= k < l.len() implies (#[trigger] r[k]).store_tx_hash == l[k] by {
        lemma_lookup_by_store_tx(s, l[k]);
    }
    if store_hashes_distinct(b) {
        assert forall|k: int| 0 <= k < l.len() implies (#[trigger] r[k]).invalid by {
            let h = l[k];
            assert(names_invalid_ballot(b, h));
            let j: int = choose|j: int| 0 <= j < b.len() && #[trigger] b[j].store_tx_hash == h
                && b[j].invalid;
            assert(s.ballot_by_store_tx.contains_key(b[j].store_tx_hash));
            let i: int = s.ballot_by_store_tx[h] as int;
            assert(b[i].index == i);
            assert(b[i].store_tx_hash == h);
            assert(i == j);
        }
    }
}

/// Decrypted choices are kept, with their blank choices dropped, exactly when
/// the non-blank choices are within the voting's count bounds (as a 32-bit
/// count), hold no option twice and are all among the options; a message
/// that could not be opened is never kept.
pub proof fn lemma_decryption_outcome_follows_rules(
    d: Seq<u32>,
    options: Seq<u32>,
    min_choices: u32,
    max_choices: u32,
)
    ensures
        ({
            let c = nonblank(d);
            let kept = decryption_outcome(Some(d), options, min_choices, max_choices);
            &&& kept is Some <==> (min_choices <= (c.len() as u32) <= max_choices && c.no_duplicates()
                && forall|i: int| 0 <= i < c.len() ==> options.contains(#[trigger] c[i]))
            &&& kept is Some ==> kept == Some(c)
        }),
        decryption_outcome(None, options, min_choices, max_choices) is None,
{
}

/// Blank choices never change what a decryption keeps: messages whose
/// non-blank choices are the same, in the same order, are kept or refused
/// alike.
pub proof fn lemma_blank_choices_change_nothing(
    d1: Seq<u32>,
    d2: Seq<u32>,
    options: Seq<u32>,
    min_choices: u32,
    max_choices: u32,
)
    requires
        nonblank(d1) == nonblank(d2),
    ensures
        decryption_outcome(Some(d1), options, min_choices, max_choices) == decryption_outcome(
            Some(d2),
            options,
            min_choices,
            max_choices,
        ),
{
}

/// Putting a voter on the list leaves it there; a voter that had not voted
/// may then store a ballot, one that had voted still counts as having
/// voted; nothing else changes.
pub proof fn lemma_added_voter_may_vote(s: StorageView, voter: PublicKey, other: PublicKey)
    ensures
        after_add_voter(s, voter).voters.contains_key(voter),
        !has_voted(s, voter) ==> store_verdict(after_add_voter(s, voter), voter) is Ok,
        has_voted(s, voter) ==> has_voted(after_add_voter(s, voter), voter),
        other != voter ==> (after_add_voter(s, voter).voters.contains_key(other)
            == s.voters.contains_key(other) && (s.voters.contains_key(other) ==> after_add_voter(
            s,
            voter,
        ).voters[other] == s.voters[other])),
        after_add_voter(s, voter).ballots == s.ballots,
        after_add_voter(s, voter).ballot_by_store_tx == s.ballot_by_store_tx,
        after_add_voter(s, voter).invalid_ballots == s.invalid_ballots,
{
}

} // verus!
