//! Runs of operations on the ballots of a voting, and what holds after any
//! run that starts from an empty storage.
use vstd::prelude::*;

use crate::ballot::EncryptedChoiceView;
use crate::consistency::{
    consistent, district_ballot_count, has_voted, lemma_district_count_positive,
    lemma_tallied_districts_match_counters, store_hashes_distinct, lemma_add_voter_keeps_consistency, lemma_decryption_keeps_consistency,
    lemma_empty_storage_consistent, lemma_store_keeps_consistency, lemma_tally_keeps_consistency,
};
use crate::keys::{PublicKey, TxHash};
use crate::storage::{
    after_add_voter, after_decryption, after_store, after_tally, ballot_at, ballot_stored_by,
    empty_storage, statistics_of,
    statistics_room, store_verdict, stored_count, BallotsStorageError, StorageView,
};
use crate::tally::{
    districts_of, invalid_count, lemma_invalid_counts_add_up, lemma_invalid_positions_count,
    lemma_sum_agree, sum_over, tally_fits, tally_of,
};

verus! {

/// One operation on the storage: `add_voter_to_voters_list`, `store_ballot`,
/// a decryption with the given outcome (`decrypt_ballot` and
/// `apply_decrypted_choices`), or `tally_results`.
pub enum Step {
    AddVoter(PublicKey),
    Store(PublicKey, u32, EncryptedChoiceView, TxHash),
    Decrypt(u32, TxHash, Option<Seq<u32>>),
    Tally,
}

/// The storage after one operation; a refused operation changes nothing.
pub open spec fn step_result(s: StorageView, step: Step) -> StorageView {
    match step {
        Step::AddVoter(voter) => after_add_voter(s, voter),
        Step::Store(voter, district_id, encrypted_choice, store_tx_hash) => if store_verdict(
            s,
            voter,
        ) is Ok {
            after_store(s, voter, district_id, encrypted_choice, store_tx_hash)
        } else {
            s
        },
        Step::Decrypt(index, decrypt_tx_hash, outcome) => if index < s.ballots.len() {
            after_decryption(s, index, decrypt_tx_hash, outcome)
        } else {
            s
        },
        Step::Tally => after_tally(s),
    }
}

/// The operation may be made: what its function requires, and, for storing,
/// that the new ballot's position fits in 32 bits.
pub open spec fn step_allowed(s: StorageView, step: Step) -> bool {
    match step {
        Step::AddVoter(_) => true,
        Step::Store(voter, district_id, _, _) => store_verdict(s, voter) is Ok ==> stored_count(
            s,
            district_id,
        ) < u32::MAX && s.ballots.len() < u32::MAX,
        Step::Decrypt(index, _, outcome) => index < s.ballots.len() ==> statistics_room(
            s,
            outcome,
        ),
        Step::Tally => tally_fits(s.ballots),
    }
}

/// The storage after the operations `steps`, in order.
pub open spec fn run(s: StorageView, steps: Seq<Step>) -> StorageView
    decreases steps.len(),
{
    if steps.len() == 0 {
        s
    } else {
        step_result(run(s, steps.drop_last()), steps.last())
    }
}

/// Every operation of the run may be made in the storage it meets.
pub open spec fn run_allowed(s: StorageView, steps: Seq<Step>) -> bool
    decreases steps.len(),
{
    if steps.len() == 0 {
        true
    } else {
        run_allowed(s, steps.drop_last()) && step_allowed(run(s, steps.drop_last()), steps.last())
    }
}

/// How many decryptions of the run succeeded.
pub open spec fn decryptions_done(s: StorageView, steps: Seq<Step>) -> nat
    decreases steps.len(),
{
    if steps.len() == 0 {
        0
    } else {
        decryptions_done(s, steps.drop_last()) + match steps.last() {
            Step::Decrypt(index, _, _) => if index < run(s, steps.drop_last()).ballots.len() {
                1nat
            } else {
                0nat
            },
            _ => 0nat,
        }
    }
}

/// After any run from an empty storage, the storage is consistent; the
/// statistics count every successful decryption once, and count as invalid
/// exactly the ballots on the invalid list.
pub proof fn lemma_runs_stay_consistent(voting_id: Seq<char>, steps: Seq<Step>)
    requires
        run_allowed(empty_storage(voting_id), steps),
    ensures
        consistent(run(empty_storage(voting_id), steps)),
        statistics_of(run(empty_storage(voting_id), steps)).decrypted_ballots_amount
            + statistics_of(run(empty_storage(voting_id), steps)).invalid_ballots_amount
            == decryptions_done(empty_storage(voting_id), steps),
        statistics_of(run(empty_storage(voting_id), steps)).invalid_ballots_amount == run(
            empty_storage(voting_id),
            steps,
        ).invalid_ballots.len(),
    decreases steps.len(),
{
    let e = empty_storage(voting_id);
    if steps.len() == 0 {
        lemma_empty_storage_consistent(voting_id);
    } else {
        let before = steps.drop_last();
        lemma_runs_stay_consistent(voting_id, before);
        let s = run(e, before);
        match steps.last() {
            Step::AddVoter(voter) => {
                lemma_add_voter_keeps_consistency(s, voter);
            },
            Step::Store(voter, district_id, encrypted_choice, store_tx_hash) => {
                if store_verdict(s, voter) is Ok {
                    lemma_store_keeps_consistency(
                        s,
                        voter,
                        district_id,
                        encrypted_choice,
                        store_tx_hash,
                    );
                }
            },
            Step::Decrypt(index, decrypt_tx_hash, outcome) => {
                if index < s.ballots.len() {
                    lemma_decryption_keeps_consistency(s, index, decrypt_tx_hash, outcome);
                }
            },
            Step::Tally => {
                lemma_tally_keeps_consistency(s);
            },
        }
    }
}

/// Runs on a prefix of the operations are the first steps of the run.
proof fn lemma_run_take(s: StorageView, steps: Seq<Step>, j: int)
    requires
        0 < j <= steps.len(),
    ensures
        run(s, steps.take(j)) == step_result(run(s, steps.take(j - 1)), steps[j - 1]),
{
    assert(steps.take(j).drop_last() =~= steps.take(j - 1));
}

/// A voter whose ballot was stored in a run is refused every later ballot.
pub proof fn lemma_voter_refused_after_voting(s: StorageView, steps: Seq<Step>, i: int, j: int)
    requires
        0 <= i < j <= steps.len(),
        steps[i] matches Step::Store(voter, _, _, _) && store_verdict(
            run(s, steps.take(i)),
            voter,
        ) is Ok,
    ensures
        steps[i] matches Step::Store(voter, _, _, _) && store_verdict(
            run(s, steps.take(j)),
            voter,
        ) == Err::<(), _>(BallotsStorageError::VoterAlreadyVoted),
    decreases j - i,
{
    let voter = steps[i]->Store_0;
    lemma_run_take(s, steps, j);
    if j == i + 1 {
        assert(has_voted(run(s, steps.take(j)), voter));
    } else {
        lemma_voter_refused_after_voting(s, steps, i, j - 1);
        let prev = run(s, steps.take(j - 1));
        assert(has_voted(prev, voter));
        assert(has_voted(run(s, steps.take(j)), voter));
    }
}

/// A ballot keeps its position, voter, district, encrypted choice and
/// storing transaction through every later operation.
pub proof fn lemma_ballot_keeps_identity(s: StorageView, steps: Seq<Step>, k: int, n: int, i: int)
    requires
        0 <= k <= n <= steps.len(),
        0 <= i < run(s, steps.take(k)).ballots.len(),
    ensures
        ({
            let a = run(s, steps.take(k)).ballots[i];
            let b = run(s, steps.take(n)).ballots[i];
            &&& i < run(s, steps.take(n)).ballots.len()
            &&& b.index == a.index
            &&& b.voter == a.voter
            &&& b.district_id == a.district_id
            &&& b.encrypted_choice == a.encrypted_choice
            &&& b.store_tx_hash == a.store_tx_hash
        }),
    decreases n - k,
{
    if n > k {
        lemma_ballot_keeps_identity(s, steps, k, n - 1, i);
        lemma_run_take(s, steps, n);
    }
}

/// A ballot that a run stored by the transaction `h` stays reachable through
/// `h`, with its position, voter, district and storing transaction, as long
/// as no later store by `h` succeeds.
pub proof fn lemma_stored_ballot_stays_reachable(s: StorageView, steps: Seq<Step>, i: int, n: int)
    requires
        0 <= i < n <= steps.len(),
        steps[i] is Store,
        store_verdict(run(s, steps.take(i)), steps[i]->Store_0) is Ok,
        run(s, steps.take(i)).ballots.len() <= u32::MAX,
        forall|k: int|
            i < k < n && #[trigger] steps[k] is Store ==> steps[k]->Store_3 != steps[i]->Store_3
                || store_verdict(run(s, steps.take(k)), steps[k]->Store_0) is Err,
    ensures
        ({
            let m = run(s, steps.take(i)).ballots.len();
            let t = run(s, steps.take(n));
            let h = steps[i]->Store_3;
            &&& t.ballot_by_store_tx.contains_key(h)
            &&& t.ballot_by_store_tx[h] == m
            &&& ballot_stored_by(t, h) == ballot_at(t, m as u32)
            &&& ballot_at(t, m as u32) matches Some(b) && b.index == m && b.voter
                == steps[i]->Store_0 && b.district_id == steps[i]->Store_1 && b.store_tx_hash == h
        }),
    decreases n - i,
{
    let m = run(s, steps.take(i)).ballots.len();
    let h = steps[i]->Store_3;
    lemma_run_take(s, steps, n);
    if n == i + 1 {
        let t = run(s, steps.take(n));
        assert(t.ballots[m as int].store_tx_hash == h);
    } else {
        lemma_stored_ballot_stays_reachable(s, steps, i, n - 1);
        lemma_run_take(s, steps, i + 1);
        lemma_ballot_keeps_identity(s, steps, i + 1, n, m as int);
        let prev = run(s, steps.take(n - 1));
        let t = run(s, steps.take(n));
        assert(prev.ballot_by_store_tx[h] == m);
        if steps[n - 1] is Store {
            assert(steps[n - 1]->Store_3 != h || store_verdict(prev, steps[n - 1]->Store_0) is Err);
        }
        assert(t.ballot_by_store_tx.contains_key(h) && t.ballot_by_store_tx[h] == m);
    }
}

/// The positions of the ballots that the run's successful decryptions
/// decrypted.
pub open spec fn decrypted_positions(s: StorageView, steps: Seq<Step>) -> Set<int>
    decreases steps.len(),
{
    if steps.len() == 0 {
        Set::empty()
    } else {
        let before = decrypted_positions(s, steps.drop_last());
        match steps.last() {
            Step::Decrypt(index, _, _) => if index < run(s, steps.drop_last()).ballots.len() {
                before.insert(index as int)
            } else {
                before
            },
            _ => before,
        }
    }
}

/// No ballot was decrypted twice in the run.
pub open spec fn decrypted_at_most_once(s: StorageView, steps: Seq<Step>) -> bool
    decreases steps.len(),
{
    if steps.len() == 0 {
        true
    } else {
        &&& decrypted_at_most_once(s, steps.drop_last())
        &&& match steps.last() {
            Step::Decrypt(index, _, _) => index < run(s, steps.drop_last()).ballots.len()
                ==> !decrypted_positions(s, steps.drop_last()).contains(index as int),
            _ => true,
        }
    }
}

/// The positions of the ballots that the run's decryptions found invalid,
/// in the order they were found.
pub open spec fn invalid_positions(s: StorageView, steps: Seq<Step>) -> Seq<int>
    decreases steps.len(),
{
    if steps.len() == 0 {
        Seq::empty()
    } else {
        let before = invalid_positions(s, steps.drop_last());
        match steps.last() {
            Step::Decrypt(index, _, outcome) => if index < run(s, steps.drop_last()).ballots.len()
                && outcome is None {
                before.push(index as int)
            } else {
                before
            },
            _ => before,
        }
    }
}

/// The positions of the ballots marked invalid.
pub open spec fn invalid_ballot_positions(s: StorageView) -> Set<int> {
    Set::new(|p: int| 0 <= p < s.ballots.len() && s.ballots[p].invalid)
}

/// What a run that decrypts each ballot at most once keeps about the
/// invalid ballots.
spec fn invalid_list_follows(s: StorageView, steps: Seq<Step>) -> bool {
    let t = run(s, steps);
    let p = invalid_positions(s, steps);
    let d = decrypted_positions(s, steps);
    &&& t.invalid_ballots.len() == p.len()
    &&& p.no_duplicates()
    &&& forall|k: int|
        0 <= k < p.len() ==> 0 <= #[trigger] p[k] < t.ballots.len() && t.ballots[p[k]].invalid
            && d.contains(p[k]) && t.invalid_ballots[k] == t.ballots[p[k]].store_tx_hash
    &&& forall|q: int| 0 <= q < t.ballots.len() && #[trigger] t.ballots[q].invalid ==> p.contains(q)
    &&& forall|q: int| #[trigger] d.contains(q) ==> 0 <= q < t.ballots.len()
}

proof fn lemma_invalid_list_follows(voting_id: Seq<char>, steps: Seq<Step>)
    requires
        run_allowed(empty_storage(voting_id), steps),
        decrypted_at_most_once(empty_storage(voting_id), steps),
    ensures
        invalid_list_follows(empty_storage(voting_id), steps),
    decreases steps.len(),
{
    let e = empty_storage(voting_id);
    if steps.len() > 0 {
        let before = steps.drop_last();
        lemma_invalid_list_follows(voting_id, before);
        let s = run(e, before);
        let p0 = invalid_positions(e, before);
        let d0 = decrypted_positions(e, before);
        let t = run(e, steps);
        let p = invalid_positions(e, steps);
        match steps.last() {
            Step::Store(voter, _, _, _) => {
                if store_verdict(s, voter) is Ok {
                    assert forall|q: int|
                        0 <= q < t.ballots.len() && #[trigger] t.ballots[q].invalid implies p.contains(
                        q,
                    ) by {
                        assert(q < s.ballots.len());
                        assert(s.ballots[q].invalid);
                    }
                }
            },
            Step::Decrypt(index, decrypt_tx_hash, outcome) => {
                if index < s.ballots.len() {
                    let x: int = index as int;
                    assert(!d0.contains(x));
                    assert(!p0.contains(x)) by {
                        if p0.contains(x) {
                            let k: int = choose|k: int| 0 <= k < p0.len() && p0[k] == x;
                            assert(d0.contains(p0[k]));
                        }
                    }
                    assert(!s.ballots[x].invalid);
                    assert forall|q: int|
                        0 <= q < t.ballots.len() && #[trigger] t.ballots[q].invalid implies p.contains(
                        q,
                    ) by {
                        if q == x {
                            assert(outcome is None);
                            assert(p[p.len() - 1] == x);
                        } else {
                            assert(s.ballots[q].invalid);
                            assert(p0.contains(q));
                            let k: int = choose|k: int| 0 <= k < p0.len() && p0[k] == q;
                            assert(p[k] == q);
                        }
                    }
                    assert forall|k: int| 0 <= k < p.len() implies 0 <= #[trigger] p[k]
                        < t.ballots.len() && t.ballots[p[k]].invalid && decrypted_positions(
                        e,
                        steps,
                    ).contains(p[k]) && t.invalid_ballots[k] == t.ballots[p[k]].store_tx_hash by {
                        if k < p0.len() {
                            assert(p[k] == p0[k]);
                        }
                    }
                    if outcome is None {
                        assert forall|a: int, b: int|
                            0 <= a < p.len() && 0 <= b < p.len() && a != b implies p[a] != p[b] by {
                            if a < p0.len() && b < p0.len() {
                                assert(p0[a] != p0[b]);
                            } else if a < p0.len() {
                                assert(p0.contains(p0[a]));
                            } else {
                                assert(p0.contains(p0[b]));
                            }
                        }
                    }
                }
            },
            _ => {},
        }
    }
}

/// After any run from an empty storage that decrypts each ballot at most
/// once, the invalid list names each ballot marked invalid exactly once, in
/// the order they were found; the statistics count as invalid exactly the
/// ballots marked invalid; and if no two ballots share a storing
/// transaction, no transaction stands twice on the invalid list.
pub proof fn lemma_invalid_ballots_listed_once(voting_id: Seq<char>, steps: Seq<Step>)
    requires
        run_allowed(empty_storage(voting_id), steps),
        decrypted_at_most_once(empty_storage(voting_id), steps),
    ensures
        ({
            let t = run(empty_storage(voting_id), steps);
            let p = invalid_positions(empty_storage(voting_id), steps);
            &&& p.no_duplicates()
            &&& p.to_set() == invalid_ballot_positions(t)
            &&& t.invalid_ballots == p.map_values(|q: int| t.ballots[q].store_tx_hash)
            &&& invalid_ballot_positions(t).finite()
            &&& statistics_of(t).invalid_ballots_amount == invalid_ballot_positions(t).len()
            &&& store_hashes_distinct(t.ballots) ==> t.invalid_ballots.no_duplicates()
        }),
{
    let e = empty_storage(voting_id);
    lemma_invalid_list_follows(voting_id, steps);
    lemma_runs_stay_consistent(voting_id, steps);
    let t = run(e, steps);
    let p = invalid_positions(e, steps);
    assert forall|q: int| #[trigger] p.to_set().contains(q) == invalid_ballot_positions(t).contains(q)
        by {
        if p.contains(q) {
            let k: int = choose|k: int| 0 <= k < p.len() && p[k] == q;
            assert(0 <= p[k] < t.ballots.len());
        }
    }
    assert(p.to_set() =~= invalid_ballot_positions(t));
    p.unique_seq_to_set();
    vstd::seq_lib::seq_to_set_is_finite(p);
    assert(t.invalid_ballots =~= p.map_values(|q: int| t.ballots[q].store_tx_hash));
    if store_hashes_distinct(t.ballots) {
        assert forall|a: int, b: int|
            0 <= a < t.invalid_ballots.len() && 0 <= b < t.invalid_ballots.len() && a != b implies t.invalid_ballots[a]
            != t.invalid_ballots[b] by {
            assert(p[a] != p[b]);
            assert(t.ballots[p[a]].store_tx_hash != t.ballots[p[b]].store_tx_hash);
        }
    }
}

/// After any run from an empty storage that decrypts each ballot at most
/// once, tallying gives results for exactly the districts with a counter,
/// and the invalid ballots of all districts add up to the statistics'
/// invalid count.
pub proof fn lemma_tally_matches_statistics(voting_id: Seq<char>, steps: Seq<Step>)
    requires
        run_allowed(empty_storage(voting_id), steps),
        decrypted_at_most_once(empty_storage(voting_id), steps),
        tally_fits(run(empty_storage(voting_id), steps).ballots),
    ensures
        ({
            let t = after_tally(run(empty_storage(voting_id), steps));
            &&& t.results.dom() == t.stored_ballots_counter.dom()
            &&& t.results.dom().finite()
            &&& sum_over(t.results.dom(), |d: u32| t.results[d].invalid_ballots_amount as int)
                == statistics_of(t).invalid_ballots_amount
        }),
{
    let e = empty_storage(voting_id);
    let s = run(e, steps);
    let t = after_tally(s);
    let bs = s.ballots;
    lemma_runs_stay_consistent(voting_id, steps);
    lemma_invalid_ballots_listed_once(voting_id, steps);
    lemma_tallied_districts_match_counters(s);
    lemma_invalid_counts_add_up(bs);
    lemma_invalid_positions_count(bs);
    assert forall|d: u32| #[trigger] t.results.contains_key(d) == districts_of(bs).contains(d) by {
        lemma_district_count_positive(bs, d);
        assert(s.stored_ballots_counter.contains_key(d) <==> district_ballot_count(bs, d) > 0);
    }
    assert(t.results.dom() =~= districts_of(bs));
    assert forall|d: u32| districts_of(bs).contains(d) implies #[trigger] (t.results[d].invalid_ballots_amount
        as int) == invalid_count(bs, d) as int by {
        assert(tally_of(bs).contains_key(d));
        assert(invalid_count(bs, d) <= u32::MAX);
    }
    lemma_sum_agree(
        districts_of(bs),
        |d: u32| t.results[d].invalid_ballots_amount as int,
        |d: u32| invalid_count(bs, d) as int,
    );
    assert(invalid_ballot_positions(t) =~= Set::new(
        |p: int| 0 <= p < bs.len() && bs[p].invalid,
    ));
}

} // verus!
