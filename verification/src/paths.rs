//! Names of the storage indexes that hold a voting's ballots.
use vstd::prelude::*;
use vstd::string::*;

verus! {

/// The indexes that a voting keeps its ballots in.
#[derive(Clone, Copy, Debug, PartialEq, Eq, Structural)]
pub enum IndexKind {
    VotersList,
    Ballots,
    InvalidBallots,
    BallotByStoreTx,
    StoredBallotsCounter,
    DecryptedBallotsCounter,
    Results,
}

/// What every index name starts with.
pub open spec fn registry_prefix() -> Seq<char> {
    "votings_registry."@
}

/// What the name of an index of the given kind ends with.
pub open spec fn index_suffix(kind: IndexKind) -> Seq<char> {
    match kind {
        IndexKind::VotersList => ".voters_list"@,
        IndexKind::Ballots => ".ballots_storage"@,
        IndexKind::InvalidBallots => ".ballots_storage.invalid_ballots"@,
        IndexKind::BallotByStoreTx => ".ballots_storage.ballot_by_store_tx_index"@,
        IndexKind::StoredBallotsCounter => ".ballots_storage.stored_ballots_counter"@,
        IndexKind::DecryptedBallotsCounter => ".ballots_storage.decrypted_ballots_counter"@,
        IndexKind::Results => ".ballots_storage.results"@,
    }
}

/// The name of the index of the given kind of the voting `voting_id`.
pub open spec fn index_path(voting_id: Seq<char>, kind: IndexKind) -> Seq<char> {
    registry_prefix() + voting_id + index_suffix(kind)
}

/// Two words that end differently at the same distance from their ends are
/// different, whatever stands before those endings.
proof fn lemma_endings_differ(x: Seq<char>, s1: Seq<char>, y: Seq<char>, s2: Seq<char>, k: int)
    requires
        0 <= k < s1.len(),
        k < s2.len(),
        s1[s1.len() - 1 - k] != s2[s2.len() - 1 - k],
    ensures
        x + s1 != y + s2,
{
    if x + s1 == y + s2 {
        let w = x + s1;
        assert(w[w.len() - 1 - k] == s1[s1.len() - 1 - k]);
        assert((y + s2)[w.len() - 1 - k] == s2[s2.len() - 1 - k]);
    }
}

/// How far from its end the name of an index of kind `k1` first differs from
/// that of an index of kind `k2`.
spec fn distinguishing_offset(k1: IndexKind, k2: IndexKind) -> int {
    if (k1 == IndexKind::InvalidBallots && k2 == IndexKind::Results) || (k1 == IndexKind::Results
        && k2 == IndexKind::InvalidBallots) {
        2
    } else if (k1 == IndexKind::StoredBallotsCounter && k2 == IndexKind::DecryptedBallotsCounter)
        || (k1 == IndexKind::DecryptedBallotsCounter && k2 == IndexKind::StoredBallotsCounter) {
        18
    } else {
        0
    }
}

/// Indexes of different kinds never share a name, whichever votings they
/// belong to.
pub proof fn lemma_index_paths_of_different_kinds_differ(
    a: Seq<char>,
    b: Seq<char>,
    k1: IndexKind,
    k2: IndexKind,
)
    requires
        k1 != k2,
    ensures
        index_path(a, k1) != index_path(b, k2),
{
    reveal_strlit(".voters_list");
    reveal_strlit(".ballots_storage");
    reveal_strlit(".ballots_storage.invalid_ballots");
    reveal_strlit(".ballots_storage.ballot_by_store_tx_index");
    reveal_strlit(".ballots_storage.stored_ballots_counter");
    reveal_strlit(".ballots_storage.decrypted_ballots_counter");
    reveal_strlit(".ballots_storage.results");
    lemma_endings_differ(
        registry_prefix() + a,
        index_suffix(k1),
        registry_prefix() + b,
        index_suffix(k2),
        distinguishing_offset(k1, k2),
    );
}

/// Two votings with different identifiers never share an index name of a
/// given kind.
pub proof fn lemma_index_path_injective(a: Seq<char>, b: Seq<char>, kind: IndexKind)
    ensures
        index_path(a, kind) == index_path(b, kind) ==> a == b,
{
    let p = registry_prefix();
    let s = index_suffix(kind);
    if index_path(a, kind) == index_path(b, kind) {
        let w = index_path(a, kind);
        assert(w == p + a + s);
        assert(w.len() == p.len() + a.len() + s.len());
        assert((p + b + s).len() == p.len() + b.len() + s.len());
        assert(a.len() == b.len());
        assert forall|i: int| 0 <= i < a.len() implies a[i] == b[i] by {
            assert(w[p.len() + i] == a[i]);
            assert((p + b + s)[p.len() + i] == b[i]);
        }
        assert(a =~= b);
    }
}

fn concat_path(voting_id: &str, suffix: &str) -> (r: String)
    ensures
        r@ == registry_prefix() + voting_id@ + suffix@,
{
    let mut r = String::from_str("votings_registry.");
    r.append(voting_id);
    r.append(suffix);
    r
}

/// The name of the index of voters allowed to vote, with whether each voted.
pub fn voters_list_storage_path(voting_id: &str) -> (r: String)
    ensures
        r@ == index_path(voting_id@, IndexKind::VotersList),
{
    concat_path(voting_id, ".voters_list")
}

/// The name of the list of stored ballots.
pub fn ballots_storage_path(voting_id: &str) -> (r: String)
    ensures
        r@ == index_path(voting_id@, IndexKind::Ballots),
{
    concat_path(voting_id, ".ballots_storage")
}

/// The name of the list of hashes of ballots found invalid.
pub fn invalid_ballots_storage_path(voting_id: &str) -> (r: String)
    ensures
        r@ == index_path(voting_id@, IndexKind::InvalidBallots),
{
    concat_path(voting_id, ".ballots_storage.invalid_ballots")
}

/// The name of the index from storing transactions to ballot indexes.
pub fn ballot_by_store_tx_index_storage_path(voting_id: &str) -> (r: String)
    ensures
        r@ == index_path(voting_id@, IndexKind::BallotByStoreTx),
{
    concat_path(voting_id, ".ballots_storage.ballot_by_store_tx_index")
}

/// The name of the index of stored ballots per district.
pub fn stored_ballots_counter_storage_path(voting_id: &str) -> (r: String)
    ensures
        r@ == index_path(voting_id@, IndexKind::StoredBallotsCounter),
{
    concat_path(voting_id, ".ballots_storage.stored_ballots_counter")
}

/// The name of the entry that counts decrypted and invalid ballots.
pub fn decrypted_ballots_counter_storage_path(voting_id: &str) -> (r: String)
    ensures
        r@ == index_path(voting_id@, IndexKind::DecryptedBallotsCounter),
{
    concat_path(voting_id, ".ballots_storage.decrypted_ballots_counter")
}

/// The name of the index of results per district.
pub fn results_storage_path(voting_id: &str) -> (r: String)
    ensures
        r@ == index_path(voting_id@, IndexKind::Results),
{
    concat_path(voting_id, ".ballots_storage.results")
}

} // verus!
