//! Counting the ballots of a voting per district: the invalid ballots and
//! how often each option was chosen.
use std::collections::HashMap;
use vstd::prelude::*;

use crate::ballot::{BallotSchema, BallotSchemaView, VotingResults, VotingResultsView};

verus! {

broadcast use vstd::std_specs::hash::group_hash_axioms;

/// How many times `c` stands in `s`.
pub open spec fn occurrences(s: Seq<u32>, c: u32) -> nat
    decreases s.len(),
{
    if s.len() == 0 {
        0
    } else {
        occurrences(s.drop_last(), c) + if s.last() == c {
            1nat
        } else {
            0nat
        }
    }
}

/// How many of the ballots of district `d` are marked invalid.
pub open spec fn invalid_count(ballots: Seq<BallotSchemaView>, d: u32) -> nat
    decreases ballots.len(),
{
    if ballots.len() == 0 {
        0
    } else {
        invalid_count(ballots.drop_last(), d) + if ballots.last().district_id == d
            && ballots.last().invalid {
            1nat
        } else {
            0nat
        }
    }
}

/// How many times option `c` stands among the decrypted choices of the
/// ballots of district `d`.
pub open spec fn choice_count(ballots: Seq<BallotSchemaView>, d: u32, c: u32) -> nat
    decreases ballots.len(),
{
    if ballots.len() == 0 {
        0
    } else {
        choice_count(ballots.drop_last(), d, c) + if ballots.last().district_id == d {
            occurrences(ballots.last().decrypted_choices, c)
        } else {
            0nat
        }
    }
}

/// Some ballot belongs to district `d`.
pub open spec fn in_district(ballots: Seq<BallotSchemaView>, d: u32) -> bool {
    exists|i: int| 0 <= i < ballots.len() && #[trigger] ballots[i].district_id == d
}

/// The results of district `d`: each option chosen at least once, with how
/// often, and the number of invalid ballots.
pub open spec fn district_results(ballots: Seq<BallotSchemaView>, d: u32) -> VotingResultsView {
    VotingResultsView {
        district_id: d,
        tally: Map::new(
            |c: u32| choice_count(ballots, d, c) > 0,
            |c: u32| choice_count(ballots, d, c) as u32,
        ),
        invalid_ballots_amount: invalid_count(ballots, d) as u32,
    }
}

/// The results of every district that some ballot belongs to.
pub open spec fn tally_of(ballots: Seq<BallotSchemaView>) -> Map<u32, VotingResultsView> {
    Map::new(|d: u32| in_district(ballots, d), |d: u32| district_results(ballots, d))
}

/// Every count of the tally fits in 32 bits.
pub open spec fn tally_fits(ballots: Seq<BallotSchemaView>) -> bool {
    &&& forall|d: u32, c: u32| #[trigger] choice_count(ballots, d, c) <= u32::MAX
    &&& forall|d: u32| #[trigger] invalid_count(ballots, d) <= u32::MAX
}

/// The views of a map of results.
pub open spec fn results_view(m: Map<u32, VotingResults>) -> Map<u32, VotingResultsView> {
    m.map_values(|r: VotingResults| r@)
}

pub proof fn lemma_take_step<T>(s: Seq<T>, i: int)
    requires
        0 <= i < s.len(),
    ensures
        s.take(i + 1).drop_last() == s.take(i),
        s.take(i + 1).last() == s[i],
        s.take(i + 1).len() == i + 1,
{
    assert(s.take(i + 1).drop_last() =~= s.take(i));
}

proof fn lemma_occurrences_prefix(s: Seq<u32>, j: int, c: u32)
    requires
        0 <= j <= s.len(),
    ensures
        occurrences(s.take(j), c) <= occurrences(s, c),
    decreases s.len() - j,
{
    if j < s.len() {
        lemma_take_step(s, j);
        lemma_occurrences_prefix(s, j + 1, c);
    } else {
        assert(s.take(j) =~= s);
    }
}

/// Counts over the first ballots never exceed those over all of them.
proof fn lemma_counts_prefix(ballots: Seq<BallotSchemaView>, i: int, d: u32, c: u32)
    requires
        0 <= i <= ballots.len(),
    ensures
        choice_count(ballots.take(i), d, c) <= choice_count(ballots, d, c),
        invalid_count(ballots.take(i), d) <= invalid_count(ballots, d),
    decreases ballots.len() - i,
{
    if i < ballots.len() {
        lemma_take_step(ballots, i);
        lemma_counts_prefix(ballots, i + 1, d, c);
    } else {
        assert(ballots.take(i) =~= ballots);
    }
}

/// A district that no ballot belongs to has nothing counted.
proof fn lemma_counts_outside_district(ballots: Seq<BallotSchemaView>, d: u32, c: u32)
    requires
        !in_district(ballots, d),
    ensures
        choice_count(ballots, d, c) == 0,
        invalid_count(ballots, d) == 0,
    decreases ballots.len(),
{
    if ballots.len() > 0 {
        let t = ballots.drop_last();
        assert(ballots[ballots.len() - 1].district_id != d);
        assert forall|i: int| 0 <= i < t.len() implies #[trigger] t[i].district_id != d by {
            assert(ballots[i].district_id != d);
        }
        lemma_counts_outside_district(t, d, c);
    }
}

/// Whether the first `i + 1` ballots touch district `d`.
pub proof fn lemma_in_district_step(ballots: Seq<BallotSchemaView>, i: int, d: u32)
    requires
        0 <= i < ballots.len(),
    ensures
        in_district(ballots.take(i + 1), d) == (in_district(ballots.take(i), d)
            || ballots[i].district_id == d),
{
    let a = ballots.take(i);
    let b = ballots.take(i + 1);
    if in_district(a, d) {
        let j = choose|j: int| 0 <= j < a.len() && #[trigger] a[j].district_id == d;
        assert(b[j].district_id == d);
    }
    if ballots[i].district_id == d {
        assert(b[i].district_id == d);
    }
    if in_district(b, d) && ballots[i].district_id != d {
        let j = choose|j: int| 0 <= j < b.len() && #[trigger] b[j].district_id == d;
        assert(a[j].district_id == d);
    }
}

/// Taking one ballot out of the list takes its part out of every count.
proof fn lemma_counts_remove(ballots: Seq<BallotSchemaView>, i: int, d: u32, c: u32)
    requires
        0 <= i < ballots.len(),
    ensures
        choice_count(ballots, d, c) == choice_count(ballots.remove(i), d, c) + if ballots[i].district_id
            == d {
            occurrences(ballots[i].decrypted_choices, c)
        } else {
            0nat
        },
        invalid_count(ballots, d) == invalid_count(ballots.remove(i), d) + if ballots[i].district_id
            == d && ballots[i].invalid {
            1nat
        } else {
            0nat
        },
        in_district(ballots, d) == (in_district(ballots.remove(i), d) || ballots[i].district_id
            == d),
    decreases ballots.len(),
{
    let r = ballots.remove(i);
    if i == ballots.len() - 1 {
        assert(r =~= ballots.drop_last());
    } else {
        let t = ballots.drop_last();
        lemma_counts_remove(t, i, d, c);
        assert(r.drop_last() =~= t.remove(i));
        assert(r.last() == ballots.last());
    }
    if in_district(ballots, d) && ballots[i].district_id != d {
        let k: int = choose|k: int| 0 <= k < ballots.len() && #[trigger] ballots[k].district_id == d;
        if k < i {
            assert(r[k].district_id == d);
        } else {
            assert(r[k - 1].district_id == d);
        }
    }
    if in_district(r, d) {
        let k: int = choose|k: int| 0 <= k < r.len() && #[trigger] r[k].district_id == d;
        if k < i {
            assert(ballots[k].district_id == d);
        } else {
            assert(ballots[k + 1].district_id == d);
        }
    }
    if ballots[i].district_id == d {
        assert(in_district(ballots, d));
    }
}

/// Lists of ballots that hold the same ballots, in any order, count alike.
proof fn lemma_counts_ignore_order(a: Seq<BallotSchemaView>, b: Seq<BallotSchemaView>, d: u32, c: u32)
    requires
        a.to_multiset() == b.to_multiset(),
    ensures
        choice_count(a, d, c) == choice_count(b, d, c),
        invalid_count(a, d) == invalid_count(b, d),
        in_district(a, d) == in_district(b, d),
    decreases a.len(),
{
    broadcast use vstd::seq_lib::group_to_multiset_ensures;

    if a.len() == 0 {
        assert(a.to_multiset().len() == a.len());
        assert(b.to_multiset().len() == b.len());
        assert(b.len() == 0);
    } else {
        let x = a.last();
        assert(a.remove(a.len() - 1) =~= a.drop_last());
        assert(a.to_multiset().count(x) > 0) by {
            assert(a.contains(a[a.len() - 1]));
        }
        assert(b.contains(x));
        let j: int = choose|j: int| 0 <= j < b.len() && b[j] == x;
        assert(a.drop_last().to_multiset() =~= b.remove(j).to_multiset());
        lemma_counts_ignore_order(a.drop_last(), b.remove(j), d, c);
        lemma_counts_remove(a, a.len() - 1, d, c);
        lemma_counts_remove(b, j, d, c);
    }
}

/// The tally depends only on which ballots there are, not on their order.
pub proof fn lemma_tally_ignores_order(a: Seq<BallotSchemaView>, b: Seq<BallotSchemaView>)
    requires
        a.to_multiset() == b.to_multiset(),
    ensures
        tally_of(a) == tally_of(b),
{
    assert forall|d: u32| #[trigger] tally_of(a).contains_key(d) == tally_of(b).contains_key(d)
        by {
        lemma_counts_ignore_order(a, b, d, 0);
    }
    assert forall|d: u32| #[trigger] tally_of(a).contains_key(d) implies tally_of(a)[d]
        == tally_of(b)[d] by {
        assert forall|c: u32| #[trigger] choice_count(a, d, c) == choice_count(b, d, c) by {
            lemma_counts_ignore_order(a, b, d, c);
        }
        lemma_counts_ignore_order(a, b, d, 0);
        assert(district_results(a, d).tally =~= district_results(b, d).tally);
    }
    assert(tally_of(a) =~= tally_of(b));
}

/// The values of `f` over `keys`, added up.
pub open spec fn sum_over(keys: Set<u32>, f: spec_fn(u32) -> int) -> int {
    keys.fold(0int, |acc: int, d: u32| acc + f(d))
}

proof fn lemma_sum_commutes(f: spec_fn(u32) -> int)
    ensures
        vstd::set::fold::is_fun_commutative(|acc: int, d: u32| acc + f(d)),
{
}

proof fn lemma_sum_empty(f: spec_fn(u32) -> int)
    ensures
        sum_over(Set::empty(), f) == 0,
{
    vstd::set::fold::lemma_fold_empty(0int, |acc: int, d: u32| acc + f(d));
}

proof fn lemma_sum_insert(keys: Set<u32>, f: spec_fn(u32) -> int, k: u32)
    requires
        keys.finite(),
        !keys.contains(k),
    ensures
        sum_over(keys.insert(k), f) == sum_over(keys, f) + f(k),
{
    lemma_sum_commutes(f);
    vstd::set::fold::lemma_fold_insert(keys, 0int, |acc: int, d: u32| acc + f(d), k);
}

/// Sums of two functions that differ only at `k`, by `delta`, differ by
/// `delta` when `k` is among the keys, and agree otherwise.
proof fn lemma_sum_change(keys: Set<u32>, f: spec_fn(u32) -> int, g: spec_fn(u32) -> int, k: u32, delta: int)
    requires
        keys.finite(),
        forall|d: u32| d != k ==> #[trigger] f(d) == g(d),
        g(k) == f(k) + delta,
    ensures
        sum_over(keys, g) == sum_over(keys, f) + if keys.contains(k) {
            delta
        } else {
            0
        },
    decreases keys.len(),
{
    if keys.len() == 0 {
        assert(keys =~= Set::<u32>::empty());
        lemma_sum_empty(f);
        lemma_sum_empty(g);
    } else {
        let d = keys.choose();
        let r = keys.remove(d);
        assert(r.insert(d) =~= keys);
        lemma_sum_change(r, f, g, k, delta);
        lemma_sum_insert(r, f, d);
        lemma_sum_insert(r, g, d);
    }
}

/// Sums of two functions that agree on the keys are equal.
pub proof fn lemma_sum_agree(keys: Set<u32>, f: spec_fn(u32) -> int, g: spec_fn(u32) -> int)
    requires
        keys.finite(),
        forall|d: u32| keys.contains(d) ==> #[trigger] f(d) == g(d),
    ensures
        sum_over(keys, f) == sum_over(keys, g),
    decreases keys.len(),
{
    if keys.len() == 0 {
        assert(keys =~= Set::<u32>::empty());
        lemma_sum_empty(f);
        lemma_sum_empty(g);
    } else {
        let d = keys.choose();
        let r = keys.remove(d);
        assert(r.insert(d) =~= keys);
        lemma_sum_agree(r, f, g);
        lemma_sum_insert(r, f, d);
        lemma_sum_insert(r, g, d);
    }
}

/// The positions of the ballots marked invalid number as many as the
/// ballots marked invalid.
pub proof fn lemma_invalid_positions_count(ballots: Seq<BallotSchemaView>)
    ensures
        Set::new(|p: int| 0 <= p < ballots.len() && ballots[p].invalid).finite(),
        Set::new(|p: int| 0 <= p < ballots.len() && ballots[p].invalid).len()
            == invalid_ballot_count(ballots),
    decreases ballots.len(),
{
    let a = Set::new(|p: int| 0 <= p < ballots.len() && ballots[p].invalid);
    if ballots.len() == 0 {
        assert(a =~= Set::<int>::empty());
    } else {
        let t = ballots.drop_last();
        lemma_invalid_positions_count(t);
        let b = Set::new(|p: int| 0 <= p < t.len() && t[p].invalid);
        let n: int = t.len() as int;
        if ballots.last().invalid {
            assert(a =~= b.insert(n));
        } else {
            assert(a =~= b);
        }
    }
}

/// How many of the ballots are marked invalid.
pub open spec fn invalid_ballot_count(ballots: Seq<BallotSchemaView>) -> nat
    decreases ballots.len(),
{
    if ballots.len() == 0 {
        0
    } else {
        invalid_ballot_count(ballots.drop_last()) + if ballots.last().invalid {
            1nat
        } else {
            0nat
        }
    }
}

/// The districts that some ballot belongs to.
pub open spec fn districts_of(ballots: Seq<BallotSchemaView>) -> Set<u32> {
    Set::new(|d: u32| in_district(ballots, d))
}

/// The invalid ballots of all districts, added up, are the invalid ballots.
pub proof fn lemma_invalid_counts_add_up(ballots: Seq<BallotSchemaView>)
    ensures
        districts_of(ballots).finite(),
        sum_over(districts_of(ballots), |d: u32| invalid_count(ballots, d) as int)
            == invalid_ballot_count(ballots),
    decreases ballots.len(),
{
    let dist = ballots.map_values(|b: BallotSchemaView| b.district_id);
    assert forall|d: u32| #[trigger] districts_of(ballots).contains(d) == dist.to_set().contains(d)
        by {
        if in_district(ballots, d) {
            let i: int = choose|i: int| 0 <= i < ballots.len() && #[trigger] ballots[i].district_id == d;
            assert(dist[i] == d);
        }
        if dist.to_set().contains(d) {
            assert(dist.contains(d));
            let i: int = choose|i: int| 0 <= i < dist.len() && dist[i] == d;
            assert(ballots[i].district_id == d);
        }
    }
    assert(districts_of(ballots) =~= dist.to_set());
    vstd::seq_lib::seq_to_set_is_finite(dist);
    if ballots.len() == 0 {
        assert(districts_of(ballots) =~= Set::<u32>::empty());
        lemma_sum_empty(|d: u32| invalid_count(ballots, d) as int);
    } else {
        let t = ballots.drop_last();
        let x = ballots.last();
        lemma_invalid_counts_add_up(t);
        let f = |d: u32| invalid_count(t, d) as int;
        let g = |d: u32| invalid_count(ballots, d) as int;
        let delta: int = if x.invalid {
            1
        } else {
            0
        };
        assert forall|d: u32| d != x.district_id implies #[trigger] f(d) == g(d) by {}
        assert forall|d: u32| #[trigger] districts_of(ballots).contains(d) == (districts_of(
            t,
        ).contains(d) || d == x.district_id) by {
            lemma_in_district_step(ballots, ballots.len() - 1, d);
            assert(ballots.take(ballots.len() - 1) =~= t);
            assert(ballots.take(ballots.len() as int) =~= ballots);
        }
        if in_district(t, x.district_id) {
            assert(districts_of(ballots) =~= districts_of(t));
            lemma_sum_change(districts_of(t), f, g, x.district_id, delta);
        } else {
            assert(districts_of(ballots) =~= districts_of(t).insert(x.district_id));
            lemma_counts_outside_district(t, x.district_id, 0);
            lemma_sum_change(districts_of(t), f, g, x.district_id, delta);
            lemma_sum_insert(districts_of(t), g, x.district_id);
        }
    }
}

/// Adds the choices of one ballot to the tally of its district.
fn count_choices(
    tally: &mut HashMap<u32, u32>,
    choices: &Vec<u32>,
    ballots: Ghost<Seq<BallotSchemaView>>,
    i: Ghost<int>,
)
    requires
        0 <= i@ < ballots@.len(),
        choices@ == ballots@[i@].decrypted_choices,
        tally_fits(ballots@),
        forall|c: u32|
            #[trigger] old(tally)@.contains_key(c) == (choice_count(
                ballots@.take(i@),
                ballots@[i@].district_id,
                c,
            ) > 0),
        forall|c: u32|
            #[trigger] old(tally)@.contains_key(c) ==> old(tally)@[c] == choice_count(
                ballots@.take(i@),
                ballots@[i@].district_id,
                c,
            ),
    ensures
        forall|c: u32|
            #[trigger] final(tally)@.contains_key(c) == (choice_count(
                ballots@.take(i@ + 1),
                ballots@[i@].district_id,
                c,
            ) > 0),
        forall|c: u32|
            #[trigger] final(tally)@.contains_key(c) ==> final(tally)@[c] == choice_count(
                ballots@.take(i@ + 1),
                ballots@[i@].district_id,
                c,
            ),
{
    let ghost bs = ballots@;
    let ghost d = bs[i@].district_id;
    let ghost base = bs.take(i@);
    proof {
        lemma_take_step(bs, i@);
    }
    let mut j: usize = 0;
    while j < choices.len()
        invariant
            j <= choices@.len(),
            0 <= i@ < bs.len(),
            choices@ == bs[i@].decrypted_choices,
            d == bs[i@].district_id,
            base == bs.take(i@),
            tally_fits(bs),
            bs.take(i@ + 1).drop_last() == base,
            bs.take(i@ + 1).last() == bs[i@],
            forall|c: u32|
                #[trigger] tally@.contains_key(c) == (choice_count(base, d, c) + occurrences(
                    choices@.take(j as int),
                    c,
                ) > 0),
            forall|c: u32|
                #[trigger] tally@.contains_key(c) ==> tally@[c] == choice_count(base, d, c)
                    + occurrences(choices@.take(j as int), c),
        decreases choices.len() - j,
    {
        let c: u32 = choices[j];
        proof {
            lemma_take_step(choices@, j as int);
            lemma_occurrences_prefix(choices@, j as int + 1, c);
            lemma_counts_prefix(bs, i@ + 1, d, c);
            assert(choice_count(bs.take(i@ + 1), d, c) == choice_count(base, d, c) + occurrences(
                choices@,
                c,
            ));
            assert(choice_count(bs, d, c) <= u32::MAX);
        }
        let n: u32 = match tally.get(&c) {
            Some(n) => *n,
            None => 0,
        };
        tally.insert(c, n + 1);
        j = j + 1;
        proof {
            assert forall|x: u32| #[trigger] tally@.contains_key(x) == (choice_count(base, d, x)
                + occurrences(choices@.take(j as int), x) > 0) by {
                lemma_take_step(choices@, j as int - 1);
            }
            assert forall|x: u32| #[trigger] tally@.contains_key(x) implies tally@[x]
                == choice_count(base, d, x) + occurrences(choices@.take(j as int), x) by {
                lemma_take_step(choices@, j as int - 1);
            }
        }
    }
    proof {
        assert(choices@.take(j as int) =~= choices@);
    }
}

/// The results of every district, computed from the list of ballots.
pub fn tally_ballots(ballots: &Vec<BallotSchema>) -> (r: HashMap<u32, VotingResults>)
    requires
        tally_fits(ballots@.map_values(|b: BallotSchema| b@)),
    ensures
        results_view(r@) == tally_of(ballots@.map_values(|b: BallotSchema| b@)),
{
    let ghost bs = ballots@.map_values(|b: BallotSchema| b@);
    let mut computed: HashMap<u32, VotingResults> = HashMap::new();
    let mut i: usize = 0;
    while i < ballots.len()
        invariant
            i <= ballots@.len(),
            bs == ballots@.map_values(|b: BallotSchema| b@),
            tally_fits(bs),
            forall|d: u32| #[trigger] computed@.contains_key(d) == in_district(bs.take(i as int), d),
            forall|d: u32| #[trigger]
                computed@.contains_key(d) ==> computed@[d]@ == district_results(
                    bs.take(i as int),
                    d,
                ),
        decreases ballots.len() - i,
    {
        let ghost before = computed@;
        let d: u32 = ballots[i].district_id;
        proof {
            lemma_take_step(bs, i as int);
            lemma_counts_prefix(bs, i as int + 1, d, 0);
            assert(bs[i as int] == ballots@[i as int]@);
        }
        let mut t = match computed.remove(&d) {
            Some(t) => t,
            None => {
                proof {
                    assert forall|c: u32| choice_count(bs.take(i as int), d, c) == 0 by {
                        lemma_counts_outside_district(bs.take(i as int), d, c);
                    }
                    lemma_counts_outside_district(bs.take(i as int), d, 0);
                }
                VotingResults::new(d)
            },
        };
        assert(t@.district_id == d);
        assert(t@.invalid_ballots_amount == invalid_count(bs.take(i as int), d)) by {
            if before.contains_key(d) {
            } else {
                lemma_counts_outside_district(bs.take(i as int), d, 0);
            }
        }
        proof {
            if before.contains_key(d) {
                assert(before[d]@ == district_results(bs.take(i as int), d));
                assert(t@ == before[d]@);
            }
        }
        assert forall|c: u32|
            #[trigger] t.tally@.contains_key(c) == (choice_count(bs.take(i as int), d, c) > 0)
                && (t.tally@.contains_key(c) ==> t.tally@[c] == choice_count(
                bs.take(i as int),
                d,
                c,
            )) by {
            lemma_counts_prefix(bs, i as int, d, c);
            if !before.contains_key(d) {
                lemma_counts_outside_district(bs.take(i as int), d, c);
            }
        }
        if ballots[i].invalid {
            t.invalid_ballots_amount = t.invalid_ballots_amount + 1;
        }
        count_choices(&mut t.tally, &ballots[i].decrypted_choices, Ghost(bs), Ghost(i as int));
        computed.insert(d, t);
        i = i + 1;
        proof {
            assert forall|x: u32| #[trigger]
                computed@.contains_key(x) == in_district(bs.take(i as int), x) by {
                lemma_in_district_step(bs, i as int - 1, x);
            }
            assert forall|x: u32| #[trigger]
                computed@.contains_key(x) implies computed@[x]@ == district_results(
                bs.take(i as int),
                x,
            ) by {
                let a = district_results(bs.take(i as int), x);
                assert(computed@[x]@.tally =~= a.tally);
            }
        }
    }
    proof {
        assert(bs.take(i as int) =~= bs);
        assert(results_view(computed@) =~= tally_of(bs));
    }
    computed
}

} // verus!
