//! Validation of the choices read from a decrypted ballot.
use vstd::prelude::*;

verus! {

/// Why a list of decrypted choices was rejected.
#[derive(Clone, Copy, Debug, PartialEq, Eq, Structural)]
pub enum ChoicesError {
    /// Fewer choices than the voting's minimum.
    LessThanMinChoices,
    /// More choices than the voting's maximum.
    MoreThanMaxChoices,
    /// The same option stands more than once.
    Duplicates,
    /// A choice that is not one of the voting's options.
    OutOfBounds,
}

/// Every element of `s` is one of `options`.
pub open spec fn all_among(s: Seq<u32>, options: Seq<u32>) -> bool {
    forall|i: int| 0 <= i < s.len() ==> options.contains(#[trigger] s[i])
}

/// The verdict on a list of choices: the first rule it breaks, in the order
/// minimum count, maximum count, no option chosen twice, options. The count
/// is taken modulo 2^32, as a 32-bit number.
pub open spec fn choices_verdict(
    choices: Seq<u32>,
    options: Seq<u32>,
    min_choices: u32,
    max_choices: u32,
) -> Result<(), ChoicesError> {
    let len: u32 = choices.len() as u32;
    if len < min_choices {
        Err(ChoicesError::LessThanMinChoices)
    } else if len > max_choices {
        Err(ChoicesError::MoreThanMaxChoices)
    } else if !choices.no_duplicates() {
        Err(ChoicesError::Duplicates)
    } else if !all_among(choices, options) {
        Err(ChoicesError::OutOfBounds)
    } else {
        Ok(())
    }
}

/// Whether no two elements of `s` are equal.
fn all_distinct(s: &Vec<u32>) -> (r: bool)
    ensures
        r == s@.no_duplicates(),
{
    let mut i: usize = 0;
    while i < s.len()
        invariant
            i <= s.len(),
            forall|a: int, b: int| 0 <= a < b < i ==> s@[a] != s@[b],
        decreases s.len() - i,
    {
        let mut j: usize = 0;
        while j < i
            invariant
                j <= i < s.len(),
                forall|a: int| 0 <= a < j ==> s@[a] != s@[i as int],
            decreases i - j,
        {
            if s[j] == s[i] {
                return false;
            }
            j = j + 1;
        }
        i = i + 1;
    }
    true
}

/// Whether `x` is one of `options`.
fn is_among(x: u32, options: &Vec<u32>) -> (r: bool)
    ensures
        r == options@.contains(x),
{
    let mut i: usize = 0;
    while i < options.len()
        invariant
            i <= options.len(),
            forall|j: int| 0 <= j < i ==> options@[j] != x,
        decreases options.len() - i,
    {
        if options[i] == x {
            assert(options@[i as int] == x);
            return true;
        }
        i = i + 1;
    }
    false
}

/// Checks the choices of a decrypted ballot against the voting's rules: the
/// number of choices lies between `min_choices` and `max_choices`, no option
/// is chosen twice, and every choice is one of `options`.
pub fn validate_decrypted_choices(
    decrypted_choices: &Vec<u32>,
    options: &Vec<u32>,
    min_choices: u32,
    max_choices: u32,
) -> (r: Result<(), ChoicesError>)
    ensures
        r == choices_verdict(decrypted_choices@, options@, min_choices, max_choices),
        decrypted_choices@.len() <= u32::MAX ==> (r is Ok <==> (min_choices
            <= decrypted_choices@.len() <= max_choices && decrypted_choices@.no_duplicates()
            && all_among(decrypted_choices@, options@))),
{
    let len: u32 = #[verifier::truncate] (decrypted_choices.len() as u32);
    if len < min_choices {
        return Err(ChoicesError::LessThanMinChoices);
    }
    if len > max_choices {
        return Err(ChoicesError::MoreThanMaxChoices);
    }
    if !all_distinct(decrypted_choices) {
        return Err(ChoicesError::Duplicates);
    }
    let mut i: usize = 0;
    while i < decrypted_choices.len()
        invariant
            i <= decrypted_choices.len(),
            forall|j: int| 0 <= j < i ==> options@.contains(#[trigger] decrypted_choices@[j]),
            len == decrypted_choices@.len() as u32,
            min_choices <= len <= max_choices,
            decrypted_choices@.no_duplicates(),
        decreases decrypted_choices.len() - i,
    {
        if !is_among(decrypted_choices[i], options) {
            assert(!all_among(decrypted_choices@, options@));
            return Err(ChoicesError::OutOfBounds);
        }
        i = i + 1;
    }
    Ok(())
}

/// The choices of `s` other than zero, which stands for a blank choice, in
/// their order.
pub open spec fn nonblank(s: Seq<u32>) -> Seq<u32> {
    s.filter(|c: u32| c != 0)
}

/// Dropping the blank choices keeps nothing from no choices, drops a blank
/// choice added at the end and keeps any other choice added at the end.
pub proof fn lemma_nonblank_drops_only_blanks(s: Seq<u32>, x: u32)
    ensures
        nonblank(Seq::empty()) == Seq::<u32>::empty(),
        nonblank(s.push(x)) == if x == 0 {
            nonblank(s)
        } else {
            nonblank(s).push(x)
        },
{
    reveal_with_fuel(Seq::filter, 1);
    assert(s.push(x).drop_last() =~= s);
    assert(Seq::<u32>::empty().filter(|c: u32| c != 0) =~= Seq::<u32>::empty());
}

/// Drops the blank (zero) choices, keeping the others in their order.
pub fn drop_blank_choices(choices: &Vec<u32>) -> (r: Vec<u32>)
    ensures
        r@ == nonblank(choices@),
{
    let mut r: Vec<u32> = Vec::new();
    let mut i: usize = 0;
    while i < choices.len()
        invariant
            i <= choices.len(),
            r@ == nonblank(choices@.take(i as int)),
        decreases choices.len() - i,
    {
        proof {
            let t = choices@.take(i as int + 1);
            assert(t.drop_last() =~= choices@.take(i as int));
            reveal_with_fuel(Seq::filter, 1);
        }
        if choices[i] != 0 {
            r.push(choices[i]);
        }
        i = i + 1;
    }
    assert(choices@.take(choices.len() as int) =~= choices@);
    r
}

} // verus!
