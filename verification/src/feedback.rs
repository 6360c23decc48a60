use vstd::prelude::*;

use crate::word::Word;

verus! {

/// The outcome reported for one letter of a guess.
#[derive(Debug, Copy, Clone, Hash, PartialEq, Eq)]
pub enum GuessResponseChar {
    /// The letter does not appear in the solution at all.
    Excluded,
    /// The letter matches the solution at this exact position.
    Exact,
    /// The letter appears in the solution, though not confirmed here.
    Included,
}

/// The feedback for a whole guess: one outcome per position.
#[derive(Debug, Copy, Clone, Hash, PartialEq, Eq)]
pub struct GuessResponse(pub [GuessResponseChar; 5]);

impl View for GuessResponse {
    type V = Seq<GuessResponseChar>;

    open spec fn view(&self) -> Seq<GuessResponseChar> {
        self.0@
    }
}

/// The pattern that ends the game: every position exact.
pub open spec fn solved_pattern() -> Seq<GuessResponseChar> {
    seq![
        GuessResponseChar::Exact,
        GuessResponseChar::Exact,
        GuessResponseChar::Exact,
        GuessResponseChar::Exact,
        GuessResponseChar::Exact,
    ]
}

impl GuessResponse {
    pub fn new(outcomes: [GuessResponseChar; 5]) -> (r: GuessResponse)
        ensures
            r@ == outcomes@,
    {
        GuessResponse(outcomes)
    }

    /// The all-exact pattern, the sole win condition.
    pub fn solved() -> (r: GuessResponse)
        ensures
            r@ == solved_pattern(),
    {
        let r = GuessResponse(
            [
                GuessResponseChar::Exact,
                GuessResponseChar::Exact,
                GuessResponseChar::Exact,
                GuessResponseChar::Exact,
                GuessResponseChar::Exact,
            ],
        );
        proof {
            assert(r@ =~= solved_pattern());
        }
        r
    }

    /// Whether this response is the all-exact, game-winning pattern.
    pub fn is_solved(&self) -> (b: bool)
        ensures
            b == (self@ == solved_pattern()),
    {
        let b = matches!(self.0[0], GuessResponseChar::Exact) && matches!(
            self.0[1],
            GuessResponseChar::Exact,
        ) && matches!(self.0[2], GuessResponseChar::Exact) && matches!(
            self.0[3],
            GuessResponseChar::Exact,
        ) && matches!(self.0[4], GuessResponseChar::Exact);
        proof {
            if b {
                assert(self@ =~= solved_pattern());
            }
        }
        b
    }
}

/// The outcome for position `i` of a guess against a known solution: exact on
/// a positional match, included when the letter occurs anywhere in the
/// solution (no accounting of letters already matched elsewhere), excluded
/// otherwise.
pub open spec fn outcome_at(guess: Seq<char>, solution: Seq<char>, i: int) -> GuessResponseChar {
    if guess[i] == solution[i] {
        GuessResponseChar::Exact
    } else if exists|j: int| 0 <= j < 5 && guess[i] == #[trigger] solution[j] {
        GuessResponseChar::Included
    } else {
        GuessResponseChar::Excluded
    }
}

/// The full feedback pattern for a guess against a known solution.
pub open spec fn compute_spec(guess: Seq<char>, solution: Seq<char>) -> Seq<GuessResponseChar> {
    Seq::new(5, |i: int| outcome_at(guess, solution, i))
}

fn outcome_for(guess: &Word, solution: &Word, i: usize) -> (o: GuessResponseChar)
    requires
        i < 5,
    ensures
        o == outcome_at(guess@, solution@, i as int),
{
    if guess.get(i) == solution.get(i) {
        return GuessResponseChar::Exact;
    }
    let mut j: usize = 0;
    while j < 5
        invariant
            i < 5,
            j <= 5,
            guess@[i as int] != solution@[i as int],
            forall|t: int| 0 <= t < j ==> guess@[i as int] != #[trigger] solution@[t],
        decreases 5 - j,
    {
        if guess.get(i) == solution.get(j) {
            proof {
                assert(0 <= j < 5 && guess@[i as int] == solution@[j as int]);
            }
            return GuessResponseChar::Included;
        }
        j += 1;
    }
    GuessResponseChar::Excluded
}

/// Computes the feedback pattern a guess produces against a known solution,
/// position by position.
pub fn compute(guess: Word, solution: Word) -> (r: GuessResponse)
    ensures
        r@ == compute_spec(guess@, solution@),
{
    let r = GuessResponse(
        [
            outcome_for(&guess, &solution, 0),
            outcome_for(&guess, &solution, 1),
            outcome_for(&guess, &solution, 2),
            outcome_for(&guess, &solution, 3),
            outcome_for(&guess, &solution, 4),
        ],
    );
    proof {
        assert(r@ =~= compute_spec(guess@, solution@));
    }
    r
}

/// Law: a guess elicits the solved pattern exactly when it is the solution.
pub proof fn lemma_solved_iff_equal(guess: Word, solution: Word)
    ensures
        (compute_spec(guess@, solution@) == solved_pattern()) <==> guess@ == solution@,
{
    if compute_spec(guess@, solution@) == solved_pattern() {
        assert forall|i: int| 0 <= i < 5 implies guess@[i] == solution@[i] by {
            assert(compute_spec(guess@, solution@)[i] == GuessResponseChar::Exact);
        }
        assert(guess@ =~= solution@);
    }
    if guess@ == solution@ {
        assert(compute_spec(guess@, solution@) =~= solved_pattern());
    }
}

/// The rank of an outcome in the base-3 encoding of a pattern.
pub open spec fn outcome_index(o: GuessResponseChar) -> int {
    match o {
        GuessResponseChar::Excluded => 0,
        GuessResponseChar::Exact => 1,
        GuessResponseChar::Included => 2,
    }
}

/// A feedback pattern packed into a single number below 243, used to key
/// partition buckets.
pub open spec fn pattern_code(p: Seq<GuessResponseChar>) -> int {
    outcome_index(p[0]) + 3 * outcome_index(p[1]) + 9 * outcome_index(p[2]) + 27 * outcome_index(
        p[3],
    ) + 81 * outcome_index(p[4])
}

fn outcome_rank(o: &GuessResponseChar) -> (k: u8)
    ensures
        k as int == outcome_index(*o),
{
    match o {
        GuessResponseChar::Excluded => 0,
        GuessResponseChar::Exact => 1,
        GuessResponseChar::Included => 2,
    }
}

/// Packs a response into its pattern code.
pub fn response_code(r: &GuessResponse) -> (c: u8)
    ensures
        c as int == pattern_code(r@),
        c < 243,
{
    outcome_rank(&r.0[0]) + 3 * outcome_rank(&r.0[1]) + 9 * outcome_rank(&r.0[2]) + 27
        * outcome_rank(&r.0[3]) + 81 * outcome_rank(&r.0[4])
}

/// Every pattern code lies below 243.
pub proof fn lemma_code_bounds(p: Seq<GuessResponseChar>)
    ensures
        0 <= pattern_code(p) < 243,
{
}

/// Law: distinct five-outcome patterns never share a pattern code.
pub proof fn lemma_code_injective(a: Seq<GuessResponseChar>, b: Seq<GuessResponseChar>)
    requires
        a.len() == 5,
        b.len() == 5,
        pattern_code(a) == pattern_code(b),
    ensures
        a == b,
{
    assert forall|i: int| 0 <= i < 5 implies a[i] == b[i] by {
        assert(outcome_index(a[0]) == outcome_index(b[0]) && outcome_index(a[1]) == outcome_index(
            b[1],
        ) && outcome_index(a[2]) == outcome_index(b[2]) && outcome_index(a[3]) == outcome_index(
            b[3],
        ) && outcome_index(a[4]) == outcome_index(b[4]));
    }
    assert(a =~= b);
}

} // verus!
