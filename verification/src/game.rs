use vstd::prelude::*;

use crate::codec::outcome_of;
use crate::codec::parse_response;
use crate::feedback::GuessResponse;
use crate::feedback::GuessResponseChar;
use crate::feedback::compute;
use crate::feedback::compute_spec;
use crate::feedback::lemma_code_bounds;
use crate::feedback::lemma_code_injective;
use crate::feedback::lemma_solved_iff_equal;
use crate::feedback::pattern_code;
use crate::feedback::response_code;
use crate::feedback::solved_pattern;
use crate::partition::bucket_in;
use crate::partition::bucket_set;
use crate::partition::build_histogram;
use crate::partition::table_bucket;
use crate::partition::table_contents;
use crate::select::best_guess;
use crate::select::covered_set;
use crate::select::is_best_pick;
use crate::select::lemma_bucket_floor;
use crate::select::lemma_singleton_bucket_score;
use crate::select::raw_score;
use crate::word::Word;
use crate::word::lemma_word_view_injective;

verus! {

/// The words of a pool that would answer a guess with exactly the given
/// feedback pattern.
pub open spec fn matching_words(guess: Word, pool: Seq<Word>, response: Seq<GuessResponseChar>) -> Set<
    Word,
> {
    pool.to_set().filter(|w: Word| compute_spec(guess@, w@) == response)
}

/// A bucket keyed by a pattern's code holds exactly the words matching that
/// pattern: codes of five-outcome patterns never collide.
pub proof fn lemma_bucket_is_matching(
    guess: Word,
    pool: Seq<Word>,
    response: Seq<GuessResponseChar>,
)
    requires
        response.len() == 5,
    ensures
        bucket_set(guess, pool, pattern_code(response)) == matching_words(guess, pool, response),
{
    let c = pattern_code(response);
    assert forall|w: Word|
        bucket_set(guess, pool, c).contains(w) == matching_words(guess, pool, response).contains(
            w,
        ) by {
        if pool.to_set().contains(w) && pattern_code(compute_spec(guess@, w@)) == c {
            lemma_code_injective(compute_spec(guess@, w@), response);
        }
    }
    assert(bucket_set(guess, pool, c) =~= matching_words(guess, pool, response));
}

/// Law: the buckets of a partition are pairwise disjoint, and their union is
/// exactly the distinct words of the pool: every word lies in the bucket of
/// its own pattern and in no other.
pub proof fn lemma_partition_disjoint_union(guess: Word, pool: Seq<Word>)
    ensures
        forall|p1: Seq<GuessResponseChar>, p2: Seq<GuessResponseChar>|
            p1 != p2 ==> (#[trigger] matching_words(guess, pool, p1)).disjoint(
                #[trigger] matching_words(guess, pool, p2),
            ),
        forall|w: Word|
            #![auto]
            pool.to_set().contains(w) <==> matching_words(
                guess,
                pool,
                compute_spec(guess@, w@),
            ).contains(w),
{
}

/// Law: filtering a pool by a feedback pattern never grows it, and when the
/// pattern is the truthful answer for a solution in the pool, that solution
/// survives the filtering.
pub proof fn lemma_pool_monotone_truthful(
    guess: Word,
    pool: Seq<Word>,
    response: Seq<GuessResponseChar>,
    solution: Word,
)
    requires
        pool.contains(solution),
        compute_spec(guess@, solution@) == response,
    ensures
        matching_words(guess, pool, response) <= pool.to_set(),
        matching_words(guess, pool, response).contains(solution),
{
    assert(pool.to_set().contains(solution));
}

/// The feedback oracle for self-play: answers every guess truthfully from a
/// fixed solution word.
pub struct KnownSolutionGuesser {
    pub solution: Word,
}

impl KnownSolutionGuesser {
    /// The truthful feedback for a guess against the held solution.
    pub fn guess(&self, guess: Word) -> (r: GuessResponse)
        ensures
            r@ == compute_spec(guess@, self.solution@),
    {
        compute(guess, self.solution)
    }
}

/// What one turn did to the game.
#[derive(Debug)]
pub enum TurnOutcome {
    /// The response was the all-exact pattern: the guess is the solution.
    Won,
    /// The candidates consistent with the response, deduplicated.
    Continue(Vec<Word>),
    /// No remaining candidate is consistent with the response.
    Failed,
}

/// Applies a received feedback pattern to the candidate pool: a solved
/// pattern wins; otherwise the pool shrinks to the words that would have
/// produced exactly that pattern, and an empty result is a dead end.
pub fn apply_response(guess: Word, pool: &Vec<Word>, response: &GuessResponse) -> (r: TurnOutcome)
    ensures
        (r is Won) <==> response@ == solved_pattern(),
        (r is Failed) <==> (response@ != solved_pattern() && matching_words(
            guess,
            pool@,
            response@,
        ).is_empty()),
        r matches TurnOutcome::Continue(v) ==> v@.to_set() == matching_words(
            guess,
            pool@,
            response@,
        )
            && v@.no_duplicates() && 1 <= v@.len() <= pool@.len() && v@.to_set() <= pool@.to_set(),
{
    if response.is_solved() {
        return TurnOutcome::Won;
    }
    let t = build_histogram(guess, pool);
    let code = response_code(response);
    proof {
        lemma_bucket_is_matching(guess, pool@, response@);
    }
    match table_bucket(&t, code) {
        None => {
            proof {
                assert(bucket_in(table_contents(t), code).is_empty());
                assert(matching_words(guess, pool@, response@).is_empty());
            }
            TurnOutcome::Failed
        },
        Some(v) => {
            proof {
                broadcast use vstd::seq_lib::seq_to_set_is_finite;

                let matching = matching_words(guess, pool@, response@);
                assert(v@.to_set() == matching);
                assert(matching.contains(v@[0])) by {
                    assert(v@.to_set().contains(v@[0]));
                }
                assert(!matching.is_empty());
                assert(matching <= pool@.to_set());
                v@.unique_seq_to_set();
                vstd::set_lib::lemma_len_subset(matching, pool@.to_set());
                pool@.lemma_cardinality_of_set();
            }
            TurnOutcome::Continue(v)
        },
    }
}

/// Finite subsets of equal size coincide.
proof fn lemma_subset_same_len(a: Set<Word>, b: Set<Word>)
    requires
        a <= b,
        b.finite(),
        a.len() == b.len(),
    ensures
        a == b,
{
    if exists|x: Word| b.contains(x) && !a.contains(x) {
        let x = choose|x: Word| b.contains(x) && !a.contains(x);
        assert(a <= b.remove(x));
        vstd::set_lib::lemma_len_subset(a, b.remove(x));
        assert(b.remove(x).len() == b.len() - 1);
        assert(false);
    }
    assert(a =~= b);
}

/// Every code a pool's word can produce lies below 243, so the first 243
/// buckets cover the whole pool.
proof fn lemma_covered_all(guess: Word, pool: Seq<Word>)
    ensures
        covered_set(guess, pool, 243) == pool.to_set(),
{
    assert forall|w: Word|
        covered_set(guess, pool, 243).contains(w) == pool.to_set().contains(w) by {
        lemma_code_bounds(compute_spec(guess@, w@));
    }
    assert(covered_set(guess, pool, 243) =~= pool.to_set());
}

/// The guess's own bucket under itself: only the guess answers a guess with
/// the solved pattern.
proof fn lemma_own_bucket_singleton(w: Word, pool: Seq<Word>)
    requires
        pool.to_set().contains(w),
    ensures
        bucket_set(w, pool, pattern_code(solved_pattern())).len() == 1,
{
    let sc = pattern_code(solved_pattern());
    let b = bucket_set(w, pool, sc);
    assert forall|x: Word| b.contains(x) implies x == w by {
        lemma_code_injective(compute_spec(w@, x@), solved_pattern());
        lemma_solved_iff_equal(w, x);
        lemma_word_view_injective(w, x);
    }
    assert(b.contains(w)) by {
        lemma_solved_iff_equal(w, w);
    }
    assert(b =~= Set::empty().insert(w));
}

/// The engine of termination: against a pool of at least two words drawn
/// from the allowed guesses, the minimizing guess always splits the pool, so
/// the matching words after an unsolved response are strictly fewer than the
/// pool held before.
proof fn lemma_progress(
    allowed: Seq<Word>,
    pool: Seq<Word>,
    gbest: Word,
    best_raw: int,
    response: Seq<GuessResponseChar>,
    v: Seq<Word>,
)
    requires
        pool.len() >= 2,
        pool.to_set() <= allowed.to_set(),
        raw_score(gbest, pool) == best_raw,
        forall|j: int| 0 <= j < allowed.len() ==> raw_score(#[trigger] allowed[j], pool) >= best_raw,
        response.len() == 5,
        response != solved_pattern(),
        v.to_set() == matching_words(gbest, pool, response),
        v.no_duplicates(),
    ensures
        v.len() < pool.len(),
{
    broadcast use vstd::seq_lib::seq_to_set_is_finite;

    let ps = pool.to_set();
    let m = ps.len() as int;
    let matching = matching_words(gbest, pool, response);
    pool.lemma_cardinality_of_set();
    v.unique_seq_to_set();
    assert(matching <= ps);
    vstd::set_lib::lemma_len_subset(matching, ps);
    if v.len() >= pool.len() {
        assert(matching.len() == m && m == pool.len());
        lemma_subset_same_len(matching, ps);
        assert(matching == ps);
        // the received pattern's bucket holds the whole pool
        lemma_code_bounds(response);
        let rc = pattern_code(response);
        lemma_bucket_is_matching(gbest, pool, response);
        lemma_bucket_floor(gbest, pool, rc, 243);
        assert(raw_score(gbest, pool) >= m * m);
        // yet guessing a pool word scores strictly better
        let w0 = pool[0];
        assert(ps.contains(w0));
        assert(allowed.to_set().contains(w0));
        assert(allowed.contains(w0));
        let j = choose|j: int| 0 <= j < allowed.len() && allowed[j] == w0;
        assert(raw_score(w0, pool) >= best_raw);
        lemma_code_bounds(solved_pattern());
        lemma_own_bucket_singleton(w0, pool);
        lemma_singleton_bucket_score(w0, pool, pattern_code(solved_pattern()), 243);
        lemma_covered_all(w0, pool);
        assert(raw_score(w0, pool) <= 1 + (m - 1) * (m - 1));
        assert(m * m > 1 + (m - 1) * (m - 1)) by (nonlinear_arith)
            requires
                m >= 2,
        ;
        assert(false);
    }
}

/// How a finished game ended.
#[derive(Debug, PartialEq, Eq, Copy, Clone)]
pub enum GameResult {
    /// The solution, found by eliciting the solved pattern.
    Won(Word),
    /// The feedback received was inconsistent with every remaining candidate.
    Failed,
}

/// What one turn surfaced, for external display: the chosen guess, its raw
/// score, the pool size it was chosen against, the feedback received, and
/// how many candidates were left afterwards.
#[derive(Debug, Copy, Clone)]
pub struct TurnRecord {
    pub guess: Word,
    pub raw_score: usize,
    pub pool_len: usize,
    pub response: GuessResponse,
    pub remaining: usize,
}

/// One turn of a finished game, held against the pool it was played on:
/// the guess is the minimizing pick with its raw score, and the response is
/// the truthful feedback for the solution.
pub open spec fn turn_played(
    allowed: Seq<Word>,
    pool: Seq<Word>,
    t: TurnRecord,
    solution: Word,
) -> bool {
    &&& is_best_pick(allowed, pool, t.guess, t.raw_score as int)
    &&& t.pool_len == pool.len()
    &&& t.response@ == compute_spec(t.guess@, solution@)
}

/// How one turn's pool leads to the next: the response was not the solved
/// pattern, and the next pool is exactly the words matching it,
/// deduplicated and strictly fewer than before.
pub open spec fn pool_after_turn(t: TurnRecord, pool: Seq<Word>, next: Seq<Word>) -> bool {
    &&& t.response@ != solved_pattern()
    &&& next.to_set() == matching_words(t.guess, pool, t.response@)
    &&& next.no_duplicates()
    &&& next.len() == t.remaining
    &&& next.len() < pool.len()
}

/// A finished game: every turn played, in order, and how it ended. The
/// ghost `pools` holds the candidate pool each turn was played against.
pub struct SolveReport {
    pub turns: Vec<TurnRecord>,
    pub result: GameResult,
    pub pools: Ghost<Seq<Seq<Word>>>,
}

/// Plays a whole game against a known solution: picks the minimizing guess,
/// answers it truthfully, and narrows the pool until the solved pattern
/// appears or no candidate is consistent. Each recorded turn plays the
/// minimizing guess against its pool and receives the truthful feedback;
/// each pool after the first holds exactly the words matching the previous
/// feedback; and a won game names the solution itself.
pub fn solve_known(allowed_guesses: &Vec<Word>, initial_pool: Vec<Word>, solution: Word) -> (report:
    SolveReport)
    requires
        allowed_guesses@.len() > 0,
        initial_pool@.len() > 0,
        initial_pool@.len() * initial_pool@.len() <= usize::MAX,
        initial_pool@.to_set() <= allowed_guesses@.to_set(),
    ensures
        report.turns@.len() >= 1,
        report.pools@.len() == report.turns@.len(),
        report.pools@[0] == initial_pool@,
        forall|i: int|
            0 <= i < report.turns@.len() ==> turn_played(
                allowed_guesses@,
                report.pools@[i],
                #[trigger] report.turns@[i],
                solution,
            ),
        forall|i: int|
            0 <= i < report.turns@.len() - 1 ==> pool_after_turn(
                #[trigger] report.turns@[i],
                report.pools@[i],
                report.pools@[i + 1],
            ),
        report.result matches GameResult::Won(w) ==> w == report.turns@.last().guess && w@
            == solution@ && report.turns@.last().response@ == solved_pattern(),
        report.result is Failed ==> report.turns@.last().response@ != solved_pattern()
            && matching_words(
            report.turns@.last().guess,
            report.pools@.last(),
            report.turns@.last().response@,
        ).is_empty(),
        initial_pool@.to_set().contains(solution) ==> report.result is Won,
{
    let ghost ilen = initial_pool@.len() as int;
    let ghost initial = initial_pool@;
    let mut pool = initial_pool;
    let mut turns: Vec<TurnRecord> = Vec::new();
    let mut result = GameResult::Failed;
    let ghost mut pools: Seq<Seq<Word>> = Seq::empty();
    loop
        invariant_except_break
            allowed_guesses@.len() > 0,
            1 <= pool@.len() <= ilen,
            ilen * ilen <= usize::MAX,
            pool@.to_set() <= allowed_guesses@.to_set(),
            pools.len() == turns@.len(),
            turns@.len() == 0 ==> pool@ == initial,
            turns@.len() > 0 ==> pools[0] == initial,
            turns@.len() > 0 ==> pool_after_turn(turns@.last(), pools.last(), pool@),
            forall|i: int|
                0 <= i < turns@.len() ==> turn_played(
                    allowed_guesses@,
                    pools[i],
                    #[trigger] turns@[i],
                    solution,
                ),
            forall|i: int|
                0 <= i < turns@.len() - 1 ==> pool_after_turn(
                    #[trigger] turns@[i],
                    pools[i],
                    pools[i + 1],
                ),
        ensures
            turns@.len() >= 1,
            pools.len() == turns@.len(),
            pools[0] == initial,
            forall|i: int|
                0 <= i < turns@.len() ==> turn_played(
                    allowed_guesses@,
                    pools[i],
                    #[trigger] turns@[i],
                    solution,
                ),
            forall|i: int|
                0 <= i < turns@.len() - 1 ==> pool_after_turn(
                    #[trigger] turns@[i],
                    pools[i],
                    pools[i + 1],
                ),
            result matches GameResult::Won(w) ==> w == turns@.last().guess && w@ == solution@
                && turns@.last().response@ == solved_pattern(),
            result is Failed ==> turns@.last().response@ != solved_pattern() && matching_words(
                turns@.last().guess,
                pools.last(),
                turns@.last().response@,
            ).is_empty(),
        decreases pool@.len(),
    {
        proof {
            let n = pool@.len() as int;
            assert(n * n <= ilen * ilen) by (nonlinear_arith)
                requires
                    1 <= n <= ilen,
            ;
            pools = pools.push(pool@);
        }
        let picked = best_guess(allowed_guesses, &pool);
        let g = picked.0;
        let sc = picked.1;
        let response = compute(g, solution);
        let prev_len = pool.len();
        match apply_response(g, &pool, &response) {
            TurnOutcome::Won => {
                turns.push(
                    TurnRecord {
                        guess: g,
                        raw_score: sc,
                        pool_len: prev_len,
                        response,
                        remaining: prev_len,
                    },
                );
                proof {
                    lemma_solved_iff_equal(g, solution);
                }
                result = GameResult::Won(g);
                break ;
            },
            TurnOutcome::Failed => {
                turns.push(
                    TurnRecord {
                        guess: g,
                        raw_score: sc,
                        pool_len: prev_len,
                        response,
                        remaining: 0,
                    },
                );
                result = GameResult::Failed;
                break ;
            },
            TurnOutcome::Continue(v) => {
                proof {
                    if pool@.len() == 1 {
                        let w0 = pool@[0];
                        assert(g == w0);
                        let matching = matching_words(g, pool@, response@);
                        assert(matching.contains(v@[0])) by {
                            assert(v@.to_set().contains(v@[0]));
                        }
                        let x = v@[0];
                        assert(pool@.to_set().contains(x));
                        assert(pool@.contains(x));
                        assert(x == w0);
                        lemma_solved_iff_equal(g, x);
                        assert(false);
                    } else {
                        let i = choose|i: int|
                            0 <= i < allowed_guesses@.len() && g == allowed_guesses@[i] && sc as int
                                == raw_score(allowed_guesses@[i], pool@) && (forall|j: int|
                                0 <= j < i ==> raw_score(
                                    #[trigger] allowed_guesses@[j],
                                    pool@,
                                ) > sc as int);
                        assert(raw_score(g, pool@) == sc as int);
                        lemma_progress(allowed_guesses@, pool@, g, sc as int, response@, v@);
                    }
                }
                turns.push(
                    TurnRecord {
                        guess: g,
                        raw_score: sc,
                        pool_len: prev_len,
                        response,
                        remaining: v.len(),
                    },
                );
                pool = v;
            },
        }
    }
    proof {
        if initial.to_set().contains(solution) && result is Failed {
            lemma_truthful_never_dead_ends(allowed_guesses@, pools, turns@, solution);
            let li = turns@.len() - 1;
            assert(matching_words(turns@[li].guess, pools[li], turns@[li].response@).contains(
                solution,
            ));
            assert(false);
        }
    }
    SolveReport { turns, result, pools: Ghost(pools) }
}

/// Law: along a chain of truthfully answered turns, the solution never
/// leaves the candidate pool.
pub proof fn lemma_solution_survives(
    allowed: Seq<Word>,
    pools: Seq<Seq<Word>>,
    turns: Seq<TurnRecord>,
    solution: Word,
    n: int,
)
    requires
        pools.len() == turns.len(),
        0 <= n < pools.len(),
        pools[0].to_set().contains(solution),
        forall|i: int|
            0 <= i < turns.len() ==> turn_played(allowed, pools[i], #[trigger] turns[i], solution),
        forall|i: int|
            0 <= i < turns.len() - 1 ==> pool_after_turn(
                #[trigger] turns[i],
                pools[i],
                pools[i + 1],
            ),
    ensures
        pools[n].to_set().contains(solution),
    decreases n,
{
    if n > 0 {
        lemma_solution_survives(allowed, pools, turns, solution, n - 1);
        assert(pool_after_turn(turns[n - 1], pools[n - 1], pools[n]));
        assert(matching_words(turns[n - 1].guess, pools[n - 1], turns[n - 1].response@).contains(
            solution,
        ));
    }
}

/// Law: a game answered truthfully for a solution present in the starting
/// pool never dead-ends: after every turn, the words matching the feedback
/// still include the solution. A run that does dead-end therefore began
/// without its solution in the pool.
pub proof fn lemma_truthful_never_dead_ends(
    allowed: Seq<Word>,
    pools: Seq<Seq<Word>>,
    turns: Seq<TurnRecord>,
    solution: Word,
)
    requires
        pools.len() == turns.len(),
        turns.len() >= 1,
        pools[0].to_set().contains(solution),
        forall|i: int|
            0 <= i < turns.len() ==> turn_played(allowed, pools[i], #[trigger] turns[i], solution),
        forall|i: int|
            0 <= i < turns.len() - 1 ==> pool_after_turn(
                #[trigger] turns[i],
                pools[i],
                pools[i + 1],
            ),
    ensures
        forall|i: int|
            0 <= i < turns.len() ==> matching_words(
                (#[trigger] turns[i]).guess,
                pools[i],
                turns[i].response@,
            ).contains(solution),
{
    assert forall|i: int|
        0 <= i < turns.len() implies matching_words(
        (#[trigger] turns[i]).guess,
        pools[i],
        turns[i].response@,
    ).contains(solution) by {
        lemma_solution_survives(allowed, pools, turns, solution, i);
    }
}

/// Number of attempts the interactive oracle grants a human to type a
/// readable feedback line.
pub const MAX_FEEDBACK_ATTEMPTS: usize = 5;

/// Whether a typed line reads back as a feedback pattern.
pub open spec fn line_parses(line: Seq<char>) -> bool {
    line.len() == 5 && forall|i: int| 0 <= i < 5 ==> #[trigger] outcome_of(line[i]) is Some
}

/// The interactive oracle's decision over the lines a human typed, in order:
/// the first line among the first five that reads back as a pattern wins;
/// when none does, the oracle gives up and the run fails.
pub fn feedback_from_lines(lines: &Vec<Vec<char>>) -> (r: Option<GuessResponse>)
    ensures
        r is Some <==> exists|i: int|
            0 <= i < lines@.len() && i < 5 && line_parses(#[trigger] lines@[i]@),
        r matches Some(resp) ==> exists|i: int|
            0 <= i < lines@.len() && i < 5 && line_parses(#[trigger] lines@[i]@) && (forall|j: int|
                0 <= j < i ==> !line_parses(#[trigger] lines@[j]@)) && (forall|k: int|
                0 <= k < 5 ==> outcome_of(lines@[i]@[k]) == Some(resp@[k])),
{
    let mut i: usize = 0;
    while i < lines.len() && i < MAX_FEEDBACK_ATTEMPTS
        invariant
            i <= lines@.len(),
            i <= 5,
            forall|j: int| 0 <= j < i ==> !line_parses(#[trigger] lines@[j]@),
        decreases lines@.len() - i,
    {
        match parse_response(&lines[i]) {
            Ok(resp) => {
                return Some(resp);
            },
            Err(_) => {},
        }
        i += 1;
    }
    None
}

} // verus!
