use vstd::prelude::*;

use crate::feedback::compute_spec;
use crate::feedback::pattern_code;
use crate::partition::bucket_in;
use crate::partition::bucket_set;
use crate::partition::build_histogram;
use crate::partition::histogram_of;
use crate::partition::table_contents;
use crate::partition::table_count;
use crate::word::Word;

verus! {

/// The words of a pool whose feedback pattern against a guess has a code
/// below `k`: the part of the pool the first `k` buckets account for.
pub open spec fn covered_set(guess: Word, pool: Seq<Word>, k: int) -> Set<Word> {
    pool.to_set().filter(|w: Word| pattern_code(compute_spec(guess@, w@)) < k)
}

/// The sum of squared bucket sizes over the buckets with codes below `k`.
pub open spec fn score_upto(guess: Word, pool: Seq<Word>, k: int) -> int
    decreases k,
{
    if k <= 0 {
        0
    } else {
        score_upto(guess, pool, k - 1) + bucket_set(guess, pool, k - 1).len() * bucket_set(
            guess,
            pool,
            k - 1,
        ).len()
    }
}

/// A guess's raw score against a pool: the sum of the squared sizes of all
/// its feedback buckets. Lower is better; dividing by the pool size gives
/// the expected number of candidates left after playing the guess.
pub open spec fn raw_score(guess: Word, pool: Seq<Word>) -> int {
    score_upto(guess, pool, 243)
}

/// The buckets below `k` and the bucket at `k` are disjoint parts of the
/// pool, so their cardinalities combine additively.
pub proof fn lemma_partition_step(guess: Word, pool: Seq<Word>, k: int)
    requires
        0 <= k,
    ensures
        pool.to_set().finite(),
        covered_set(guess, pool, k).finite(),
        covered_set(guess, pool, k + 1).finite(),
        bucket_set(guess, pool, k).finite(),
        covered_set(guess, pool, k + 1).len() == covered_set(guess, pool, k).len() + bucket_set(
            guess,
            pool,
            k,
        ).len(),
        covered_set(guess, pool, k).len() <= pool.to_set().len(),
        covered_set(guess, pool, k + 1).len() <= pool.to_set().len(),
        bucket_set(guess, pool, k).len() <= pool.to_set().len(),
{
    broadcast use vstd::seq_lib::seq_to_set_is_finite;

    let ps = pool.to_set();
    let cov = covered_set(guess, pool, k);
    let cov1 = covered_set(guess, pool, k + 1);
    let buck = bucket_set(guess, pool, k);
    let fc = |w: Word| pattern_code(compute_spec(guess@, w@)) < k;
    let fc1 = |w: Word| pattern_code(compute_spec(guess@, w@)) < k + 1;
    let fb = |w: Word| pattern_code(compute_spec(guess@, w@)) == k;
    ps.lemma_len_filter(fc);
    ps.lemma_len_filter(fc1);
    ps.lemma_len_filter(fb);
    assert(cov =~= ps.filter(fc));
    assert(cov1 =~= ps.filter(fc1));
    assert(buck =~= ps.filter(fb));
    assert(cov.disjoint(buck));
    assert(cov1 =~= cov + buck);
    vstd::set_lib::lemma_set_disjoint_lens(cov, buck);
}

/// The partial score never exceeds the square of the number of words the
/// buckets counted so far account for.
pub proof fn lemma_score_bound(guess: Word, pool: Seq<Word>, k: int)
    requires
        0 <= k,
    ensures
        0 <= score_upto(guess, pool, k),
        score_upto(guess, pool, k) <= covered_set(guess, pool, k).len() * covered_set(
            guess,
            pool,
            k,
        ).len(),
    decreases k,
{
    if k == 0 {
        let t = covered_set(guess, pool, 0).len() as int;
        assert(0 <= t * t) by (nonlinear_arith)
            requires
                t >= 0,
        ;
    } else {
        lemma_score_bound(guess, pool, k - 1);
        lemma_partition_step(guess, pool, k - 1);
        let t = covered_set(guess, pool, k - 1).len() as int;
        let s = bucket_set(guess, pool, k - 1).len() as int;
        assert(0 <= s * s && t * t + s * s <= (t + s) * (t + s)) by (nonlinear_arith)
            requires
                t >= 0 && s >= 0,
        ;
    }
}

/// A raw score is at least the squared size of any single bucket.
pub proof fn lemma_bucket_floor(guess: Word, pool: Seq<Word>, c: int, k: int)
    requires
        0 <= c < k,
    ensures
        score_upto(guess, pool, k) >= bucket_set(guess, pool, c).len() * bucket_set(
            guess,
            pool,
            c,
        ).len(),
    decreases k,
{
    if c == k - 1 {
        lemma_score_bound(guess, pool, k - 1);
    } else {
        lemma_bucket_floor(guess, pool, c, k - 1);
        let s = bucket_set(guess, pool, k - 1).len() as int;
        assert(0 <= s * s) by (nonlinear_arith)
            requires
                s >= 0,
        ;
    }
}

/// When some bucket holds exactly one word, the raw score stays at least one
/// square below the square of the words counted: the singleton contributes 1
/// while everything else can at best clump together.
pub proof fn lemma_singleton_bucket_score(guess: Word, pool: Seq<Word>, s: int, k: int)
    requires
        0 <= s < 243,
        bucket_set(guess, pool, s).len() == 1,
        0 <= k <= 243,
    ensures
        s < k ==> score_upto(guess, pool, k) <= 1 + (covered_set(guess, pool, k).len() - 1) * (
        covered_set(guess, pool, k).len() - 1),
        s >= k ==> score_upto(guess, pool, k) <= covered_set(guess, pool, k).len() * covered_set(
            guess,
            pool,
            k,
        ).len(),
    decreases k,
{
    if k == 0 {
        lemma_score_bound(guess, pool, 0);
    } else {
        lemma_singleton_bucket_score(guess, pool, s, k - 1);
        lemma_partition_step(guess, pool, k - 1);
        let t = covered_set(guess, pool, k - 1).len() as int;
        let b = bucket_set(guess, pool, k - 1).len() as int;
        let t1 = covered_set(guess, pool, k).len() as int;
        assert(t1 == t + b);
        if s == k - 1 {
            lemma_score_bound(guess, pool, k - 1);
            assert(t * t <= (t1 - 1) * (t1 - 1));
        } else if s < k - 1 {
            assert(bucket_set(guess, pool, s) <= covered_set(guess, pool, k - 1)) by {
                assert forall|w: Word| bucket_set(guess, pool, s).contains(w) implies covered_set(
                    guess,
                    pool,
                    k - 1,
                ).contains(w) by {}
            }
            vstd::set_lib::lemma_len_subset(
                bucket_set(guess, pool, s),
                covered_set(guess, pool, k - 1),
            );
            assert(t >= 1);
            assert((t - 1) * (t - 1) + b * b <= (t1 - 1) * (t1 - 1)) by (nonlinear_arith)
                requires
                    t >= 1 && b >= 0 && t1 == t + b,
            ;
        } else {
            assert(t * t + b * b <= t1 * t1) by (nonlinear_arith)
                requires
                    t >= 0 && b >= 0 && t1 == t + b,
            ;
        }
    }
}

/// A raw score is bounded by the square of the pool's length.
pub proof fn lemma_raw_score_in_range(guess: Word, pool: Seq<Word>)
    ensures
        0 <= raw_score(guess, pool),
        raw_score(guess, pool) <= pool.len() * pool.len(),
{
    lemma_score_bound(guess, pool, 243);
    lemma_partition_step(guess, pool, 243);
    let t = covered_set(guess, pool, 243).len() as int;
    let m = pool.to_set().len() as int;
    let n = pool.len() as int;
    vstd::set_lib::lemma_len_subset(covered_set(guess, pool, 243), pool.to_set());
    pool.lemma_cardinality_of_set();
    assert(t * t <= n * n) by (nonlinear_arith)
        requires
            0 <= t && t <= m && m <= n,
    ;
}

/// Sums the squared bucket sizes of a histogram of the pool under a guess:
/// the guess's raw score.
pub fn pool_score(guess: Word, pool: &Vec<Word>) -> (s: usize)
    requires
        pool@.len() * pool@.len() <= usize::MAX,
    ensures
        s as int == raw_score(guess, pool@),
        s as int <= pool@.len() * pool@.len(),
{
    let t = build_histogram(guess, pool);
    let mut total: usize = 0;
    let mut c: usize = 0;
    while c < 243
        invariant
            c <= 243,
            histogram_of(t, guess, pool@),
            pool@.len() * pool@.len() <= usize::MAX,
            total as int == score_upto(guess, pool@, c as int),
        decreases 243 - c,
    {
        let n = table_count(&t, c as u8);
        proof {
            assert(bucket_in(table_contents(t), c as u8) == bucket_set(guess, pool@, c as int));
            lemma_score_bound(guess, pool@, c as int + 1);
            lemma_partition_step(guess, pool@, c as int);
            vstd::set_lib::lemma_len_subset(
                covered_set(guess, pool@, c as int + 1),
                pool@.to_set(),
            );
            pool@.lemma_cardinality_of_set();
            let t1 = covered_set(guess, pool@, c as int + 1).len() as int;
            let m = pool@.to_set().len() as int;
            let pn = pool@.len() as int;
            assert(t1 * t1 <= pn * pn) by (nonlinear_arith)
                requires
                    0 <= t1 && t1 <= m && m <= pn,
            ;
        }
        total = total + n * n;
        c += 1;
    }
    proof {
        lemma_raw_score_in_range(guess, pool@);
    }
    total
}

/// What guess selection promises: a pool of one word is its own pick with
/// raw score one; against any larger pool the pick is the earliest allowed
/// guess whose raw score is minimal, reported with that score.
pub open spec fn is_best_pick(guesses: Seq<Word>, pool: Seq<Word>, g: Word, sc: int) -> bool {
    if pool.len() == 1 {
        g == pool[0] && sc == 1
    } else {
        (exists|i: int|
            0 <= i < guesses.len() && g == guesses[i] && sc == raw_score(
                #[trigger] guesses[i],
                pool,
            ) && (forall|j: int| 0 <= j < i ==> raw_score(#[trigger] guesses[j], pool) > sc))
            && (forall|j: int| 0 <= j < guesses.len() ==> raw_score(#[trigger] guesses[j], pool)
            >= sc)
    }
}

/// Picks the guess with the lowest raw score against the pool, taking the
/// earliest of equally good guesses; a pool of one word is its own best
/// guess, with raw score one. The second component is the raw score; divided
/// by the pool size it is the expected number of remaining candidates.
pub fn best_guess(guesses: &Vec<Word>, possible_solutions: &Vec<Word>) -> (r: (Word, usize))
    requires
        guesses@.len() > 0,
        possible_solutions@.len() > 0,
        possible_solutions@.len() * possible_solutions@.len() <= usize::MAX,
    ensures
        is_best_pick(guesses@, possible_solutions@, r.0, r.1 as int),
{
    if possible_solutions.len() == 1 {
        return (possible_solutions[0], 1);
    }
    let mut best = guesses[0];
    let mut best_score = pool_score(best, possible_solutions);
    let ghost mut bi: int = 0;
    let mut k: usize = 1;
    while k < guesses.len()
        invariant
            1 <= k <= guesses@.len(),
            possible_solutions@.len() > 0,
            possible_solutions@.len() * possible_solutions@.len() <= usize::MAX,
            0 <= bi < k,
            best == guesses@[bi],
            best_score as int == raw_score(guesses@[bi], possible_solutions@),
            forall|j: int|
                0 <= j < bi ==> raw_score(#[trigger] guesses@[j], possible_solutions@)
                    > best_score as int,
            forall|j: int|
                0 <= j < k ==> raw_score(#[trigger] guesses@[j], possible_solutions@)
                    >= best_score as int,
        decreases guesses@.len() - k,
    {
        let sc = pool_score(guesses[k], possible_solutions);
        if sc < best_score {
            best = guesses[k];
            best_score = sc;
            proof {
                bi = k as int;
            }
        }
        k += 1;
    }
    proof {
        assert(0 <= bi < guesses@.len() && best == guesses@[bi] && best_score as int == raw_score(
            guesses@[bi],
            possible_solutions@,
        ) && (forall|j: int|
            0 <= j < bi ==> raw_score(#[trigger] guesses@[j], possible_solutions@)
                > best_score as int));
    }
    (best, best_score)
}

} // verus!
