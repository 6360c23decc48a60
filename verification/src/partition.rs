use vstd::prelude::*;

use rustc_hash::FxHashMap;
use rustc_hash::FxHashSet;

use crate::feedback::compute_spec;
use crate::feedback::pattern_code;
use crate::feedback::response_code;
use crate::feedback::compute;
use crate::word::Word;

verus! {

/// Groups candidate words by the code of the feedback pattern each would
/// produce against a fixed guess. The hash map and hash sets inside come
/// from an outside crate; what they hold is described by `table_contents`.
#[verifier::external_body]
pub struct PatternTable {
    inner: FxHashMap<u8, FxHashSet<Word>>,
}

/// What a `PatternTable` holds: for each pattern code present, the set of
/// words filed under it.
pub uninterp spec fn table_contents(t: PatternTable) -> Map<u8, Set<Word>>;

/// The words a table holds under a code: the entry when present, else empty.
pub open spec fn bucket_in(m: Map<u8, Set<Word>>, code: u8) -> Set<Word> {
    if m.dom().contains(code) {
        m[code]
    } else {
        Set::empty()
    }
}

/// A table with no entries at all.
pub open spec fn table_is_empty(t: PatternTable) -> bool {
    table_contents(t) == Map::<u8, Set<Word>>::empty()
}

/// Relies on FxHashMap::default, which returns an empty map.
#[verifier::external_body]
pub(crate) fn table_new() -> (fresh: PatternTable)
    ensures
        table_is_empty(fresh),
{
    PatternTable { inner: FxHashMap::default() }
}

/// Relies on HashMap::entry, Entry::or_default and HashSet::insert: filing a
/// word adds it to the set under its code and leaves every other entry
/// unchanged.
#[verifier::external_body]
pub(crate) fn table_insert(t: &mut PatternTable, code: u8, word: Word)
    ensures
        table_contents(*final(t)) == table_contents(*old(t)).insert(
            code,
            bucket_in(table_contents(*old(t)), code).insert(word),
        ),
{
    t.inner.entry(code).or_default().insert(word);
}

/// Relies on HashMap::get and HashSet::len: how many words are filed under a
/// code, zero when the code is absent.
#[verifier::external_body]
pub(crate) fn table_count(t: &PatternTable, code: u8) -> (n: usize)
    ensures
        n == bucket_in(table_contents(*t), code).len(),
{
    match t.inner.get(&code) {
        Some(s) => s.len(),
        None => 0,
    }
}

/// Relies on HashMap::get and HashSet iteration: the words filed under a
/// code, each exactly once in some order; None when the code is absent.
#[verifier::external_body]
pub(crate) fn table_bucket(t: &PatternTable, code: u8) -> (r: Option<Vec<Word>>)
    ensures
        r is Some <==> table_contents(*t).dom().contains(code),
        r matches Some(v) ==> v@.to_set() == table_contents(*t)[code] && v@.no_duplicates(),
{
    match t.inner.get(&code) {
        Some(s) => Some(s.iter().copied().collect()),
        None => None,
    }
}

/// The words of a pool that would answer a guess with the pattern of the
/// given code. Duplicate words of the pool collapse: buckets are sets.
pub open spec fn bucket_set(guess: Word, pool: Seq<Word>, code: int) -> Set<Word> {
    pool.to_set().filter(|w: Word| pattern_code(compute_spec(guess@, w@)) == code)
}

/// What `build_histogram` promises of the table it returns.
pub open spec fn histogram_of(t: PatternTable, guess: Word, pool: Seq<Word>) -> bool {
    &&& forall|c: u8| #![auto] bucket_in(table_contents(t), c) == bucket_set(guess, pool, c as int)
    &&& forall|c: u8| #![auto]
        table_contents(t).dom().contains(c) ==> table_contents(t)[c] =~= bucket_set(
            guess,
            pool,
            c as int,
        ) && !table_contents(t)[c].is_empty()
}

/// Partitions a pool of candidate words by the feedback pattern each would
/// produce against a fixed guess: every word is filed under the code of its
/// pattern, and only codes that actually occur get an entry.
pub fn build_histogram(guess: Word, pool: &Vec<Word>) -> (t: PatternTable)
    ensures
        histogram_of(t, guess, pool@),
{
    let mut t = table_new();
    let mut i: usize = 0;
    proof {
        assert forall|c: u8| #![auto]
            bucket_in(table_contents(t), c) == bucket_set(
                guess,
                pool@.take(0),
                c as int,
            ) by {
            assert(pool@.take(0).to_set() =~= Set::<Word>::empty());
            assert(bucket_set(guess, pool@.take(0), c as int) =~= Set::<Word>::empty());
        }
    }
    while i < pool.len()
        invariant
            i <= pool@.len(),
            forall|c: u8| #![auto]
                bucket_in(table_contents(t), c) == bucket_set(guess, pool@.take(i as int), c as int),
            forall|c: u8| #![auto]
                table_contents(t).dom().contains(c) ==> !table_contents(t)[c].is_empty(),
        decreases pool@.len() - i,
    {
        let w = pool[i];
        let resp = compute(guess, w);
        let code = response_code(&resp);
        let ghost before = table_contents(t);
        table_insert(&mut t, code, w);
        proof {
            let prefix = pool@.take(i as int);
            let extended = pool@.take(i as int + 1);
            assert(extended =~= prefix.push(w));
            prefix.lemma_push_to_set_commute(w);
            assert(extended.to_set() =~= prefix.to_set().insert(w));
            assert forall|c: u8| #![auto]
                bucket_in(table_contents(t), c) == bucket_set(guess, extended, c as int) by {
                if c == code {
                    assert(pattern_code(compute_spec(guess@, w@)) == code as int);
                    assert(bucket_in(table_contents(t), c) =~= bucket_set(guess, extended, c as int));
                } else {
                    assert(bucket_in(table_contents(t), c) == bucket_in(before, c));
                    assert(bucket_in(before, c) =~= bucket_set(guess, extended, c as int));
                }
            }
        }
        i += 1;
    }
    proof {
        assert(pool@.take(pool@.len() as int) =~= pool@);
        assert forall|c: u8| #![auto]
            table_contents(t).dom().contains(c) implies table_contents(t)[c] =~= bucket_set(
            guess,
            pool@,
            c as int,
        ) by {
            assert(bucket_in(table_contents(t), c) == bucket_set(guess, pool@, c as int));
        }
    }
    t
}

} // verus!
