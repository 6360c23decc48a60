use vstd::prelude::*;

verus! {

/// A guess or candidate solution: exactly five letters, kept in the case
/// they were given, compared and hashed structurally.
#[derive(Debug, PartialEq, Eq, Hash, Copy, Clone)]
pub struct Word(pub [char; 5]);

impl View for Word {
    type V = Seq<char>;

    open spec fn view(&self) -> Seq<char> {
        self.0@
    }
}

impl Word {
    pub fn new(chars: [char; 5]) -> (w: Word)
        ensures
            w@ == chars@,
    {
        Word(chars)
    }

    /// The letters of the word, in order.
    pub fn letters(&self) -> (r: [char; 5])
        ensures
            r@ == self@,
    {
        self.0
    }

    /// The letter at position `i`.
    pub fn get(&self, i: usize) -> (c: char)
        requires
            i < 5,
        ensures
            c == self@[i as int],
    {
        self.0[i]
    }

}

/// Two words with the same letters are the same word.
pub proof fn lemma_word_view_injective(a: Word, b: Word)
    requires
        a@ == b@,
    ensures
        a == b,
{
    broadcast use vstd::array::group_array_axioms;

    assert(forall|i: int| 0 <= i < 5 ==> a.0[i] == b.0[i]);
    assert(a.0 =~= b.0);
}

/// A corpus record whose sixth character is not the expected newline.
#[derive(Debug, PartialEq, Eq, Copy, Clone)]
pub struct CorpusError {
    /// Index into the corpus text of the offending character.
    pub position: usize,
    /// The character found where a newline was expected.
    pub found: char,
}

/// A corpus text is well formed when every complete record ends in a newline:
/// the characters at indices 5, 11, 17, ... are all `'\n'`.
pub open spec fn corpus_ok(text: Seq<char>) -> bool {
    forall|j: int| 0 <= j < text.len() && j % 6 == 5 ==> text[j] == '\n'
}

/// The five letters of the `k`-th record of a corpus text.
pub open spec fn corpus_word(text: Seq<char>, k: int) -> Seq<char> {
    text.subrange(6 * k, 6 * k + 5)
}

/// Splits a word-corpus text into five-letter words. Each record is five
/// letters followed by a single newline; a trailing incomplete record is
/// ignored. The first record whose sixth character is not a newline is
/// reported as an error.
pub fn parse_words(text: &Vec<char>) -> (r: Result<Vec<Word>, CorpusError>)
    ensures
        r is Ok <==> corpus_ok(text@),
        r matches Ok(ws) ==> ws@.len() == text@.len() / 6 && (forall|k: int|
            0 <= k < ws@.len() ==> ws@[k]@ == corpus_word(text@, k)),
        r matches Err(e) ==> e.position < text@.len() && e.position % 6 == 5 && text@[
            e.position as int
        ] != '\n' && e.found == text@[e.position as int] && (forall|j: int|
            0 <= j < e.position && j % 6 == 5 ==> text@[j] == '\n'),
{
    let n = text.len();
    let mut words: Vec<Word> = Vec::new();
    let mut i: usize = 0;
    while n - i >= 6
        invariant
            n == text@.len(),
            i % 6 == 0,
            i <= n,
            words@.len() == i / 6,
            forall|k: int| 0 <= k < words@.len() ==> words@[k]@ == corpus_word(text@, k),
            forall|j: int| 0 <= j < i && j % 6 == 5 ==> text@[j] == '\n',
        decreases n - i,
    {
        if text[i + 5] != '\n' {
            return Err(CorpusError { position: i + 5, found: text[i + 5] });
        }
        let w = Word::new([text[i], text[i + 1], text[i + 2], text[i + 3], text[i + 4]]);
        proof {
            assert(w@ =~= corpus_word(text@, i as int / 6));
        }
        words.push(w);
        i += 6;
    }
    proof {
        assert forall|j: int| 0 <= j < text@.len() && j % 6 == 5 implies #[trigger] text@[j]
            == '\n' by {
            assert(j < i);
        }
    }
    Ok(words)
}

} // verus!
