use vstd::prelude::*;

use crate::feedback::GuessResponse;
use crate::feedback::GuessResponseChar;

verus! {

/// The display glyph of an outcome.
pub open spec fn symbol_of(o: GuessResponseChar) -> char {
    match o {
        GuessResponseChar::Excluded => '⬛',
        GuessResponseChar::Exact => '🟩',
        GuessResponseChar::Included => '🟨',
    }
}

/// The typed letter that stands for an outcome.
pub open spec fn letter_of(o: GuessResponseChar) -> char {
    match o {
        GuessResponseChar::Excluded => 'b',
        GuessResponseChar::Exact => 'g',
        GuessResponseChar::Included => 'y',
    }
}

/// The outcome a typed character stands for; the three letters are accepted
/// in either case, anything else is invalid.
pub open spec fn outcome_of(c: char) -> Option<GuessResponseChar> {
    if c == 'b' || c == 'B' {
        Some(GuessResponseChar::Excluded)
    } else if c == 'g' || c == 'G' {
        Some(GuessResponseChar::Exact)
    } else if c == 'y' || c == 'Y' {
        Some(GuessResponseChar::Included)
    } else {
        None
    }
}

impl GuessResponseChar {
    /// The colored glyph this outcome is displayed as.
    pub fn unicode_char(&self) -> (c: char)
        ensures
            c == symbol_of(*self),
    {
        match self {
            GuessResponseChar::Excluded => '⬛',
            GuessResponseChar::Exact => '🟩',
            GuessResponseChar::Included => '🟨',
        }
    }

    /// The plain letter this outcome is entered as.
    pub fn letter(&self) -> (c: char)
        ensures
            c == letter_of(*self),
    {
        match self {
            GuessResponseChar::Excluded => 'b',
            GuessResponseChar::Exact => 'g',
            GuessResponseChar::Included => 'y',
        }
    }
}

impl GuessResponse {
    /// The five display glyphs of this response, in position order.
    pub fn symbols(&self) -> (r: [char; 5])
        ensures
            forall|i: int| 0 <= i < 5 ==> r@[i] == symbol_of(self@[i]),
    {
        [
            self.0[0].unicode_char(),
            self.0[1].unicode_char(),
            self.0[2].unicode_char(),
            self.0[3].unicode_char(),
            self.0[4].unicode_char(),
        ]
    }

    /// The five typed letters of this response, in position order.
    pub fn letters(&self) -> (r: [char; 5])
        ensures
            forall|i: int| 0 <= i < 5 ==> r@[i] == letter_of(self@[i]),
    {
        [
            self.0[0].letter(),
            self.0[1].letter(),
            self.0[2].letter(),
            self.0[3].letter(),
            self.0[4].letter(),
        ]
    }
}

/// A feedback line that could not be read back as a response.
#[derive(Debug, PartialEq, Eq, Copy, Clone)]
pub enum FeedbackParseError {
    /// The line did not hold exactly five characters.
    WrongLength { length: usize },
    /// A character other than the three designated letters, at a 1-based
    /// position.
    BadChar { found: char, position: usize },
}

fn parse_outcome(c: char) -> (r: Option<GuessResponseChar>)
    ensures
        r == outcome_of(c),
{
    match c {
        'b' | 'B' => Some(GuessResponseChar::Excluded),
        'g' | 'G' => Some(GuessResponseChar::Exact),
        'y' | 'Y' => Some(GuessResponseChar::Included),
        _ => None,
    }
}

/// Reads a typed feedback line back into a response: exactly five characters,
/// each one of the three designated letters in either case. The first
/// offending character is reported with its 1-based position; a line of the
/// wrong length is reported with its actual length.
pub fn parse_response(chars: &Vec<char>) -> (r: Result<GuessResponse, FeedbackParseError>)
    ensures
        r is Ok <==> (chars@.len() == 5 && forall|i: int|
            0 <= i < 5 ==> #[trigger] outcome_of(chars@[i]) is Some),
        r matches Ok(p) ==> forall|i: int|
            0 <= i < 5 ==> #[trigger] outcome_of(chars@[i]) == Some(p@[i]),
        chars@.len() != 5 ==> r == Result::<GuessResponse, FeedbackParseError>::Err(
            FeedbackParseError::WrongLength { length: chars.len() },
        ),
        r matches Err(FeedbackParseError::WrongLength { length }) ==> chars@.len() != 5 && length
            == chars@.len(),
        r matches Err(FeedbackParseError::BadChar { found, position }) ==> chars@.len() == 5 && 1
            <= position <= 5 && outcome_of(chars@[position - 1]) is None && found == chars@[
            position - 1
        ] && (forall|j: int| 0 <= j < position - 1 ==> #[trigger] outcome_of(chars@[j]) is Some),
{
    if chars.len() != 5 {
        return Err(FeedbackParseError::WrongLength { length: chars.len() });
    }
    let o0 = match parse_outcome(chars[0]) {
        Some(o) => o,
        None => {
            return Err(FeedbackParseError::BadChar { found: chars[0], position: 1 });
        },
    };
    let o1 = match parse_outcome(chars[1]) {
        Some(o) => o,
        None => {
            return Err(FeedbackParseError::BadChar { found: chars[1], position: 2 });
        },
    };
    let o2 = match parse_outcome(chars[2]) {
        Some(o) => o,
        None => {
            return Err(FeedbackParseError::BadChar { found: chars[2], position: 3 });
        },
    };
    let o3 = match parse_outcome(chars[3]) {
        Some(o) => o,
        None => {
            return Err(FeedbackParseError::BadChar { found: chars[3], position: 4 });
        },
    };
    let o4 = match parse_outcome(chars[4]) {
        Some(o) => o,
        None => {
            return Err(FeedbackParseError::BadChar { found: chars[4], position: 5 });
        },
    };
    Ok(GuessResponse::new([o0, o1, o2, o3, o4]))
}

/// Law: rendering a pattern to its typed letters and reading those letters
/// back yields the original pattern, outcome by outcome.
pub proof fn lemma_render_parse_roundtrip(p: Seq<GuessResponseChar>)
    requires
        p.len() == 5,
    ensures
        forall|i: int| 0 <= i < 5 ==> #[trigger] outcome_of(letter_of(p[i])) == Some(p[i]),
{
}

} // verus!
