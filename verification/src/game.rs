//! The data model of a parsed puzzle result.

use vstd::prelude::*;

verus! {

/// One guess-square glyph of a shared result grid.
///
/// `White` and `Black` both mean "letter not in the word": the light and the
/// dark colour theme render an absent letter differently, and the two must be
/// kept apart because a `Black` square in the first guess row is the signal
/// that the poster plays with the dark theme.
#[derive(Debug, Clone, PartialEq, Eq, Copy, Structural)]
pub enum GuessChar {
    Green,
    Yellow,
    White,
    Black,
}

/// One guess attempt: exactly five glyphs. A line of any other length is a
/// parse failure and is never constructed.
pub type GuessLine = [GuessChar; 5];

/// Every guess of one game, first attempt first.
pub type Guesses = Vec<GuessLine>;

/// A fully parsed puzzle result. Constructed only by a successful parse and
/// never mutated afterwards.
#[derive(Debug, Clone, PartialEq, Eq)]
pub struct Wordle {
    /// the score, out of six, for the game
    pub score: u8,
    /// the day of the game
    pub day: u16,
    /// whether the game was played in hard mode
    pub hard: bool,
    /// the guess rows, in order
    pub guesses: Guesses,
}

/// Why an input is not a recognizable puzzle result. Every variant is an
/// expected, recoverable outcome: the parser never panics.
#[derive(Debug, Clone, Copy, PartialEq, Eq, Structural)]
pub enum ParseError {
    /// The input contains no `"Wordle "` token anywhere.
    HeaderNotFound,
    /// The day field after the token is not a well-formed `u16` followed by
    /// a single space.
    InvalidDay,
    /// The score digit (1 to 6), the `"/6"` literal, or the whitespace that
    /// separates the header from the grid is malformed.
    InvalidScoreField,
    /// The grid has no rows, more than six rows, or a row that does not
    /// decode to exactly five glyphs; the payload is the zero-based index of
    /// the row at which parsing failed.
    InvalidGrid(usize),
}

/// The grid as mathematics: a sequence of rows, each a sequence of glyphs.
pub open spec fn grid_view(g: Seq<GuessLine>) -> Seq<Seq<GuessChar>> {
    Seq::new(g.len(), |i: int| g[i]@)
}

impl View for Wordle {
    type V = crate::grammar::SpecGame;

    /// The mathematical content of a result: its fields, with the grid
    /// abstracted to a sequence of mark sequences.
    open spec fn view(&self) -> crate::grammar::SpecGame {
        crate::grammar::SpecGame {
            day: self.day,
            score: self.score,
            hard: self.hard,
            rows: grid_view(self.guesses@),
        }
    }
}

impl Wordle {
    /// The structural invariant every parsed result satisfies: a score of
    /// 1 to 6 and between one and six guess rows (each row has exactly five
    /// glyphs by construction).
    pub open spec fn wf(&self) -> bool {
        &&& 1 <= self.score <= 6
        &&& 1 <= self.guesses@.len() <= 6
    }

    /// Parses a post's text into a result; a failure means the text is not a
    /// recognizable puzzle result.
    pub fn try_from(value: &str) -> (r: Result<Wordle, ParseError>)
        ensures
            crate::parsing::result_matches(value@, r),
            r matches Ok(w) ==> w.wf(),
    {
        crate::parsing::parse(value)
    }

    /// Whether the poster plays with the dark colour theme: a dark-theme
    /// absent square anywhere in the first guess row is the signal.
    pub fn dark_mode(&self) -> (b: bool)
        ensures
            b == (self.guesses@.len() > 0 && self.guesses@[0]@.contains(GuessChar::Black)),
    {
        if self.guesses.len() == 0 {
            return false;
        }
        let row = &self.guesses[0];
        let mut j: usize = 0;
        let mut saw = false;
        while j < 5
            invariant
                j <= 5,
                self.guesses@.len() > 0,
                row == self.guesses@[0],
                saw ==> exists|t: int| 0 <= t < j && row@[t] == GuessChar::Black,
                !saw ==> forall|t: int| 0 <= t < j ==> row@[t] != GuessChar::Black,
            decreases 5 - j,
        {
            if row[j] == GuessChar::Black {
                saw = true;
            }
            j = j + 1;
        }
        proof {
            if !saw {
                assert(!self.guesses@[0]@.contains(GuessChar::Black));
            }
        }
        saw
    }
}

/// A structurally well-formed result abstracts to a well-formed value: the
/// fixed row length is carried by the row type itself.
pub proof fn lemma_wf_view(w: &Wordle)
    requires
        w.wf(),
    ensures
        w@.wf(),
{
    assert forall|i: int| 0 <= i < w@.rows.len() implies (#[trigger] w@.rows[i]).len() == 5 by {
        assert(w@.rows[i] == w.guesses@[i]@);
    }
}

} // verus!
