//! The grammar, stated as mathematics.
//!
//! Everything here is specification: total functions over `Seq<char>` that
//! say, for every input, exactly what [`crate::parsing::parse`] must return.
//! The stages mirror the grammar's order of application: locate the header
//! token, read the day number, read the score and hard-mode marker, then read
//! the guess grid. The first stage that fails decides the error; no stage is
//! retried.

use crate::game::GuessChar;
use vstd::prelude::*;

verus! {

/// The glyph of a correctly placed letter.
pub const GREEN_GLYPH: char = '\u{1f7e9}';

/// The glyph of a present but misplaced letter.
pub const YELLOW_GLYPH: char = '\u{1f7e8}';

/// The glyph of an absent letter in the light colour theme.
pub const WHITE_GLYPH: char = '\u{2b1c}';

/// The glyph of an absent letter in the dark colour theme.
pub const BLACK_GLYPH: char = '\u{2b1b}';

/// The numeric value of an ASCII digit, or -1 for any other character.
pub open spec fn digit_val(c: char) -> int {
    if c == '0' {
        0
    } else if c == '1' {
        1
    } else if c == '2' {
        2
    } else if c == '3' {
        3
    } else if c == '4' {
        4
    } else if c == '5' {
        5
    } else if c == '6' {
        6
    } else if c == '7' {
        7
    } else if c == '8' {
        8
    } else if c == '9' {
        9
    } else {
        -1
    }
}

pub open spec fn is_digit(c: char) -> bool {
    digit_val(c) >= 0
}

/// The whitespace accepted between the header and the grid.
pub open spec fn is_space(c: char) -> bool {
    c == ' ' || c == '\t' || c == '\r' || c == '\n'
}

pub open spec fn is_glyph(c: char) -> bool {
    c == GREEN_GLYPH || c == YELLOW_GLYPH || c == WHITE_GLYPH || c == BLACK_GLYPH
}

/// The mark a glyph stands for; meaningful only when `is_glyph(c)`.
pub open spec fn mark_of(c: char) -> GuessChar {
    if c == GREEN_GLYPH {
        GuessChar::Green
    } else if c == YELLOW_GLYPH {
        GuessChar::Yellow
    } else if c == WHITE_GLYPH {
        GuessChar::White
    } else {
        GuessChar::Black
    }
}

/// The glyph a mark is rendered as. Inverse of [`mark_of`] on glyphs.
pub open spec fn glyph_char(m: GuessChar) -> char {
    match m {
        GuessChar::Green => GREEN_GLYPH,
        GuessChar::Yellow => YELLOW_GLYPH,
        GuessChar::White => WHITE_GLYPH,
        GuessChar::Black => BLACK_GLYPH,
    }
}

/// The character classes whose maximal runs the grammar measures.
#[derive(Clone, Copy)]
pub enum CharClass {
    /// an ASCII digit
    Digit,
    /// header-to-grid whitespace
    Space,
    /// one of the four guess glyphs
    Glyph,
    /// anything but a line feed; a run of these is a line's remainder
    NotNewline,
}

pub open spec fn in_class(k: CharClass, c: char) -> bool {
    match k {
        CharClass::Digit => is_digit(c),
        CharClass::Space => is_space(c),
        CharClass::Glyph => is_glyph(c),
        CharClass::NotNewline => c != '\n',
    }
}

/// The length of the maximal run of class-`k` characters starting at `from`.
pub open spec fn run_len(s: Seq<char>, from: nat, k: CharClass) -> nat
    decreases s.len() - from,
{
    if from >= s.len() || !in_class(k, s[from as int]) {
        0
    } else {
        1 + run_len(s, from + 1, k)
    }
}

/// The unsigned integer a digit sequence denotes, most significant digit
/// first. Meaningful only when every character is a digit.
pub open spec fn value_of(ds: Seq<char>) -> int
    decreases ds.len(),
{
    if ds.len() == 0 {
        0
    } else {
        value_of(ds.drop_last()) * 10 + digit_val(ds.last())
    }
}

/// Whether the seven characters of the header token stand at index `i`.
pub open spec fn header_at(s: Seq<char>, i: int) -> bool {
    &&& 0 <= i
    &&& i + 7 <= s.len()
    &&& s[i] == 'W'
    &&& s[i + 1] == 'o'
    &&& s[i + 2] == 'r'
    &&& s[i + 3] == 'd'
    &&& s[i + 4] == 'l'
    &&& s[i + 5] == 'e'
    &&& s[i + 6] == ' '
}

/// Whether the header token occurs anywhere in the input.
pub open spec fn has_header(s: Seq<char>) -> bool {
    exists|i: int| header_at(s, i)
}

/// The least index at or after `from` where the header token stands, if any.
pub open spec fn first_header_index(s: Seq<char>, from: nat) -> Option<nat>
    decreases s.len() - from,
{
    if from + 7 > s.len() {
        None
    } else if header_at(s, from as int) {
        Some(from)
    } else {
        first_header_index(s, from + 1)
    }
}

/// A maximal run stays inside the input, consists of class characters, and
/// is followed by the input's end or by a character outside the class.
pub proof fn lemma_run_len_props(s: Seq<char>, from: nat, k: CharClass)
    requires
        from <= s.len(),
    ensures
        from + run_len(s, from, k) <= s.len(),
        forall|j: int| from <= j < from + run_len(s, from, k) ==> in_class(k, s[j]),
        from + run_len(s, from, k) == s.len() || !in_class(
            k,
            s[(from + run_len(s, from, k)) as int],
        ),
    decreases s.len() - from,
{
    if from < s.len() && in_class(k, s[from as int]) {
        lemma_run_len_props(s, from + 1, k);
    }
}

/// A stretch of `n` class characters bounded by the input's end or by a
/// character outside the class is exactly the maximal run.
pub proof fn lemma_run_len_exact(s: Seq<char>, from: nat, n: nat, k: CharClass)
    requires
        from + n <= s.len(),
        forall|j: int| from <= j < from + n ==> in_class(k, s[j]),
        from + n == s.len() || !in_class(k, s[(from + n) as int]),
    ensures
        run_len(s, from, k) == n,
    decreases n,
{
    if n > 0 {
        lemma_run_len_exact(s, from + 1, (n - 1) as nat, k);
    }
}

/// A digit sequence denotes a non-negative value.
pub proof fn lemma_value_of_nonneg(ds: Seq<char>)
    requires
        forall|j: int| 0 <= j < ds.len() ==> is_digit(ds[j]),
    ensures
        value_of(ds) >= 0,
    decreases ds.len(),
{
    if ds.len() > 0 {
        lemma_value_of_nonneg(ds.drop_last());
    }
}

/// Appending one more digit multiplies the value by ten and adds the digit.
pub proof fn lemma_value_of_push(ds: Seq<char>, c: char)
    ensures
        value_of(ds.push(c)) == value_of(ds) * 10 + digit_val(c),
{
    assert(ds.push(c).drop_last() =~= ds);
    assert(ds.push(c).last() == c);
}

/// A digit sequence denotes at least as much as any of its prefixes: more
/// digits never shrink the value.
pub proof fn lemma_value_of_prefix(ds: Seq<char>, m: int)
    requires
        0 <= m <= ds.len(),
        forall|j: int| 0 <= j < ds.len() ==> is_digit(ds[j]),
    ensures
        value_of(ds.take(m)) <= value_of(ds),
    decreases ds.len() - m,
{
    if m < ds.len() {
        lemma_value_of_push(ds.take(m), ds[m]);
        assert(ds.take(m).push(ds[m]) =~= ds.take(m + 1));
        lemma_value_of_nonneg(ds.take(m));
        lemma_value_of_prefix(ds, m + 1);
    } else {
        assert(ds.take(m) =~= ds);
    }
}

/// What the header search returns: `None` exactly when the token stands
/// nowhere at or after `from`, and otherwise its first position from there.
pub proof fn lemma_first_header_index(s: Seq<char>, from: nat)
    ensures
        match first_header_index(s, from) {
            None => forall|i: int| i >= from ==> !header_at(s, i),
            Some(h) => {
                &&& from <= h
                &&& header_at(s, h as int)
                &&& forall|i: int| from <= i < h ==> !header_at(s, i)
            },
        },
    decreases s.len() - from,
{
    if from + 7 > s.len() {
        assert(forall|i: int| i >= from ==> !header_at(s, i));
    } else if !header_at(s, from as int) {
        lemma_first_header_index(s, from + 1);
    }
}

/// The abstract content of a successfully parsed result: what a
/// [`crate::game::Wordle`] holds, with the grid as a sequence of sequences.
pub ghost struct SpecGame {
    pub day: u16,
    pub score: u8,
    pub hard: bool,
    pub rows: Seq<Seq<GuessChar>>,
}

impl SpecGame {
    /// A well-formed abstract result: a score of 1 to 6, one to six rows,
    /// five marks in every row.
    pub open spec fn wf(&self) -> bool {
        &&& 1 <= self.score <= 6
        &&& 1 <= self.rows.len() <= 6
        &&& forall|i: int| 0 <= i < self.rows.len() ==> (#[trigger] self.rows[i]).len() == 5
    }
}

/// The grid stage, from position `q` (which must hold a glyph) with `r` rows
/// already read. A failure carries the zero-based index of the offending row.
///
/// A row is exactly five glyphs; the rest of its line must hold no further
/// glyph and is discarded (this tolerates spoiler markup appended to a row).
/// After a row's line, a line feed followed by a glyph begins the next row;
/// anything else ends the grid. A seventh row fails the parse.
pub open spec fn spec_rows(s: Seq<char>, q: nat, r: nat) -> Result<Seq<Seq<GuessChar>>, nat>
    decreases s.len() - q,
{
    if r >= 6 {
        Err(r)
    } else if run_len(s, q, CharClass::Glyph) != 5 {
        Err(r)
    } else {
        let t = run_len(s, q + 5, CharClass::NotNewline);
        if exists|j: int| q + 5 <= j < q + 5 + t && is_glyph(s[j]) {
            Err(r)
        } else {
            let row = Seq::new(5, |j: int| mark_of(s[q + j]));
            let e = q + 5 + t;
            if e + 1 < s.len() && is_glyph(s[(e + 1) as int]) {
                match spec_rows(s, e + 1, r + 1) {
                    Ok(rest) => Ok(seq![row] + rest),
                    Err(i) => Err(i),
                }
            } else {
                Ok(seq![row])
            }
        }
    }
}

/// [`header_at`] spells the token character by character; this ties it to
/// the string literal `"Wordle "` itself.
pub proof fn lemma_header_at_literal(s: Seq<char>, i: int)
    requires
        0 <= i,
        i + 7 <= s.len(),
    ensures
        header_at(s, i) <==> s.subrange(i, i + 7) == "Wordle "@,
{
    reveal_strlit("Wordle ");
    if header_at(s, i) {
        assert(s.subrange(i, i + 7) =~= "Wordle "@);
    }
    if s.subrange(i, i + 7) == "Wordle "@ {
        assert(s[i] == s.subrange(i, i + 7)[0]);
        assert(s[i + 1] == s.subrange(i, i + 7)[1]);
        assert(s[i + 2] == s.subrange(i, i + 7)[2]);
        assert(s[i + 3] == s.subrange(i, i + 7)[3]);
        assert(s[i + 4] == s.subrange(i, i + 7)[4]);
        assert(s[i + 5] == s.subrange(i, i + 7)[5]);
        assert(s[i + 6] == s.subrange(i, i + 7)[6]);
    }
}

/// What parsing an input must yield: the whole grammar as one total function.
///
/// The stages, in order: the first occurrence of the header token anchors the
/// parse (everything before it is commentary and is discarded); the day is a
/// maximal digit run that must fit in a `u16` and be followed by one space;
/// the score is one digit from 1 to 6, then the literal `/6`, then an
/// optional `*` (hard mode), then at least one whitespace character; the grid
/// is one to six glyph rows. Whatever follows the grid is ignored.
pub open spec fn spec_parse(s: Seq<char>) -> Result<SpecGame, crate::game::ParseError>
{
    match first_header_index(s, 0) {
        None => Err(crate::game::ParseError::HeaderNotFound),
        Some(h) => {
            let p = h + 7;
            let k = run_len(s, p, CharClass::Digit);
            let day_val = value_of(s.subrange(p as int, (p + k) as int));
            if k == 0 || day_val > 65535 || p + k >= s.len() || s[(p + k) as int] != ' ' {
                Err(crate::game::ParseError::InvalidDay)
            } else {
                let p2 = p + k + 1;
                if p2 + 3 > s.len() || !(1 <= digit_val(s[p2 as int]) <= 6) || s[(p2 + 1) as int] != '/'
                    || s[(p2 + 2) as int] != '6' {
                    Err(crate::game::ParseError::InvalidScoreField)
                } else {
                    let score = digit_val(s[p2 as int]) as u8;
                    let hard = p2 + 3 < s.len() && s[(p2 + 3) as int] == '*';
                    let p4 = if hard {
                        p2 + 4
                    } else {
                        p2 + 3
                    };
                    let w = run_len(s, p4, CharClass::Space);
                    if w == 0 {
                        Err(crate::game::ParseError::InvalidScoreField)
                    } else {
                        let p5 = p4 + w;
                        if p5 >= s.len() || !is_glyph(s[p5 as int]) {
                            Err(crate::game::ParseError::InvalidGrid(0))
                        } else {
                            match spec_rows(s, p5, 0) {
                                Ok(rows) => Ok(
                                    SpecGame {
                                        day: day_val as u16,
                                        score,
                                        hard,
                                        rows,
                                    },
                                ),
                                Err(r) => Err(crate::game::ParseError::InvalidGrid(r as usize)),
                            }
                        }
                    }
                }
            }
        },
    }
}

/// An input in which the header token `"Wordle "` stands nowhere fails with
/// `HeaderNotFound`, and one in which it stands somewhere never does.
pub proof fn lemma_header_not_found(s: Seq<char>)
    ensures
        (spec_parse(s) == Err::<SpecGame, crate::game::ParseError>(
            crate::game::ParseError::HeaderNotFound,
        )) <==> !has_header(s),
{
    lemma_first_header_index(s, 0);
    if first_header_index(s, 0) is Some {
        let h = first_header_index(s, 0)->Some_0;
        assert(header_at(s, h as int));
    }
}

} // verus!
