//! The executable parser, proved against [`crate::grammar`].
//!
//! [`parse`] never panics and returns, for every input, exactly what
//! [`crate::grammar::spec_parse`] dictates: the structured result on success
//! and the typed failure of the first grammar stage that does not match.

use crate::game::GuessChar;
use crate::game::GuessLine;
use crate::game::ParseError;
use crate::game::Wordle;
use crate::game::grid_view;
use crate::grammar::CharClass;
use crate::grammar::digit_val;
use crate::grammar::first_header_index;
use crate::grammar::header_at;
use crate::grammar::in_class;
use crate::grammar::is_digit;
use crate::grammar::is_glyph;
use crate::grammar::lemma_run_len_props;
use crate::grammar::lemma_value_of_prefix;
use crate::grammar::lemma_value_of_push;
use crate::grammar::mark_of;
use crate::grammar::run_len;
use crate::grammar::value_of;
use vstd::prelude::*;
use vstd::string::StrSliceExecFns;

verus! {

/// The input as a vector of characters, so that every later step is plain
/// verified indexing.
fn chars_vec(input: &str) -> (v: Vec<char>)
    ensures
        v@ == input@,
{
    let n = input.unicode_len();
    let mut v: Vec<char> = Vec::new();
    let mut i: usize = 0;
    while i < n
        invariant
            i <= n,
            n == input@.len(),
            v@.len() == i,
            forall|j: int| 0 <= j < i ==> v@[j] == input@[j],
        decreases n - i,
    {
        v.push(input.get_char(i));
        i = i + 1;
    }
    assert(v@ =~= input@);
    v
}

/// Whether `c` belongs to the class `k`; the executable twin of
/// [`in_class`].
fn class_test(k: CharClass, c: char) -> (b: bool)
    ensures
        b == in_class(k, c),
{
    match k {
        CharClass::Digit => {
            c == '0' || c == '1' || c == '2' || c == '3' || c == '4' || c == '5' || c == '6'
                || c == '7' || c == '8' || c == '9'
        },
        CharClass::Space => c == ' ' || c == '\t' || c == '\r' || c == '\n',
        CharClass::Glyph => {
            c == '\u{1f7e9}' || c == '\u{1f7e8}' || c == '\u{2b1c}' || c == '\u{2b1b}'
        },
        CharClass::NotNewline => c != '\n',
    }
}

/// The length of the maximal class-`k` run starting at `from`.
fn run_length(s: &Vec<char>, from: usize, k: CharClass) -> (r: usize)
    requires
        from <= s@.len(),
    ensures
        r == run_len(s@, from as nat, k),
        from + r <= s@.len(),
    decreases s@.len() - from,
{
    let mut i = from;
    while i < s.len() && class_test(k, s[i])
        invariant
            from <= i <= s@.len(),
            run_len(s@, from as nat, k) == i - from + run_len(s@, i as nat, k),
        decreases s@.len() - i,
    {
        i = i + 1;
    }
    proof {
        lemma_run_len_props(s@, from as nat, k);
    }
    i - from
}

/// The numeric value of a digit character, or `None` for any other one.
fn digit_of(c: char) -> (r: Option<u8>)
    ensures
        match r {
            Some(d) => is_digit(c) && d as int == digit_val(c),
            None => !is_digit(c),
        },
{
    if c == '0' {
        Some(0)
    } else if c == '1' {
        Some(1)
    } else if c == '2' {
        Some(2)
    } else if c == '3' {
        Some(3)
    } else if c == '4' {
        Some(4)
    } else if c == '5' {
        Some(5)
    } else if c == '6' {
        Some(6)
    } else if c == '7' {
        Some(7)
    } else if c == '8' {
        Some(8)
    } else if c == '9' {
        Some(9)
    } else {
        None
    }
}

/// The mark a glyph stands for; the executable twin of [`mark_of`].
fn mark_char(c: char) -> (m: GuessChar)
    requires
        is_glyph(c),
    ensures
        m == mark_of(c),
{
    if c == '\u{1f7e9}' {
        GuessChar::Green
    } else if c == '\u{1f7e8}' {
        GuessChar::Yellow
    } else if c == '\u{2b1c}' {
        GuessChar::White
    } else {
        GuessChar::Black
    }
}

/// Whether the header token stands at index `i`.
fn header_here(s: &Vec<char>, i: usize) -> (b: bool)
    requires
        i + 7 <= s@.len(),
    ensures
        b == header_at(s@, i as int),
{
    // the exec length call bounds the character count by usize, which the
    // index arithmetic below needs
    let _n = s.len();
    s[i] == 'W' && s[i + 1] == 'o' && s[i + 2] == 'r' && s[i + 3] == 'd' && s[i + 4] == 'l'
        && s[i + 5] == 'e' && s[i + 6] == ' '
}

/// The position of the first header token, scanning the whole input.
fn find_header(s: &Vec<char>) -> (r: Option<usize>)
    ensures
        match r {
            Some(h) => {
                &&& first_header_index(s@, 0) == Some(h as nat)
                &&& header_at(s@, h as int)
            },
            None => first_header_index(s@, 0) is None,
        },
{
    let n = s.len();
    if n < 7 {
        return None;
    }
    let mut i: usize = 0;
    while i <= n - 7
        invariant
            7 <= n == s@.len(),
            i <= n - 6,
            first_header_index(s@, 0) == first_header_index(s@, i as nat),
        decreases s@.len() - i,
    {
        if header_here(s, i) {
            return Some(i);
        }
        i = i + 1;
    }
    None
}

/// The value of the digit run `s[from .. from + k]` as a `u16`, or `None`
/// when that value does not fit (the grammar then rejects the day field).
fn day_value(s: &Vec<char>, from: usize, k: usize) -> (r: Option<u16>)
    requires
        from + k <= s@.len(),
        forall|j: int| from <= j < from + k ==> is_digit(s@[j]),
    ensures
        match r {
            Some(d) => d as int == value_of(s@.subrange(from as int, (from + k) as int)),
            None => value_of(s@.subrange(from as int, (from + k) as int)) > 65535,
        },
{
    let ghost full = s@.subrange(from as int, (from + k) as int);
    let n = s.len();
    let mut acc: u32 = 0;
    let mut i: usize = 0;
    while i < k
        invariant
            i <= k,
            from + k <= n == s@.len(),
            forall|j: int| from <= j < from + k ==> is_digit(s@[j]),
            full == s@.subrange(from as int, (from + k) as int),
            acc <= 65535,
            acc as int == value_of(s@.subrange(from as int, (from + i) as int)),
        decreases k - i,
    {
        let d = match digit_of(s[from + i]) {
            Some(d) => d,
            None => {
                // unreachable: every character of the run is a digit
                proof {
                    assert(is_digit(s@[(from + i) as int]));
                }
                0
            },
        };
        let next: u32 = acc * 10 + d as u32;
        proof {
            let prefix = s@.subrange(from as int, (from + i) as int);
            lemma_value_of_push(prefix, s@[(from + i) as int]);
            assert(prefix.push(s@[(from + i) as int]) =~= s@.subrange(
                from as int,
                (from + i + 1) as int,
            ));
        }
        if next > 65535 {
            proof {
                assert(s@.subrange(from as int, (from + i + 1) as int) =~= full.take(i + 1));
                lemma_value_of_prefix(full, i + 1);
            }
            return None;
        }
        acc = next;
        i = i + 1;
    }
    Some(acc as u16)
}

/// Scans a line's remainder: returns the index of the next line feed (or the
/// input's end) and whether a glyph stood anywhere in between.
fn line_tail(s: &Vec<char>, from: usize) -> (res: (usize, bool))
    requires
        from <= s@.len(),
    ensures
        res.0 == from + run_len(s@, from as nat, CharClass::NotNewline),
        res.1 == exists|j: int| from <= j < res.0 && is_glyph(s@[j]),
    decreases s@.len() - from,
{
    let mut i = from;
    let mut saw = false;
    while i < s.len() && class_test(CharClass::NotNewline, s[i])
        invariant
            from <= i <= s@.len(),
            run_len(s@, from as nat, CharClass::NotNewline) == i - from + run_len(
                s@,
                i as nat,
                CharClass::NotNewline,
            ),
            saw ==> exists|j: int| from <= j < i && is_glyph(s@[j]),
            !saw ==> forall|j: int| from <= j < i ==> !is_glyph(s@[j]),
        decreases s@.len() - i,
    {
        if class_test(CharClass::Glyph, s[i]) {
            proof {
                assert(is_glyph(s@[i as int]));
            }
            saw = true;
        }
        i = i + 1;
    }
    proof {
        lemma_run_len_props(s@, from as nat, CharClass::NotNewline);
        if !saw {
            assert(!(exists|j: int| from <= j < i && is_glyph(s@[j])));
        }
    }
    (i, saw)
}

/// How an executable grid result must relate to the grid stage of the
/// grammar: same rows on success, same failing row index otherwise.
pub open spec fn rows_match(sr: Result<Seq<Seq<GuessChar>>, nat>, er: Result<
    Vec<GuessLine>,
    usize,
>) -> bool {
    match (sr, er) {
        (Ok(rs), Ok(v)) => grid_view(v@) == rs,
        (Err(i), Err(j)) => i == j as nat,
        _ => false,
    }
}

/// How [`parse`]'s result must relate to the grammar: the same typed error,
/// or a record whose fields carry exactly the parsed values.
pub open spec fn result_matches(s: Seq<char>, r: Result<Wordle, ParseError>) -> bool {
    match (crate::grammar::spec_parse(s), r) {
        (Ok(g), Ok(w)) => g == w@,
        (Err(e1), Err(e2)) => e1 == e2,
        _ => false,
    }
}

/// The conversion from a checked, dynamically sized collection of marks to a
/// fixed-length row. The length requirement is stated here, at the boundary,
/// so a grammar change that stopped enforcing it would fail verification.
fn line_from(v: Vec<GuessChar>) -> (row: GuessLine)
    requires
        v@.len() == 5,
    ensures
        row@ == v@,
{
    let row: GuessLine = [v[0], v[1], v[2], v[3], v[4]];
    assert(row@ =~= v@);
    row
}

/// The grid stage: the executable twin of [`crate::grammar::spec_rows`],
/// entered at a glyph with `r` rows already read.
fn parse_rows(s: &Vec<char>, q: usize, r: usize) -> (res: Result<Vec<GuessLine>, usize>)
    requires
        q < s@.len(),
        is_glyph(s@[q as int]),
        r <= 6,
    ensures
        rows_match(crate::grammar::spec_rows(s@, q as nat, r as nat), res),
        res matches Ok(v) ==> 1 <= v@.len() <= 6 - r,
    decreases s@.len() - q,
{
    let n = s.len();
    if r >= 6 {
        return Err(r);
    }
    let g = run_length(s, q, CharClass::Glyph);
    if g != 5 {
        return Err(r);
    }
    proof {
        lemma_run_len_props(s@, q as nat, CharClass::Glyph);
    }
    let mut marks: Vec<GuessChar> = Vec::new();
    let mut j: usize = 0;
    while j < 5
        invariant
            j <= 5,
            q + 5 <= n == s@.len(),
            forall|t: int| q <= t < q + 5 ==> is_glyph(s@[t]),
            marks@.len() == j,
            forall|t: int| 0 <= t < j ==> marks@[t] == mark_of(s@[q + t]),
        decreases 5 - j,
    {
        marks.push(mark_char(s[q + j]));
        j = j + 1;
    }
    let row = line_from(marks);
    let ghost spec_row = Seq::new(5, |t: int| mark_of(s@[q + t]));
    proof {
        assert(row@ =~= spec_row);
    }
    let (e, saw) = line_tail(s, q + 5);
    if saw {
        return Err(r);
    }
    proof {
        lemma_run_len_props(s@, (q + 5) as nat, CharClass::NotNewline);
    }
    if e < n && e + 1 < n && class_test(CharClass::Glyph, s[e + 1]) {
        match parse_rows(s, e + 1, r + 1) {
            Ok(mut rest) => {
                rest.insert(0, row);
                proof {
                    let sr = crate::grammar::spec_rows(s@, (e + 1) as nat, (r + 1) as nat);
                    assert(grid_view(rest@) =~~= seq![spec_row] + sr->Ok_0);
                }
                Ok(rest)
            },
            Err(i) => Err(i),
        }
    } else {
        let mut v: Vec<GuessLine> = Vec::new();
        v.push(row);
        proof {
            assert(grid_view(v@) =~~= seq![spec_row]);
        }
        Ok(v)
    }
}

/// Parses one post's text into a structured puzzle result.
///
/// The function is pure and total: it never panics, whatever the input, and
/// its result is exactly what the grammar ([`crate::grammar::spec_parse`])
/// dictates for the input's characters. On success the returned record
/// satisfies its structural invariant [`Wordle::wf`].
pub fn parse(input: &str) -> (r: Result<Wordle, ParseError>)
    ensures
        result_matches(input@, r),
        r matches Ok(w) ==> w.wf(),
{
    let s = chars_vec(input);
    let n = s.len();
    let h = match find_header(&s) {
        Some(h) => h,
        None => {
            return Err(ParseError::HeaderNotFound);
        },
    };
    let p = h + 7;
    let k = run_length(&s, p, CharClass::Digit);
    proof {
        lemma_run_len_props(s@, p as nat, CharClass::Digit);
    }
    if k == 0 {
        return Err(ParseError::InvalidDay);
    }
    let day = match day_value(&s, p, k) {
        Some(d) => d,
        None => {
            return Err(ParseError::InvalidDay);
        },
    };
    if p + k == n || s[p + k] != ' ' {
        return Err(ParseError::InvalidDay);
    }
    let p2 = p + k + 1;
    if n - p2 < 3 {
        return Err(ParseError::InvalidScoreField);
    }
    let score = match digit_of(s[p2]) {
        Some(d) => d,
        None => {
            return Err(ParseError::InvalidScoreField);
        },
    };
    if score < 1 || score > 6 {
        return Err(ParseError::InvalidScoreField);
    }
    if s[p2 + 1] != '/' || s[p2 + 2] != '6' {
        return Err(ParseError::InvalidScoreField);
    }
    let hard = p2 + 3 < n && s[p2 + 3] == '*';
    let p4 = if hard {
        p2 + 4
    } else {
        p2 + 3
    };
    let w = run_length(&s, p4, CharClass::Space);
    if w == 0 {
        return Err(ParseError::InvalidScoreField);
    }
    let p5 = p4 + w;
    if p5 == n || !class_test(CharClass::Glyph, s[p5]) {
        return Err(ParseError::InvalidGrid(0));
    }
    match parse_rows(&s, p5, 0) {
        Ok(rows) => {
            let w = Wordle { score, day, hard, guesses: rows };
            proof {
                assert(crate::grammar::spec_parse(s@) == Ok::<
                    crate::grammar::SpecGame,
                    ParseError,
                >(w@));
            }
            Ok(w)
        },
        Err(i) => Err(ParseError::InvalidGrid(i)),
    }
}

/// An input in which the header token stands nowhere is answered with
/// `HeaderNotFound`, and one in which it stands somewhere never is: the
/// anchor stage alone decides that error.
pub proof fn lemma_parse_header_not_found(s: Seq<char>, r: Result<Wordle, ParseError>)
    requires
        result_matches(s, r),
    ensures
        (r matches Err(ParseError::HeaderNotFound)) <==> !crate::grammar::has_header(s),
{
    crate::grammar::lemma_header_not_found(s);
}

/// Parsing has no hidden state: any two results the parser's contract admits
/// for one and the same input are the same outcome, with equal content.
pub proof fn lemma_parse_deterministic(
    s: Seq<char>,
    r1: Result<Wordle, ParseError>,
    r2: Result<Wordle, ParseError>,
)
    requires
        result_matches(s, r1),
        result_matches(s, r2),
    ensures
        match (r1, r2) {
            (Ok(w1), Ok(w2)) => w1@ == w2@,
            (Err(e1), Err(e2)) => e1 == e2,
            _ => false,
        },
{
}

} // verus!
