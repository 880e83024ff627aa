//! The canonical textual form of a result, and the round-trip laws.
//!
//! [`render`] writes a result back as the canonical share text: the header
//! token, the day, the score with an optional hard-mode star, a blank line,
//! and the glyph grid. Rendering any well-formed result and parsing it back
//! yields the result again ([`lemma_render_parse_round_trip`]); rendering a
//! malformed grid is rejected by the grid stage
//! ([`lemma_malformed_grid_rejected`]).

use crate::game::GuessChar;
use crate::game::GuessLine;
use crate::grammar::SpecGame;
use crate::grammar::digit_val;
use crate::grammar::glyph_char;
use crate::grammar::is_digit;
use crate::grammar::value_of;
use vstd::arithmetic::div_mod::lemma_fundamental_div_mod;
use vstd::prelude::*;

verus! {

/// The character of one decimal digit.
pub open spec fn digit_char(d: int) -> char {
    if d == 0 {
        '0'
    } else if d == 1 {
        '1'
    } else if d == 2 {
        '2'
    } else if d == 3 {
        '3'
    } else if d == 4 {
        '4'
    } else if d == 5 {
        '5'
    } else if d == 6 {
        '6'
    } else if d == 7 {
        '7'
    } else if d == 8 {
        '8'
    } else {
        '9'
    }
}

/// The decimal digits of `n`, most significant first, without leading zeros.
pub open spec fn digits_of(n: int) -> Seq<char>
    recommends
        n >= 0,
    decreases n,
{
    if n < 10 {
        seq![digit_char(n)]
    } else {
        digits_of(n / 10).push(digit_char(n % 10))
    }
}

/// Every character of [`digits_of`] is a digit, and there is at least one.
pub proof fn lemma_digits_of_digits(n: int)
    requires
        n >= 0,
    ensures
        digits_of(n).len() >= 1,
        forall|j: int| 0 <= j < digits_of(n).len() ==> is_digit(#[trigger] digits_of(n)[j]),
    decreases n,
{
    if n >= 10 {
        lemma_digits_of_digits(n / 10);
    }
}

/// [`digit_char`] and [`digit_val`] are inverse on single digits.
pub proof fn lemma_digit_char_val(d: int)
    requires
        0 <= d <= 9,
    ensures
        digit_val(digit_char(d)) == d,
{
}

/// Reading the digits of `n` back as a number yields `n`.
pub proof fn lemma_value_of_digits_of(n: int)
    requires
        n >= 0,
    ensures
        value_of(digits_of(n)) == n,
    decreases n,
{
    if n < 10 {
        lemma_digit_char_val(n);
        assert(seq![digit_char(n)].drop_last() =~= Seq::<char>::empty());
        assert(value_of(Seq::<char>::empty()) == 0);
        assert(seq![digit_char(n)].last() == digit_char(n));
    } else {
        lemma_value_of_digits_of(n / 10);
        crate::grammar::lemma_value_of_push(digits_of(n / 10), digit_char(n % 10));
        lemma_fundamental_div_mod(n, 10);
        lemma_digit_char_val(n % 10);
    }
}

/// One row as text: its five glyphs.
pub open spec fn render_row(row: Seq<GuessChar>) -> Seq<char> {
    Seq::new(row.len(), |j: int| glyph_char(row[j]))
}

/// The grid as text: the rows' glyphs, rows separated by single line feeds.
pub open spec fn render_rows(rows: Seq<Seq<GuessChar>>) -> Seq<char>
    decreases rows.len(),
{
    if rows.len() == 0 {
        Seq::empty()
    } else if rows.len() == 1 {
        render_row(rows[0])
    } else {
        render_row(rows[0]) + seq!['\n'] + render_rows(rows.drop_first())
    }
}

/// The canonical share text of a result.
pub open spec fn spec_render(g: SpecGame) -> Seq<char> {
    seq!['W', 'o', 'r', 'd', 'l', 'e', ' '] + digits_of(g.day as int) + seq![' '] + seq![
        digit_char(g.score as int),
        '/',
        '6',
    ] + (if g.hard {
        seq!['*']
    } else {
        Seq::<char>::empty()
    }) + seq!['\n', '\n'] + render_rows(g.rows)
}

/// Facts about a rendered glyph: it maps back to its mark and belongs to no
/// other character class the grammar measures.
pub proof fn lemma_mark_glyph(m: GuessChar)
    ensures
        crate::grammar::mark_of(glyph_char(m)) == m,
        crate::grammar::is_glyph(glyph_char(m)),
        !crate::grammar::is_space(glyph_char(m)),
        !is_digit(glyph_char(m)),
        glyph_char(m) != '\n',
        glyph_char(m) != '*',
{
}

/// The grid stage accepts a rendered well-formed grid that reaches the
/// input's end, and reads back exactly its rows.
pub proof fn lemma_rows_round_trip(s: Seq<char>, q: nat, r: nat, rows: Seq<Seq<GuessChar>>)
    requires
        1 <= rows.len(),
        r + rows.len() <= 6,
        forall|i: int| 0 <= i < rows.len() ==> (#[trigger] rows[i]).len() == 5,
        q + render_rows(rows).len() == s.len(),
        forall|j: int| q <= j < s.len() ==> s[j] == render_rows(rows)[j - q],
    ensures
        crate::grammar::spec_rows(s, q, r) == Ok::<Seq<Seq<GuessChar>>, nat>(rows),
    decreases rows.len(),
{
    let kg = crate::grammar::CharClass::Glyph;
    let kn = crate::grammar::CharClass::NotNewline;
    let rr = render_rows(rows);
    assert(render_row(rows[0]).len() == 5);
    assert forall|j: int| q <= j < q + 5 implies crate::grammar::is_glyph(s[j]) by {
        assert(rr[j - q] == glyph_char(rows[0][j - q]));
        lemma_mark_glyph(rows[0][j - q]);
    }
    let row = Seq::new(5, |t: int| crate::grammar::mark_of(s[q + t]));
    assert forall|t: int| 0 <= t < 5 implies row[t] == rows[0][t] by {
        assert(s[q + t] == rr[t]);
        assert(rr[t] == glyph_char(rows[0][t]));
        lemma_mark_glyph(rows[0][t]);
    }
    assert(row =~= rows[0]);
    if rows.len() == 1 {
        assert(rr =~= render_row(rows[0]));
        assert(q + 5 == s.len());
        crate::grammar::lemma_run_len_exact(s, q, 5, kg);
        assert(crate::grammar::run_len(s, q + 5, kn) == 0);
        assert(seq![row] =~= rows);
    } else {
        let rest = rows.drop_first();
        let rrest = render_rows(rest);
        assert(rr =~= render_row(rows[0]) + seq!['\n'] + rrest);
        assert(rr[5] == '\n');
        assert(s[(q + 5) as int] == '\n');
        crate::grammar::lemma_run_len_exact(s, q, 5, kg);
        assert(crate::grammar::run_len(s, q + 5, kn) == 0);
        assert forall|i: int| 0 <= i < rest.len() implies (#[trigger] rest[i]).len() == 5 by {
            assert(rest[i] == rows[i + 1]);
        }
        assert(rrest.len() >= 1) by {
            if rest.len() == 1 {
                assert(rrest == render_row(rest[0]));
            }
        }
        assert(s[(q + 6) as int] == rr[6]);
        assert(rr[6] == rrest[0]);
        assert(rrest[0] == glyph_char(rest[0][0])) by {
            if rest.len() == 1 {
                assert(rrest == render_row(rest[0]));
            }
        }
        lemma_mark_glyph(rest[0][0]);
        assert forall|j: int| q + 6 <= j < s.len() implies s[j] == rrest[j - (q + 6)] by {
            assert(s[j] == rr[j - q]);
        }
        lemma_rows_round_trip(s, q + 6, r + 1, rest);
        assert(seq![row] + rest =~= rows);
    }
}

/// The grid stage rejects a rendered grid that has no rows of five marks
/// throughout, or more rows than the six attempts a puzzle allows.
pub proof fn lemma_rows_malformed(s: Seq<char>, q: nat, r: nat, rows: Seq<Seq<GuessChar>>)
    requires
        1 <= rows.len(),
        r <= 6,
        forall|i: int| 0 <= i < rows.len() ==> (#[trigger] rows[i]).len() >= 1,
        r + rows.len() > 6 || exists|i: int|
            0 <= i < rows.len() && (#[trigger] rows[i]).len() != 5,
        q + render_rows(rows).len() == s.len(),
        forall|j: int| q <= j < s.len() ==> s[j] == render_rows(rows)[j - q],
    ensures
        crate::grammar::spec_rows(s, q, r) is Err,
    decreases rows.len(),
{
    let kg = crate::grammar::CharClass::Glyph;
    let kn = crate::grammar::CharClass::NotNewline;
    let rr = render_rows(rows);
    if r >= 6 {
        return ;
    }
    let m = rows[0].len();
    assert(render_row(rows[0]).len() == m);
    assert forall|j: int| q <= j < q + m implies crate::grammar::is_glyph(s[j]) by {
        assert(rr[j - q] == glyph_char(rows[0][j - q]));
        lemma_mark_glyph(rows[0][j - q]);
    }
    if rows.len() == 1 {
        assert(rr =~= render_row(rows[0]));
        assert(q + m == s.len());
        crate::grammar::lemma_run_len_exact(s, q, m, kg);
        assert(m != 5);
    } else {
        let rest = rows.drop_first();
        let rrest = render_rows(rest);
        assert(rr =~= render_row(rows[0]) + seq!['\n'] + rrest);
        assert(rr[m as int] == '\n');
        assert(s[(q + m) as int] == '\n');
        crate::grammar::lemma_run_len_exact(s, q, m, kg);
        if m != 5 {
            return ;
        }
        assert(crate::grammar::run_len(s, q + 5, kn) == 0);
        assert forall|i: int| 0 <= i < rest.len() implies (#[trigger] rest[i]).len() >= 1 by {
            assert(rest[i] == rows[i + 1]);
        }
        assert(r + 1 + rest.len() > 6 || exists|i: int|
            0 <= i < rest.len() && (#[trigger] rest[i]).len() != 5) by {
            if !(r + rows.len() > 6) {
                let i = choose|i: int| 0 <= i < rows.len() && (#[trigger] rows[i]).len() != 5;
                assert(i >= 1);
                assert(rest[i - 1] == rows[i]);
                assert(0 <= i - 1 < rest.len() && rest[i - 1].len() != 5);
            }
        }
        assert(rrest.len() >= 1) by {
            if rest.len() == 1 {
                assert(rrest == render_row(rest[0]));
            }
        }
        assert(s[(q + 6) as int] == rr[6]);
        assert(rr[6] == rrest[0]);
        assert(rrest[0] == glyph_char(rest[0][0])) by {
            if rest.len() == 1 {
                assert(rrest == render_row(rest[0]));
            }
        }
        lemma_mark_glyph(rest[0][0]);
        assert forall|j: int| q + 6 <= j < s.len() implies s[j] == rrest[j - (q + 6)] by {
            assert(s[j] == rr[j - q]);
        }
        lemma_rows_malformed(s, q + 6, r + 1, rest);
    }
}

/// Where the grid begins inside the canonical text of `g`.
pub open spec fn grid_pos(g: SpecGame) -> int {
    13 + digits_of(g.day as int).len() + if g.hard {
        1int
    } else {
        0int
    }
}

/// Evaluates the header, day and score stages on the canonical text: they
/// always succeed and leave the parse exactly at the grid stage.
#[verifier::rlimit(60)]
pub proof fn lemma_spec_render_prefix(g: SpecGame)
    requires
        1 <= g.score <= 6,
        forall|i: int| 0 <= i < g.rows.len() ==> (#[trigger] g.rows[i]).len() >= 1,
    ensures
        spec_render(g).len() == grid_pos(g) + render_rows(g.rows).len(),
        forall|j: int|
            grid_pos(g) <= j < spec_render(g).len() ==> spec_render(g)[j] == render_rows(
                g.rows,
            )[j - grid_pos(g)],
        g.rows.len() == 0 ==> crate::grammar::spec_parse(spec_render(g)) == Err::<
            SpecGame,
            crate::game::ParseError,
        >(crate::game::ParseError::InvalidGrid(0)),
        g.rows.len() >= 1 ==> match crate::grammar::spec_rows(
            spec_render(g),
            grid_pos(g) as nat,
            0,
        ) {
            Ok(rows2) => crate::grammar::spec_parse(spec_render(g)) == Ok::<
                SpecGame,
                crate::game::ParseError,
            >(SpecGame { day: g.day, score: g.score, hard: g.hard, rows: rows2 }),
            Err(r) => crate::grammar::spec_parse(spec_render(g)) == Err::<
                SpecGame,
                crate::game::ParseError,
            >(crate::game::ParseError::InvalidGrid(r as usize)),
        },
{
    let kd = crate::grammar::CharClass::Digit;
    let ks = crate::grammar::CharClass::Space;
    let t = spec_render(g);
    let nd = g.day as int;
    let ds = digits_of(nd);
    let dl = ds.len() as int;
    lemma_digits_of_digits(nd);
    lemma_value_of_digits_of(nd);
    let st: int = if g.hard {
        1
    } else {
        0
    };
    let rr = render_rows(g.rows);
    let rl = rr.len() as int;
    assert(t.len() == 13 + dl + st + rl);
    let gp = grid_pos(g);
    assert(gp == 13 + dl + st);

    // the header token stands at the very start
    assert(t[0] == 'W');
    assert(t[1] == 'o');
    assert(t[2] == 'r');
    assert(t[3] == 'd');
    assert(t[4] == 'l');
    assert(t[5] == 'e');
    assert(t[6] == ' ');
    assert(crate::grammar::header_at(t, 0));
    assert(crate::grammar::first_header_index(t, 0) == Some(0nat));

    // the day digits, bounded by the single space
    assert forall|j: int| 7 <= j < 7 + dl implies t[j] == ds[j - 7] by {}
    assert forall|j: int| 7 <= j < 7 + dl implies crate::grammar::in_class(kd, t[j]) by {
        assert(t[j] == ds[j - 7]);
        assert(is_digit(ds[j - 7]));
    }
    assert(t[7 + dl] == ' ');
    crate::grammar::lemma_run_len_exact(t, 7nat, dl as nat, kd);
    assert(t.subrange(7, 7 + dl) =~= ds);
    assert(value_of(t.subrange(7, 7 + dl)) == nd);

    // the score field and the hard-mode marker
    let p2 = 8 + dl;
    assert(t[p2] == digit_char(g.score as int));
    lemma_digit_char_val(g.score as int);
    assert(t[p2 + 1] == '/');
    assert(t[p2 + 2] == '6');
    if g.hard {
        assert(t[p2 + 3] == '*');
    } else {
        assert(t[p2 + 3] == '\n');
    }

    // the blank line, bounded by the grid's first glyph or the text's end
    let p4 = p2 + 3 + st;
    assert(t[p4] == '\n');
    assert(t[p4 + 1] == '\n');
    assert forall|j: int| gp <= j < t.len() implies t[j] == rr[j - gp] by {}
    if g.rows.len() == 0 {
        assert(rl == 0);
        assert(p4 + 2 == t.len());
        crate::grammar::lemma_run_len_exact(t, p4 as nat, 2nat, ks);
    } else {
        assert(rr[0] == glyph_char(g.rows[0][0])) by {
            if g.rows.len() == 1 {
                assert(rr == render_row(g.rows[0]));
            }
        }
        lemma_mark_glyph(g.rows[0][0]);
        assert(t[p4 + 2] == rr[0]);
        crate::grammar::lemma_run_len_exact(t, p4 as nat, 2nat, ks);
        assert(crate::grammar::is_glyph(t[gp]));
    }
}

/// Round trip: parsing the canonical text of any well-formed result yields
/// exactly that result.
pub proof fn lemma_render_parse_round_trip(g: SpecGame)
    requires
        g.wf(),
    ensures
        crate::grammar::spec_parse(spec_render(g)) == Ok::<SpecGame, crate::game::ParseError>(g),
{
    lemma_spec_render_prefix(g);
    lemma_rows_round_trip(spec_render(g), grid_pos(g) as nat, 0, g.rows);
    assert(SpecGame { day: g.day, score: g.score, hard: g.hard, rows: g.rows } == g);
}

/// A grid with no rows, with more than six rows, or with any row of other
/// than five marks is rejected: parsing its canonical text fails with the
/// grid error, whatever the header says.
pub proof fn lemma_malformed_grid_rejected(g: SpecGame)
    requires
        1 <= g.score <= 6,
        forall|i: int| 0 <= i < g.rows.len() ==> (#[trigger] g.rows[i]).len() >= 1,
        g.rows.len() == 0 || g.rows.len() > 6 || exists|i: int|
            0 <= i < g.rows.len() && (#[trigger] g.rows[i]).len() != 5,
    ensures
        crate::grammar::spec_parse(spec_render(g)) matches Err(
            crate::game::ParseError::InvalidGrid(_),
        ),
{
    lemma_spec_render_prefix(g);
    if g.rows.len() > 0 {
        lemma_rows_malformed(spec_render(g), grid_pos(g) as nat, 0, g.rows);
    }
}

/// The text of one decimal digit.
fn digit_str(d: u8) -> (r: &'static str)
    requires
        d <= 9,
    ensures
        r@ == seq![digit_char(d as int)],
{
    if d == 0 {
        proof {
            reveal_strlit("0");
            assert("0"@ =~= seq![digit_char(0)]);
        }
        "0"
    } else if d == 1 {
        proof {
            reveal_strlit("1");
            assert("1"@ =~= seq![digit_char(1)]);
        }
        "1"
    } else if d == 2 {
        proof {
            reveal_strlit("2");
            assert("2"@ =~= seq![digit_char(2)]);
        }
        "2"
    } else if d == 3 {
        proof {
            reveal_strlit("3");
            assert("3"@ =~= seq![digit_char(3)]);
        }
        "3"
    } else if d == 4 {
        proof {
            reveal_strlit("4");
            assert("4"@ =~= seq![digit_char(4)]);
        }
        "4"
    } else if d == 5 {
        proof {
            reveal_strlit("5");
            assert("5"@ =~= seq![digit_char(5)]);
        }
        "5"
    } else if d == 6 {
        proof {
            reveal_strlit("6");
            assert("6"@ =~= seq![digit_char(6)]);
        }
        "6"
    } else if d == 7 {
        proof {
            reveal_strlit("7");
            assert("7"@ =~= seq![digit_char(7)]);
        }
        "7"
    } else if d == 8 {
        proof {
            reveal_strlit("8");
            assert("8"@ =~= seq![digit_char(8)]);
        }
        "8"
    } else {
        proof {
            reveal_strlit("9");
            assert("9"@ =~= seq![digit_char(9)]);
        }
        "9"
    }
}

/// The text of one mark: its glyph.
fn glyph_str(m: GuessChar) -> (r: &'static str)
    ensures
        r@ == seq![glyph_char(m)],
{
    match m {
        GuessChar::Green => {
            proof {
                reveal_strlit("\u{1f7e9}");
                assert("\u{1f7e9}"@ =~= seq![glyph_char(GuessChar::Green)]);
            }
            "\u{1f7e9}"
        },
        GuessChar::Yellow => {
            proof {
                reveal_strlit("\u{1f7e8}");
                assert("\u{1f7e8}"@ =~= seq![glyph_char(GuessChar::Yellow)]);
            }
            "\u{1f7e8}"
        },
        GuessChar::White => {
            proof {
                reveal_strlit("\u{2b1c}");
                assert("\u{2b1c}"@ =~= seq![glyph_char(GuessChar::White)]);
            }
            "\u{2b1c}"
        },
        GuessChar::Black => {
            proof {
                reveal_strlit("\u{2b1b}");
                assert("\u{2b1b}"@ =~= seq![glyph_char(GuessChar::Black)]);
            }
            "\u{2b1b}"
        },
    }
}

/// Writes the decimal digits of `n`, most significant first.
fn push_digits(out: &mut String, n: u16)
    ensures
        final(out)@ == old(out)@ + digits_of(n as int),
    decreases n,
{
    if n < 10 {
        out.append(digit_str(n as u8));
    } else {
        push_digits(out, n / 10);
        out.append(digit_str((n % 10) as u8));
        proof {
            assert(old(out)@ + digits_of((n / 10) as int) + seq![digit_char((n % 10) as int)]
                =~= old(out)@ + digits_of(n as int));
        }
    }
}

/// Writes one row: its five glyphs.
fn append_row(out: &mut String, row: &GuessLine)
    ensures
        final(out)@ == old(out)@ + render_row(row@),
{
    let mut j: usize = 0;
    while j < 5
        invariant
            j <= 5,
            out@ == old(out)@ + render_row(row@).take(j as int),
        decreases 5 - j,
    {
        out.append(glyph_str(row[j]));
        proof {
            assert(render_row(row@).take(j + 1) =~= render_row(row@).take(j as int).push(
                glyph_char(row@[j as int]),
            ));
            assert(out@ =~= old(out)@ + render_row(row@).take(j + 1));
        }
        j = j + 1;
    }
    proof {
        assert(render_row(row@).take(5) =~= render_row(row@));
    }
}

/// Rows one to the last, each appended behind a line-feed separator (none
/// before the first): that is exactly the grid's canonical text grown row by
/// row.
pub proof fn lemma_render_rows_snoc(rows: Seq<Seq<GuessChar>>, row: Seq<GuessChar>)
    ensures
        render_rows(rows.push(row)) == if rows.len() == 0 {
            render_row(row)
        } else {
            render_rows(rows) + seq!['\n'] + render_row(row)
        },
    decreases rows.len(),
{
    let p = rows.push(row);
    if rows.len() == 0 {
        assert(p[0] == row);
    } else if rows.len() == 1 {
        assert(p[0] == rows[0]);
        assert(p.drop_first() =~= seq![row]);
        assert(render_rows(seq![row]) == render_row(row));
    } else {
        assert(p[0] == rows[0]);
        assert(p.drop_first() =~= rows.drop_first().push(row));
        lemma_render_rows_snoc(rows.drop_first(), row);
        assert(render_row(rows[0]) + seq!['\n'] + (render_rows(rows.drop_first()) + seq!['\n']
            + render_row(row)) =~= (render_row(rows[0]) + seq!['\n'] + render_rows(
            rows.drop_first(),
        )) + seq!['\n'] + render_row(row));
    }
}

/// Writes a result back as its canonical share text. Parsing that text
/// yields the result again: see [`lemma_render_parse_round_trip`].
pub fn render(w: &crate::game::Wordle) -> (out: String)
    requires
        w.wf(),
    ensures
        out@ == spec_render(w@),
{
    let ghost pre = seq!['W', 'o', 'r', 'd', 'l', 'e', ' '] + digits_of(w.day as int) + seq![
        ' ',
    ] + seq![digit_char(w.score as int), '/', '6'] + (if w.hard {
        seq!['*']
    } else {
        Seq::<char>::empty()
    }) + seq!['\n', '\n'];
    let mut out = String::new();
    out.append("Wordle ");
    push_digits(&mut out, w.day);
    out.append(" ");
    out.append(digit_str(w.score));
    out.append("/6");
    if w.hard {
        out.append("*");
    }
    out.append("\n\n");
    proof {
        reveal_strlit("Wordle ");
        reveal_strlit(" ");
        reveal_strlit("/6");
        reveal_strlit("*");
        reveal_strlit("\n\n");
        assert(out@ =~= pre);
    }
    let ghost rows = crate::game::grid_view(w.guesses@);
    let ghost base = out@;
    let mut i: usize = 0;
    while i < w.guesses.len()
        invariant
            i <= w.guesses@.len(),
            rows == crate::game::grid_view(w.guesses@),
            out@ == base + render_rows(rows.take(i as int)),
        decreases w.guesses@.len() - i,
    {
        if i > 0 {
            out.append("\n");
            proof {
                reveal_strlit("\n");
            }
        }
        append_row(&mut out, &w.guesses[i]);
        proof {
            lemma_render_rows_snoc(rows.take(i as int), rows[i as int]);
            assert(rows.take(i + 1) =~= rows.take(i as int).push(rows[i as int]));
            assert(render_row(w.guesses@[i as int]@) == render_row(rows[i as int]));
            if i > 0 {
                assert(out@ =~= base + render_rows(rows.take(i + 1)));
            } else {
                assert(render_rows(rows.take(0int)) =~= Seq::<char>::empty());
                assert(out@ =~= base + render_rows(rows.take(1int)));
            }
        }
        i = i + 1;
    }
    proof {
        assert(rows.take(w.guesses@.len() as int) =~= rows);
        assert(out@ == pre + render_rows(rows));
    }
    out
}

} // verus!
