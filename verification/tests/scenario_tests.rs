use wordle_parser::parse;
use wordle_parser::GuessChar;
use wordle_parser::ParseError;
use wordle_parser::Wordle;

fn expected_game() -> Wordle {
    Wordle {
        day: 258,
        score: 4,
        hard: true,
        guesses: vec![
            [
                GuessChar::White,
                GuessChar::White,
                GuessChar::Yellow,
                GuessChar::White,
                GuessChar::Yellow,
            ],
            [
                GuessChar::White,
                GuessChar::Yellow,
                GuessChar::White,
                GuessChar::Yellow,
                GuessChar::White,
            ],
            [
                GuessChar::Green,
                GuessChar::White,
                GuessChar::Green,
                GuessChar::White,
                GuessChar::White,
            ],
            [
                GuessChar::Green,
                GuessChar::Green,
                GuessChar::Green,
                GuessChar::Green,
                GuessChar::Green,
            ],
        ],
    }
}

#[test]
fn scenario_plain_header_and_grid() {
    let r = parse("Wordle 258 4/6*\n\n⬜⬜🟨⬜🟨\n⬜🟨⬜🟨⬜\n🟩⬜🟩⬜⬜\n🟩🟩🟩🟩🟩");
    assert_eq!(r, Ok(expected_game()));
}

#[test]
fn scenario_leading_commentary_ignored() {
    let r = parse("Wow this was hard!\nWordle 258 4/6*\n\n⬜⬜🟨⬜🟨\n⬜🟨⬜🟨⬜\n🟩⬜🟩⬜⬜\n🟩🟩🟩🟩🟩");
    assert_eq!(r, Ok(expected_game()));
}

#[test]
fn scenario_spoiler_markup_ignored() {
    let r = parse("Wordle 258 4/6*\n\n⬜⬜🟨⬜🟨 ||spoiler||\n⬜🟨⬜🟨⬜ ||spoiler||\n🟩⬜🟩⬜⬜ ||spoiler||\n🟩🟩🟩🟩🟩 ||spoiler||");
    assert_eq!(r, Ok(expected_game()));
}

#[test]
fn scenario_score_seven_rejected() {
    let r = parse("Wordle 258 7/6\n\n⬜⬜🟨⬜🟨\n⬜🟨⬜🟨⬜\n🟩⬜🟩⬜⬜\n🟩🟩🟩🟩🟩");
    assert_eq!(r, Err(ParseError::InvalidScoreField));
}

#[test]
fn scenario_short_row_rejected_with_index() {
    // three rows, the second of which has only four glyphs
    let r = parse("Wordle 258 3/6\n\n⬜⬜🟨⬜🟨\n⬜🟨⬜🟨\n🟩🟩🟩🟩🟩");
    assert_eq!(r, Err(ParseError::InvalidGrid(1)));
}

#[test]
fn scenario_no_header_token() {
    let r = parse("played wordle today, went great");
    assert_eq!(r, Err(ParseError::HeaderNotFound));
}
