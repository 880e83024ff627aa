use wordle_parser::parse;
use wordle_parser::render;
use wordle_parser::GuessChar;
use wordle_parser::Wordle;

fn sample_game() -> Wordle {
    Wordle {
        day: 258,
        score: 4,
        hard: true,
        guesses: vec![
            [
                GuessChar::White,
                GuessChar::White,
                GuessChar::Yellow,
                GuessChar::White,
                GuessChar::Yellow,
            ],
            [
                GuessChar::White,
                GuessChar::Yellow,
                GuessChar::White,
                GuessChar::Yellow,
                GuessChar::White,
            ],
            [
                GuessChar::Green,
                GuessChar::White,
                GuessChar::Green,
                GuessChar::White,
                GuessChar::White,
            ],
            [
                GuessChar::Green,
                GuessChar::Green,
                GuessChar::Green,
                GuessChar::Green,
                GuessChar::Green,
            ],
        ],
    }
}

#[test]
fn render_canonical_text() {
    let text = render(&sample_game());
    assert_eq!(
        text,
        "Wordle 258 4/6*\n\n⬜⬜🟨⬜🟨\n⬜🟨⬜🟨⬜\n🟩⬜🟩⬜⬜\n🟩🟩🟩🟩🟩"
    );
}

#[test]
fn render_without_hard_mode_star() {
    let g = Wordle { day: 7, score: 1, hard: false, guesses: vec![[GuessChar::Green; 5]] };
    assert_eq!(render(&g), "Wordle 7 1/6\n\n🟩🟩🟩🟩🟩");
}

#[test]
fn round_trip_sample_game() {
    let g = sample_game();
    assert_eq!(parse(&render(&g)), Ok(g));
}

#[test]
fn round_trip_extremes() {
    let g = Wordle {
        day: 65535,
        score: 6,
        hard: false,
        guesses: vec![
            [GuessChar::Black; 5],
            [GuessChar::White; 5],
            [GuessChar::Yellow; 5],
            [GuessChar::Green; 5],
            [GuessChar::Black; 5],
            [GuessChar::Green; 5],
        ],
    };
    assert_eq!(parse(&render(&g)), Ok(g));
}

#[test]
fn round_trip_day_zero() {
    let g = Wordle { day: 0, score: 2, hard: true, guesses: vec![[GuessChar::Yellow; 5]] };
    assert_eq!(parse(&render(&g)), Ok(g));
}

#[test]
fn parse_twice_same_ok_result() {
    let input = "Wordle 258 4/6*\n\n⬜⬜🟨⬜🟨\n⬜🟨⬜🟨⬜\n🟩⬜🟩⬜⬜\n🟩🟩🟩🟩🟩";
    assert_eq!(parse(input), parse(input));
}

#[test]
fn parse_twice_same_error() {
    let input = "Wordle 258 9/6\n\n🟩🟩🟩🟩🟩";
    assert_eq!(parse(input), parse(input));
}
