use wordle_parser::parse;
use wordle_parser::GuessChar;
use wordle_parser::ParseError;

#[test]
fn empty_input_has_no_header() {
    assert_eq!(parse(""), Err(ParseError::HeaderNotFound));
}

#[test]
fn lowercase_token_is_no_header() {
    assert_eq!(parse("wordle 258 4/6\n\n🟩🟩🟩🟩🟩"), Err(ParseError::HeaderNotFound));
}

#[test]
fn missing_day_digits() {
    assert_eq!(parse("Wordle x 4/6\n\n🟩🟩🟩🟩🟩"), Err(ParseError::InvalidDay));
}

#[test]
fn day_without_trailing_space() {
    assert_eq!(parse("Wordle 258"), Err(ParseError::InvalidDay));
}

#[test]
fn day_too_large_for_u16() {
    assert_eq!(parse("Wordle 65536 4/6\n\n🟩🟩🟩🟩🟩"), Err(ParseError::InvalidDay));
}

#[test]
fn day_at_u16_limit_parses() {
    let r = parse("Wordle 65535 1/6\n\n🟩🟩🟩🟩🟩").unwrap();
    assert_eq!(r.day, 65535);
    assert_eq!(r.score, 1);
    assert!(!r.hard);
}

#[test]
fn day_zero_parses() {
    let r = parse("Wordle 0 6/6\n\n🟩🟩🟩🟩🟩").unwrap();
    assert_eq!(r.day, 0);
    assert_eq!(r.score, 6);
}

#[test]
fn double_space_after_day() {
    assert_eq!(parse("Wordle 258  4/6\n\n🟩🟩🟩🟩🟩"), Err(ParseError::InvalidScoreField));
}

#[test]
fn score_zero_rejected() {
    assert_eq!(parse("Wordle 258 0/6\n\n🟩🟩🟩🟩🟩"), Err(ParseError::InvalidScoreField));
}

#[test]
fn score_out_of_six_required() {
    assert_eq!(parse("Wordle 258 4/5\n\n🟩🟩🟩🟩🟩"), Err(ParseError::InvalidScoreField));
}

#[test]
fn missing_blank_line_before_grid() {
    assert_eq!(parse("Wordle 258 4/6"), Err(ParseError::InvalidScoreField));
}

#[test]
fn second_star_rejected() {
    assert_eq!(parse("Wordle 258 4/6**\n\n🟩🟩🟩🟩🟩"), Err(ParseError::InvalidScoreField));
}

#[test]
fn empty_grid_rejected() {
    assert_eq!(parse("Wordle 258 4/6\n\n"), Err(ParseError::InvalidGrid(0)));
}

#[test]
fn six_rows_accepted() {
    let r = parse("Wordle 258 6/6\n\n🟩🟩🟩🟩🟩\n🟩🟩🟩🟩🟩\n🟩🟩🟩🟩🟩\n🟩🟩🟩🟩🟩\n🟩🟩🟩🟩🟩\n🟩🟩🟩🟩🟩").unwrap();
    assert_eq!(r.guesses.len(), 6);
}

#[test]
fn seven_rows_rejected() {
    let r = parse("Wordle 258 6/6\n\n🟩🟩🟩🟩🟩\n🟩🟩🟩🟩🟩\n🟩🟩🟩🟩🟩\n🟩🟩🟩🟩🟩\n🟩🟩🟩🟩🟩\n🟩🟩🟩🟩🟩\n🟩🟩🟩🟩🟩");
    assert_eq!(r, Err(ParseError::InvalidGrid(6)));
}

#[test]
fn six_glyph_row_rejected() {
    assert_eq!(parse("Wordle 258 4/6\n\n🟩🟩🟩🟩🟩🟩"), Err(ParseError::InvalidGrid(0)));
}

#[test]
fn glyph_in_row_remainder_rejected() {
    assert_eq!(parse("Wordle 258 4/6\n\n🟩🟩🟩🟩🟩 x🟨"), Err(ParseError::InvalidGrid(0)));
}

#[test]
fn carriage_return_line_endings_tolerated() {
    let r = parse("Wordle 258 2/6\r\n\r\n🟨🟨⬜⬜⬜\r\n🟩🟩🟩🟩🟩").unwrap();
    assert_eq!(r.day, 258);
    assert_eq!(r.guesses.len(), 2);
    assert_eq!(r.guesses[1], [GuessChar::Green; 5]);
}

#[test]
fn text_after_grid_ignored() {
    let r = parse("Wordle 258 3/6\n\n🟩🟩🟩🟩🟩\nGreat job everyone!").unwrap();
    assert_eq!(r.guesses.len(), 1);
}

#[test]
fn no_backtracking_past_first_token() {
    // the first header token anchors the parse; a later one is not retried
    assert_eq!(parse("Wordle Wordle 258 4/6\n\n🟩🟩🟩🟩🟩"), Err(ParseError::InvalidDay));
}

#[test]
fn dark_theme_glyphs_parse_as_black() {
    let r = parse("Wordle 258 1/6\n\n⬛⬛🟩⬛⬛").unwrap();
    assert_eq!(
        r.guesses[0],
        [
            GuessChar::Black,
            GuessChar::Black,
            GuessChar::Green,
            GuessChar::Black,
            GuessChar::Black,
        ]
    );
}
