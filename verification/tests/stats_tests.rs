use wordle_parser::metrics_update;
use wordle_parser::parse;
use wordle_parser::Metric;
use wordle_parser::GuessChar;

#[test]
fn update_copies_fields_and_finds_dark_theme() {
    let g = parse("Wordle 300 2/6*\n\n⬛⬛🟩⬛⬛\n🟩🟩🟩🟩🟩").unwrap();
    assert!(g.dark_mode());
    let u = metrics_update(&g);
    assert_eq!(u.day, 300);
    assert_eq!(u.score, 2);
    assert!(u.hard);
    assert!(u.dark);
}

#[test]
fn light_theme_first_row_is_not_dark() {
    let g = parse("Wordle 300 2/6\n\n⬜⬜🟩⬜⬜\n🟩🟩🟩🟩🟩").unwrap();
    assert!(!g.dark_mode());
    let u = metrics_update(&g);
    assert!(!u.hard);
    assert!(!u.dark);
}

#[test]
fn dark_square_after_first_row_is_not_the_signal() {
    let g = parse("Wordle 300 2/6\n\n⬜⬜🟩⬜⬜\n⬛⬛🟩⬛⬛").unwrap();
    assert_eq!(g.guesses[1][0], GuessChar::Black);
    assert!(!g.dark_mode());
    assert!(!metrics_update(&g).dark);
}

#[test]
fn metric_labels_hold_their_fields() {
    let m = Metric {
        name: String::from("wordle_stats_games"),
        game: String::from("300"),
        instance: String::from("localhost:2489"),
        job: String::from("wordle"),
    };
    assert_eq!(m.name, "wordle_stats_games");
    assert_eq!(m.game, "300");
    assert_eq!(m.instance, "localhost:2489");
    assert_eq!(m.job, "wordle");
}
