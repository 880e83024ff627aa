//! A verified parser for shared word-puzzle results.
//!
//! The library extracts a structured record (day number, score out of six,
//! hard-mode flag, and the per-guess colour grid) from free-form post text.
//! The grammar is stated as spec functions over `Seq<char>` in [`grammar`],
//! and the executable parser in [`parsing`] is proved to return exactly what
//! that grammar dictates, for every input.

pub mod game;
pub mod grammar;
pub mod parsing;
pub mod render;
pub mod stats;

pub use game::GuessChar;
pub use game::GuessLine;
pub use game::Guesses;
pub use game::ParseError;
pub use game::Wordle;
pub use parsing::parse;
pub use render::render;
pub use stats::Metric;
pub use stats::MetricsUpdate;
pub use stats::metrics_update;
