//! A terminal word-guessing game: the rules that score a guess against the
//! secret word, the game state machine, and the dictionary the words come from.

pub mod gamestate;
pub mod scoring;
pub mod words;
