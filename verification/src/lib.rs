//! A hangman solver: a lexicon of lowercase words grouped by length, the set
//! of words still consistent with what a game has revealed, a greedy choice of
//! the next letter, and the turn-by-turn state of one game.

pub mod candidates;
pub mod error;
pub mod game;
pub mod letters;
pub mod lexicon;
pub mod scorer;
pub mod seqs;
pub mod turn;
