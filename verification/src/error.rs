//! What can go wrong when a lexicon is loaded or a game is played.

use vstd::prelude::*;

verus! {

/// The ways in which loading a lexicon, starting a game or taking a turn
/// fails.
#[derive(Debug, PartialEq, Eq)]
pub enum GameError {
    /// A line of the word list is empty or holds a character that is not a
    /// lowercase letter. `line` counts from zero.
    InvalidWord { word: String, line: usize },
    /// A line of the word list is longer than the longest word supported.
    /// `line` counts from zero.
    WordTooLong { word: String, line: usize },
    /// The secret word is not among the words of its length.
    WordNotInDictionary { word: String },
    /// A turn was asked for after every position had been revealed.
    AlreadySolved,
}

} // verus!
