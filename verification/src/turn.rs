//! One running game: its state in memory and the turn that advances it.

use crate::candidates::{has_hit, hit_positions, CandidateSet};
use crate::error::GameError;
use crate::game::{lemma_hit_iff_contains, uncover, GameState};
use crate::letters::{all_letters, lemma_remove_is_without, lemma_without};
use crate::lexicon::{parse_word, DictionaryData};
use crate::scorer::best_char;
use vstd::prelude::*;

verus! {

/// The character that stands for an unknown position in a rendered clue.
pub const UNKNOWN_MARK: char = '?';

/// What one turn did.
pub struct TurnOutcome {
    /// The letter that was guessed.
    pub letter: char,
    /// Whether the secret holds it.
    pub hit: bool,
    /// The clue pattern after the turn.
    pub clues: Vec<Option<char>>,
}

/// Copies a clue pattern.
pub fn copy_clues(clues: &Vec<Option<char>>) -> (r: Vec<Option<char>>)
    ensures
        r@ == clues@,
{
    let mut r: Vec<Option<char>> = Vec::new();
    let mut i: usize = 0;
    while i < clues.len()
        invariant
            i <= clues@.len(),
            r@ == clues@.take(i as int),
        decreases clues@.len() - i,
    {
        r.push(clues[i]);
        assert(r@ =~= clues@.take(i + 1));
        i += 1;
    }
    assert(r@ =~= clues@);
    r
}

/// A clue pattern as text: the letter where it is known, a question mark
/// where it is not.
pub open spec fn clue_text(clues: Seq<Option<char>>) -> Seq<char> {
    Seq::new(
        clues.len(),
        |i: int|
            match clues[i] {
                Some(c) => c,
                None => UNKNOWN_MARK,
            },
    )
}

/// Renders a clue pattern, one character per position.
pub fn render_clues(clues: &Vec<Option<char>>) -> (r: Vec<char>)
    ensures
        r@ == clue_text(clues@),
{
    let mut r: Vec<char> = Vec::new();
    let mut i: usize = 0;
    while i < clues.len()
        invariant
            i <= clues@.len(),
            r@.len() == i,
            forall|j: int| 0 <= j < i ==> r@[j] == clue_text(clues@)[j],
        decreases clues@.len() - i,
    {
        match clues[i] {
            Some(c) => r.push(c),
            None => r.push(UNKNOWN_MARK),
        }
        i += 1;
    }
    assert(r@ =~= clue_text(clues@));
    r
}

/// The position of `letter` in `letters`, which hold it.
pub fn position_of(letters: &Vec<char>, letter: char) -> (r: usize)
    requires
        letters@.contains(letter),
    ensures
        r < letters@.len(),
        letters@[r as int] == letter,
        forall|j: int| 0 <= j < r ==> letters@[j] != letter,
{
    let len = letters.len();
    let mut at: usize = 0;
    while letters[at] != letter
        invariant
            letters@.contains(letter),
            len == letters@.len(),
            at < len,
            forall|j: int| 0 <= j < at ==> letters@[j] != letter,
        decreases letters@.len() - at,
    {
        proof {
            let k = choose|k: int| 0 <= k < letters@.len() && letters@[k] == letter;
            assert(k > at);
        }
        at += 1;
    }
    at
}

/// Makes `letter` known at every position where `word` holds it, and tells
/// for each position whether that is so.
pub fn reveal_hits(word: &Vec<char>, clues: &mut Vec<Option<char>>, letter: char) -> (r: Vec<bool>)
    requires
        old(clues)@.len() == word@.len(),
    ensures
        final(clues)@ == uncover(old(clues)@, word@, letter),
        r@ == hit_positions(word@, letter),
{
    let ghost before = clues@;
    let mut new_info: Vec<bool> = Vec::new();
    let mut i: usize = 0;
    while i < word.len()
        invariant
            before.len() == word@.len(),
            clues@.len() == word@.len(),
            i <= word@.len(),
            new_info@.len() == i,
            forall|j: int| 0 <= j < i ==> new_info@[j] == (word@[j] == letter),
            forall|j: int| 0 <= j < i ==> clues@[j] == uncover(before, word@, letter)[j],
            forall|j: int| i <= j < word@.len() ==> clues@[j] == before[j],
        decreases word@.len() - i,
    {
        if word[i] == letter {
            clues[i] = Some(letter);
            new_info.push(true);
        } else {
            new_info.push(false);
        }
        i += 1;
    }
    assert(new_info@ =~= hit_positions(word@, letter));
    assert(clues@ =~= uncover(before, word@, letter));
    new_info
}

/// The state of one game against a lexicon.
pub struct TurnPertinentInfo<'a> {
    turn: usize,
    failed_attempts: usize,
    word: Vec<char>,
    unattempted_chars: Vec<char>,
    word_clues: Vec<Option<char>>,
    pertinent_words: CandidateSet<'a>,
}

impl<'a> View for TurnPertinentInfo<'a> {
    type V = GameState;

    closed spec fn view(&self) -> GameState {
        GameState {
            secret: self.word@,
            source: self.pertinent_words.source(),
            clues: self.word_clues@,
            unattempted: self.unattempted_chars@,
            candidates: self.pertinent_words@,
            turn: self.turn as nat,
            failed_attempts: self.failed_attempts as nat,
        }
    }
}

impl<'a> TurnPertinentInfo<'a> {
    /// The candidates point into their bucket.
    pub closed spec fn inv(&self) -> bool {
        self.pertinent_words.wf()
    }

    /// The game is well-formed, as a value and in memory.
    pub open spec fn wf(&self) -> bool {
        self@.wf() && self.inv()
    }

    /// Starts a game on `word` against the words of its length in
    /// `dict_data`.
    ///
    /// Fails where `word` is not one of them; a word that is empty, too long
    /// or not made of lowercase letters never is.
    pub fn new_with_dictionary_data_and_word(dict_data: &'a DictionaryData, word: &str) -> (r:
        Result<TurnPertinentInfo<'a>, GameError>)
        requires
            dict_data.wf(),
        ensures
            match r {
                Ok(game) => {
                    &&& dict_data.bucket_words(word@.len()).contains(word@)
                    &&& game.wf()
                    &&& game@ == GameState::start(dict_data.bucket_words(word@.len()), word@)
                },
                Err(GameError::WordNotInDictionary { word: missing }) => {
                    &&& !dict_data.bucket_words(word@.len()).contains(word@)
                    &&& missing@ == word@
                },
                Err(_) => false,
            },
    {
        let ghost source = dict_data.bucket_words(word@.len());
        let letters = match parse_word(word) {
            Some(letters) => letters,
            None => {
                proof {
                    if source.contains(word@) {
                        let k = choose|k: int| 0 <= k < source.len() && source[k] == word@;
                        dict_data.lemma_bucket_words_valid(word@.len(), k);
                    }
                }
                return Err(GameError::WordNotInDictionary { word: word.to_owned() });
            },
        };
        let pertinent_words = CandidateSet::full(dict_data.bucket(letters.len()));
        if !pertinent_words.has_word(&letters) {
            return Err(GameError::WordNotInDictionary { word: word.to_owned() });
        }
        let mut word_clues: Vec<Option<char>> = Vec::new();
        let mut i: usize = 0;
        while i < letters.len()
            invariant
                i <= letters@.len(),
                word_clues@.len() == i,
                forall|j: int| 0 <= j < i ==> word_clues@[j] == None::<char>,
            decreases letters@.len() - i,
        {
            word_clues.push(None);
            i += 1;
        }
        let game = TurnPertinentInfo {
            turn: 0,
            failed_attempts: 0,
            word: letters,
            unattempted_chars: all_letters(),
            word_clues,
            pertinent_words,
        };
        proof {
            assert(game@.clues =~= GameState::start(source, word@).clues);
            assert(game@ == GameState::start(source, word@));
            GameState::lemma_start_wf(source, word@);
        }
        Ok(game)
    }

    /// Tells whether every position is known.
    pub fn is_solved(&self) -> (r: bool)
        ensures
            r == self@.is_solved(),
    {
        let mut i: usize = 0;
        while i < self.word_clues.len()
            invariant
                i <= self.word_clues@.len(),
                forall|j: int| 0 <= j < i ==> (#[trigger] self.word_clues@[j]) is Some,
            decreases self.word_clues@.len() - i,
        {
            if self.word_clues[i].is_none() {
                return false;
            }
            i += 1;
        }
        true
    }

    /// Takes one turn: guesses the best letter that is left, reveals it
    /// wherever the secret holds it, and drops the candidates that the
    /// outcome rules out.
    ///
    /// Fails on a solved game, which it leaves untouched.
    pub fn next_turn(&mut self) -> (r: Result<TurnOutcome, GameError>)
        requires
            old(self).wf(),
        ensures
            final(self).wf(),
            final(self)@ == old(self)@.next(),
            final(self)@.secret == old(self)@.secret,
            final(self)@.candidates.contains(old(self)@.secret),
            forall|i: int|
                0 <= i < old(self)@.clues.len() && (#[trigger] old(self)@.clues[i]) is Some
                    ==> final(self)@.clues[i] == old(self)@.clues[i],
            old(self)@.is_solved() ==> r == Err::<TurnOutcome, GameError>(GameError::AlreadySolved)
                && *final(self) == *old(self),
            !old(self)@.is_solved() ==> final(self)@.unattempted.len() + 1
                == old(self)@.unattempted.len() && !final(self)@.unattempted.contains(
                old(self)@.guess(),
            ),
            !old(self)@.is_solved() ==> match r {
                Ok(outcome) => {
                    &&& outcome.letter == old(self)@.guess()
                    &&& outcome.hit == old(self)@.secret.contains(outcome.letter)
                    &&& outcome.clues@ == final(self)@.clues
                },
                Err(_) => false,
            },
    {
        if self.is_solved() {
            return Err(GameError::AlreadySolved);
        }
        let ghost before = self@;
        proof {
            before.lemma_guess_is_unattempted();
        }
        let char_to_guess = best_char(&self.pertinent_words, &self.unattempted_chars);
        self.turn += 1;

        let at = position_of(&self.unattempted_chars, char_to_guess);
        self.unattempted_chars.remove(at);
        proof {
            lemma_remove_is_without(before.unattempted, at as int);
        }
        let new_info = reveal_hits(&self.word, &mut self.word_clues, char_to_guess);
        proof {
            lemma_hit_iff_contains(before.secret, char_to_guess);
        }

        let hit = has_hit(&new_info);
        if !hit {
            self.failed_attempts += 1;
        }
        self.pertinent_words.eliminate(&new_info, char_to_guess);
        proof {
            assert(self@ == before.after(char_to_guess));
            before.lemma_after_wf(char_to_guess);
            lemma_without(before.unattempted, char_to_guess);
        }
        Ok(TurnOutcome { letter: char_to_guess, hit, clues: copy_clues(&self.word_clues) })
    }

    /// The number of turns taken.
    pub fn turn(&self) -> (r: usize)
        ensures
            r == self@.turn,
    {
        self.turn
    }

    /// The number of turns whose letter the secret does not hold.
    pub fn failed_attempts(&self) -> (r: usize)
        ensures
            r == self@.failed_attempts,
    {
        self.failed_attempts
    }

    /// The secret word.
    pub fn word(&self) -> (r: &Vec<char>)
        ensures
            r@ == self@.secret,
    {
        &self.word
    }

    /// The letters not guessed yet, in alphabetical order.
    pub fn unattempted_chars(&self) -> (r: &Vec<char>)
        ensures
            r@ == self@.unattempted,
    {
        &self.unattempted_chars
    }

    /// The clue pattern.
    pub fn word_clues(&self) -> (r: &Vec<Option<char>>)
        ensures
            r@ == self@.clues,
    {
        &self.word_clues
    }

    /// The words not ruled out yet.
    pub fn pertinent_words(&self) -> (r: &CandidateSet<'a>)
        ensures
            r@ == self@.candidates,
            self.inv() ==> r.wf(),
    {
        &self.pertinent_words
    }
}

} // verus!
