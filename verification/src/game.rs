//! The state of one game as a mathematical value, the turn as a function on
//! it, and what holds of every game.

use crate::candidates::{any_hit, eliminate, hit_positions, survives, survivor};
use crate::letters::{
    alphabet, is_letter, is_lowercase_word, lemma_alphabet, lemma_without, strictly_increasing,
    without, ALPHABET_LEN,
};
use crate::scorer::{best_letter, is_best_letter, lemma_best_letter_exists};
use crate::seqs::{
    lemma_filter_all, lemma_filter_membership, lemma_filter_none, lemma_filter_one_more,
    lemma_filter_same, lemma_filter_twice,
};
use vstd::prelude::*;

verus! {

/// The clue pattern after `letter` was guessed: every position of `secret`
/// that holds it is known, the others are as before.
pub open spec fn uncover(clues: Seq<Option<char>>, secret: Seq<char>, letter: char) -> Seq<
    Option<char>,
> {
    Seq::new(
        clues.len(),
        |i: int|
            if 0 <= i < secret.len() && secret[i] == letter {
                Some(letter)
            } else {
                clues[i]
            },
    )
}

/// A position was hit exactly where the secret holds the letter.
pub proof fn lemma_hit_iff_contains(secret: Seq<char>, letter: char)
    ensures
        any_hit(hit_positions(secret, letter)) <==> secret.contains(letter),
{
    let hits = hit_positions(secret, letter);
    if any_hit(hits) {
        let i = choose|i: int| 0 <= i < hits.len() && #[trigger] hits[i];
        assert(secret[i] == letter);
    }
    if secret.contains(letter) {
        let i = choose|i: int| 0 <= i < secret.len() && secret[i] == letter;
        assert(hits[i]);
    }
}

/// The secret agrees with the outcome of every guess made against it.
pub proof fn lemma_secret_survives(secret: Seq<char>, letter: char)
    ensures
        survives(secret, hit_positions(secret, letter), letter),
{
    lemma_hit_iff_contains(secret, letter);
}

/// One game, as a value.
pub struct GameState {
    /// The word to be found.
    pub secret: Seq<char>,
    /// The words of the secret's length that the lexicon holds.
    pub source: Seq<Seq<char>>,
    /// For each position of the secret, the letter there if it is known.
    pub clues: Seq<Option<char>>,
    /// The letters not guessed yet, in alphabetical order.
    pub unattempted: Seq<char>,
    /// The words not ruled out yet.
    pub candidates: Seq<Seq<char>>,
    /// The number of turns taken.
    pub turn: nat,
    /// The number of turns whose letter the secret does not hold.
    pub failed_attempts: nat,
}

impl GameState {
    /// The game before its first turn.
    pub open spec fn start(source: Seq<Seq<char>>, secret: Seq<char>) -> GameState {
        GameState {
            secret,
            source,
            clues: Seq::new(secret.len(), |i: int| None),
            unattempted: alphabet(),
            candidates: source,
            turn: 0,
            failed_attempts: 0,
        }
    }

    /// Every position is known.
    pub open spec fn is_solved(self) -> bool {
        forall|i: int| 0 <= i < self.clues.len() ==> (#[trigger] self.clues[i]) is Some
    }

    /// The letter that the next turn guesses.
    pub open spec fn guess(self) -> char {
        best_letter(self.candidates, self.unattempted)
    }

    /// The game after a turn that guessed `letter`.
    pub open spec fn after(self, letter: char) -> GameState {
        let hits = hit_positions(self.secret, letter);
        GameState {
            secret: self.secret,
            source: self.source,
            clues: uncover(self.clues, self.secret, letter),
            unattempted: without(self.unattempted, letter),
            candidates: eliminate(self.candidates, hits, letter),
            turn: self.turn + 1,
            failed_attempts: if any_hit(hits) {
                self.failed_attempts
            } else {
                self.failed_attempts + 1
            },
        }
    }

    /// The game after one more turn; a solved game stays as it is.
    pub open spec fn next(self) -> GameState {
        if self.is_solved() {
            self
        } else {
            self.after(self.guess())
        }
    }

    /// The game after `n` more turns.
    pub open spec fn run(self, n: nat) -> GameState
        decreases n,
    {
        if n == 0 {
            self
        } else {
            self.next().run((n - 1) as nat)
        }
    }

    /// `word` agrees with everything revealed so far: it shows each known
    /// letter at its position, and every guessed letter that it holds is one
    /// that the secret holds too.
    pub open spec fn admits(self, word: Seq<char>) -> bool {
        &&& forall|i: int|
            0 <= i < self.clues.len() && (#[trigger] self.clues[i]) is Some ==> i < word.len()
                && word[i] == self.clues[i].unwrap()
        &&& forall|j: int|
            0 <= j < word.len() && is_letter(#[trigger] word[j]) && !self.unattempted.contains(
                word[j],
            ) ==> self.secret.contains(word[j])
    }

    /// The predicate "was guessed and is not in the secret" on letters.
    pub open spec fn missed(self) -> spec_fn(char) -> bool {
        |c: char| !self.unattempted.contains(c) && !self.secret.contains(c)
    }

    /// The number of letters that were guessed and are not in the secret.
    pub open spec fn misses(self) -> nat {
        alphabet().filter(self.missed()).len()
    }

    /// `admits` as a predicate on words.
    pub open spec fn admitted(self) -> spec_fn(Seq<char>) -> bool {
        |word: Seq<char>| self.admits(word)
    }

    /// What holds of a game at every turn.
    ///
    /// A position is known exactly when its letter has been guessed, and then
    /// the clue is that letter; each turn has used up one letter of the
    /// alphabet; the failed attempts are the guessed letters that the secret
    /// does not hold; the candidates are the words of the source that agree
    /// with everything revealed so far, and the secret is one of them.
    pub open spec fn wf(self) -> bool {
        &&& is_lowercase_word(self.secret)
        &&& self.clues.len() == self.secret.len()
        &&& strictly_increasing(self.unattempted)
        &&& is_lowercase_word(self.unattempted)
        &&& forall|i: int|
            0 <= i < self.secret.len() ==> #[trigger] self.clues[i] == if self.unattempted.contains(
                self.secret[i],
            ) {
                None
            } else {
                Some(self.secret[i])
            }
        &&& self.turn + self.unattempted.len() == ALPHABET_LEN
        &&& self.failed_attempts <= self.turn
        &&& self.failed_attempts == self.misses()
        &&& self.candidates.contains(self.secret)
        &&& self.candidates == self.source.filter(self.admitted())
    }

    /// A game that starts with a lowercase secret from its source is
    /// well-formed.
    pub proof fn lemma_start_wf(source: Seq<Seq<char>>, secret: Seq<char>)
        requires
            is_lowercase_word(secret),
            source.contains(secret),
        ensures
            GameState::start(source, secret).wf(),
    {
        lemma_alphabet();
        let g = GameState::start(source, secret);
        assert forall|k: int| 0 <= k < source.len() implies g.admitted()(#[trigger] source[k]) by {
            let word = source[k];
            assert forall|j: int|
                0 <= j < word.len() && is_letter(#[trigger] word[j]) && !g.unattempted.contains(
                    word[j],
                ) implies g.secret.contains(word[j]) by {
                assert(alphabet().contains(word[j]));
            }
        }
        lemma_filter_all(source, g.admitted());
        assert forall|i: int| 0 <= i < alphabet().len() implies !g.missed()(
            #[trigger] alphabet()[i],
        ) by {
            assert(g.unattempted.contains(alphabet()[i]));
        }
        lemma_filter_none(alphabet(), g.missed());
    }

    /// While a position is unknown, some letter is left to guess, and the
    /// best of them is one of those left.
    pub proof fn lemma_guess_is_unattempted(self)
        requires
            self.wf(),
            !self.is_solved(),
        ensures
            self.unattempted.len() > 0,
            is_best_letter(self.candidates, self.unattempted, self.guess()),
            self.unattempted.contains(self.guess()),
    {
        let i = choose|i: int| 0 <= i < self.clues.len() && !((#[trigger] self.clues[i]) is Some);
        assert(self.unattempted.contains(self.secret[i]));
        lemma_best_letter_exists(self.candidates, self.unattempted);
    }

    /// A word agrees with what is revealed after a turn exactly when it
    /// agreed before and agrees with the outcome of the turn.
    pub proof fn lemma_after_admits(self, letter: char, word: Seq<char>)
        requires
            self.wf(),
            self.unattempted.contains(letter),
        ensures
            self.after(letter).admits(word) <==> (self.admits(word) && survives(
                word,
                hit_positions(self.secret, letter),
                letter,
            )),
    {
        let h = self.after(letter);
        let hits = hit_positions(self.secret, letter);
        lemma_without(self.unattempted, letter);
        lemma_hit_iff_contains(self.secret, letter);
        let at = choose|k: int| 0 <= k < self.unattempted.len() && self.unattempted[k] == letter;
        assert(is_letter(self.unattempted[at]));
        if h.admits(word) {
            assert forall|i: int|
                0 <= i < self.clues.len() && (#[trigger] self.clues[i]) is Some implies i
                < word.len() && word[i] == self.clues[i].unwrap() by {
                assert(h.clues[i] == self.clues[i]);
            }
            assert forall|j: int|
                0 <= j < word.len() && is_letter(#[trigger] word[j])
                    && !self.unattempted.contains(word[j]) implies self.secret.contains(
                word[j],
            ) by {
                assert(!h.unattempted.contains(word[j]));
            }
            if any_hit(hits) {
                assert forall|i: int| 0 <= i < hits.len() && #[trigger] hits[i] implies i
                    < word.len() && word[i] == letter by {
                    assert(h.clues[i] == Some(letter));
                }
            } else {
                if word.contains(letter) {
                    let j = choose|j: int| 0 <= j < word.len() && word[j] == letter;
                    assert(is_letter(word[j]) && !h.unattempted.contains(word[j]));
                }
            }
        }
        if self.admits(word) && survives(word, hits, letter) {
            assert forall|i: int|
                0 <= i < h.clues.len() && (#[trigger] h.clues[i]) is Some implies i < word.len()
                && word[i] == h.clues[i].unwrap() by {
                if self.secret[i] == letter {
                    assert(hits[i]);
                } else {
                    assert(h.clues[i] == self.clues[i]);
                }
            }
            assert forall|j: int|
                0 <= j < word.len() && is_letter(#[trigger] word[j]) && !h.unattempted.contains(
                    word[j],
                ) implies h.secret.contains(word[j]) by {
                if word[j] == letter {
                    assert(word.contains(letter));
                }
            }
        }
    }

    /// The candidates of a well-formed game are the words of its source that
    /// agree with everything revealed so far.
    pub proof fn lemma_candidates_are_the_admitted(self, word: Seq<char>)
        requires
            self.wf(),
        ensures
            self.candidates.contains(word) <==> (self.source.contains(word) && self.admits(word)),
    {
        lemma_filter_membership(self.source, self.admitted(), word);
    }

    /// A turn on any letter that is left keeps the game well-formed.
    pub proof fn lemma_after_wf(self, letter: char)
        requires
            self.wf(),
            self.unattempted.contains(letter),
        ensures
            self.after(letter).wf(),
    {
        let h = self.after(letter);
        let hits = hit_positions(self.secret, letter);
        lemma_without(self.unattempted, letter);
        assert(is_lowercase_word(h.unattempted)) by {
            assert forall|k: int| 0 <= k < h.unattempted.len() implies is_letter(
                #[trigger] h.unattempted[k],
            ) by {
                let c = h.unattempted[k];
                assert(h.unattempted.contains(c));
                assert(self.unattempted.contains(c));
                let j = choose|j: int| 0 <= j < self.unattempted.len() && self.unattempted[j] == c;
                assert(is_letter(self.unattempted[j]));
            }
        }
        assert forall|i: int| 0 <= i < h.secret.len() implies #[trigger] h.clues[i]
            == if h.unattempted.contains(h.secret[i]) {
            None
        } else {
            Some(h.secret[i])
        } by {
            assert(self.clues[i] == if self.unattempted.contains(self.secret[i]) {
                None
            } else {
                Some(self.secret[i])
            });
        }
        assert(h.candidates.contains(h.secret)) by {
            lemma_secret_survives(self.secret, letter);
            let k = choose|k: int| 0 <= k < self.candidates.len() && self.candidates[k] == self.secret;
            assert(survivor(hits, letter)(self.candidates[k]));
            self.candidates.lemma_filter_contains(survivor(hits, letter), k);
        }
        assert(h.failed_attempts == h.misses()) by {
            lemma_alphabet();
            lemma_hit_iff_contains(self.secret, letter);
            let at = choose|k: int|
                0 <= k < self.unattempted.len() && self.unattempted[k] == letter;
            assert(is_letter(self.unattempted[at]));
            if any_hit(hits) {
                lemma_filter_same(alphabet(), self.missed(), h.missed());
            } else {
                lemma_filter_one_more(alphabet(), self.missed(), h.missed(), letter);
            }
        }
        assert(h.candidates == h.source.filter(h.admitted())) by {
            assert forall|k: int| 0 <= k < self.source.len() implies h.admitted()(
                #[trigger] self.source[k],
            ) == (self.admitted()(self.source[k]) && survivor(hits, letter)(self.source[k])) by {
                self.lemma_after_admits(letter, self.source[k]);
            }
            lemma_filter_twice(
                self.source,
                self.admitted(),
                survivor(hits, letter),
                h.admitted(),
            );
        }
    }

    /// A turn keeps the game well-formed.
    pub proof fn lemma_next_wf(self)
        requires
            self.wf(),
        ensures
            self.next().wf(),
    {
        if !self.is_solved() {
            self.lemma_guess_is_unattempted();
            self.lemma_after_wf(self.guess());
        }
    }

    /// Any number of turns keep the game well-formed, and leave the secret
    /// and the source as they are.
    pub proof fn lemma_run_wf(self, n: nat)
        requires
            self.wf(),
        ensures
            self.run(n).wf(),
            self.run(n).secret == self.secret,
            self.run(n).source == self.source,
        decreases n,
    {
        if n > 0 {
            self.lemma_next_wf();
            self.next().lemma_run_wf((n - 1) as nat);
        }
    }

    /// A solved game does not change any more.
    pub proof fn lemma_solved_is_final(self, n: nat)
        requires
            self.is_solved(),
        ensures
            self.run(n) == self,
        decreases n,
    {
        if n > 0 {
            self.lemma_solved_is_final((n - 1) as nat);
        }
    }

    /// The secret is a candidate after every turn.
    pub proof fn lemma_secret_stays_candidate(self, n: nat)
        requires
            self.wf(),
        ensures
            self.run(n).candidates.contains(self.secret),
    {
        self.lemma_run_wf(n);
    }

    /// A position that is known keeps its letter through every later turn.
    pub proof fn lemma_known_stays_known(self, n: nat, i: int)
        requires
            self.wf(),
            0 <= i < self.clues.len(),
            self.clues[i] is Some,
        ensures
            self.run(n).clues.len() == self.clues.len(),
            self.run(n).clues[i] == self.clues[i],
        decreases n,
    {
        if n > 0 {
            self.lemma_next_wf();
            if !self.is_solved() {
                assert(self.clues[i] == Some(self.secret[i]));
                assert(self.next().clues[i] == self.clues[i]);
            }
            self.next().lemma_known_stays_known((n - 1) as nat, i);
        }
    }

    /// A letter that has been guessed is never left to guess again.
    pub proof fn lemma_attempted_stays_attempted(self, n: nat, letter: char)
        requires
            self.wf(),
            !self.unattempted.contains(letter),
        ensures
            !self.run(n).unattempted.contains(letter),
        decreases n,
    {
        if n > 0 {
            self.lemma_next_wf();
            if !self.is_solved() {
                self.lemma_guess_is_unattempted();
                lemma_without(self.unattempted, self.guess());
            }
            self.next().lemma_attempted_stays_attempted((n - 1) as nat, letter);
        }
    }

    /// A turn on an unsolved game takes exactly the guessed letter out of the
    /// letters left, and no later turn brings it back.
    pub proof fn lemma_unattempted_shrinks(self, n: nat)
        requires
            self.wf(),
            !self.is_solved(),
        ensures
            self.unattempted.contains(self.guess()),
            self.next().unattempted.len() == self.unattempted.len() - 1,
            forall|c: char|
                self.next().unattempted.contains(c) <==> (self.unattempted.contains(c) && c
                    != self.guess()),
            !self.next().run(n).unattempted.contains(self.guess()),
    {
        self.lemma_guess_is_unattempted();
        lemma_without(self.unattempted, self.guess());
        self.lemma_next_wf();
        self.next().lemma_attempted_stays_attempted(n, self.guess());
    }

    /// After `n` turns the game is solved or has taken `n` more turns.
    pub proof fn lemma_run_counts_turns(self, n: nat)
        requires
            self.wf(),
        ensures
            self.run(n).is_solved() || self.run(n).turn == self.turn + n,
        decreases n,
    {
        if n > 0 {
            if self.is_solved() {
                self.lemma_solved_is_final(n);
            } else {
                self.lemma_next_wf();
                self.next().lemma_run_counts_turns((n - 1) as nat);
            }
        }
    }

    /// A game with no letter left to guess is solved.
    pub proof fn lemma_exhausted_is_solved(self)
        requires
            self.wf(),
            self.unattempted.len() == 0,
        ensures
            self.is_solved(),
    {
        assert forall|i: int| 0 <= i < self.clues.len() implies (#[trigger] self.clues[i]) is Some by {
            if self.unattempted.contains(self.secret[i]) {
                let k = choose|k: int|
                    0 <= k < self.unattempted.len() && self.unattempted[k] == self.secret[i];
            }
        }
    }

    /// No game takes more turns than the alphabet has letters: it is solved
    /// once as many turns have passed as letters were left.
    pub proof fn lemma_solved_within_alphabet(self)
        requires
            self.wf(),
        ensures
            self.turn <= ALPHABET_LEN,
            self.run(self.unattempted.len()).is_solved(),
    {
        let n = self.unattempted.len();
        self.lemma_run_wf(n);
        self.lemma_run_counts_turns(n);
        if !self.run(n).is_solved() {
            self.run(n).lemma_exhausted_is_solved();
        }
    }

    /// A game that starts with a lowercase secret from its source is solved
    /// after twenty-six turns at the latest.
    pub proof fn lemma_game_ends(source: Seq<Seq<char>>, secret: Seq<char>)
        requires
            is_lowercase_word(secret),
            source.contains(secret),
        ensures
            GameState::start(source, secret).run(26).is_solved(),
    {
        lemma_alphabet();
        GameState::lemma_start_wf(source, secret);
        GameState::start(source, secret).lemma_solved_within_alphabet();
    }
}

} // verus!
