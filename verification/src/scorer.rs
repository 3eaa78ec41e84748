//! The choice of the next letter: the one that occurs in the most candidates.

use crate::candidates::{word_contains, CandidateSet};
use vstd::prelude::*;

verus! {

/// The predicate "holds `letter` somewhere" on words.
pub open spec fn holds(letter: char) -> spec_fn(Seq<char>) -> bool {
    |word: Seq<char>| word.contains(letter)
}

/// The number of candidates that hold `letter`; a word that holds it more
/// than once counts once.
pub open spec fn letter_count(candidates: Seq<Seq<char>>, letter: char) -> nat {
    candidates.filter(holds(letter)).len()
}

/// `c` is to be guessed rather than `d`: it occurs in more candidates, or in
/// as many and does not come after `d` in the alphabet.
pub open spec fn preferred(candidates: Seq<Seq<char>>, c: char, d: char) -> bool {
    letter_count(candidates, d) < letter_count(candidates, c) || (letter_count(candidates, d)
        == letter_count(candidates, c) && c <= d)
}

/// `c` is one of `letters` and is preferred to each of them.
pub open spec fn is_best_letter(candidates: Seq<Seq<char>>, letters: Seq<char>, c: char) -> bool {
    &&& letters.contains(c)
    &&& forall|k: int| 0 <= k < letters.len() ==> preferred(candidates, c, #[trigger] letters[k])
}

/// The letter to guess next. Meaningful where `letters` is not empty.
pub open spec fn best_letter(candidates: Seq<Seq<char>>, letters: Seq<char>) -> char {
    choose|c: char| is_best_letter(candidates, letters, c)
}

/// At most one letter is the best one.
pub proof fn lemma_best_letter_unique(
    candidates: Seq<Seq<char>>,
    letters: Seq<char>,
    c: char,
    d: char,
)
    requires
        is_best_letter(candidates, letters, c),
        is_best_letter(candidates, letters, d),
    ensures
        c == d,
{
    let i = choose|i: int| 0 <= i < letters.len() && letters[i] == c;
    let j = choose|j: int| 0 <= j < letters.len() && letters[j] == d;
    assert(preferred(candidates, c, letters[j]));
    assert(preferred(candidates, d, letters[i]));
}

/// Among one or more letters there is a best one, and `best_letter` names it.
pub proof fn lemma_best_letter_exists(candidates: Seq<Seq<char>>, letters: Seq<char>)
    requires
        letters.len() > 0,
    ensures
        is_best_letter(candidates, letters, best_letter(candidates, letters)),
    decreases letters.len(),
{
    let last = letters.last();
    let front = letters.drop_last();
    if front.len() == 0 {
        assert(letters[0] == last);
        assert(is_best_letter(candidates, letters, last));
    } else {
        lemma_best_letter_exists(candidates, front);
        let b = best_letter(candidates, front);
        let i = choose|i: int| 0 <= i < front.len() && front[i] == b;
        assert(letters[i] == b);
        if preferred(candidates, b, last) {
            assert forall|k: int| 0 <= k < letters.len() implies preferred(
                candidates,
                b,
                #[trigger] letters[k],
            ) by {
                if k < front.len() {
                    assert(letters[k] == front[k]);
                }
            }
            assert(is_best_letter(candidates, letters, b));
        } else {
            assert forall|k: int| 0 <= k < letters.len() implies preferred(
                candidates,
                last,
                #[trigger] letters[k],
            ) by {
                if k < front.len() {
                    assert(letters[k] == front[k]);
                    assert(preferred(candidates, b, front[k]));
                }
            }
            assert(letters[letters.len() - 1] == last);
            assert(is_best_letter(candidates, letters, last));
        }
    }
}

/// Counts the candidates that hold `letter`.
pub fn count_containing(candidates: &CandidateSet, letter: char) -> (r: usize)
    requires
        candidates.wf(),
    ensures
        r == letter_count(candidates@, letter),
{
    let ghost words = candidates@;
    let ghost pred = holds(letter);
    let mut n: usize = 0;
    let mut k: usize = 0;
    proof {
        assert(words.take(0).filter(pred) =~= Seq::<Seq<char>>::empty()) by {
            reveal(Seq::filter);
        }
    }
    while k < candidates.len()
        invariant
            candidates.wf(),
            words == candidates@,
            pred == holds(letter),
            k <= words.len(),
            n <= k,
            n == words.take(k as int).filter(pred).len(),
        decreases words.len() - k,
    {
        proof {
            words.lemma_take_succ_push(k as int);
            words.take(k as int).lemma_filter_push(words[k as int], pred);
        }
        if word_contains(candidates.word(k), letter) {
            n += 1;
        }
        k += 1;
    }
    proof {
        words.lemma_take_len();
    }
    n
}

/// Picks the letter of `unattempted` that occurs in the most candidates; of
/// several such letters, the first in the alphabet.
///
/// With no candidates every count is zero and the first letter in the
/// alphabet is picked.
pub fn best_char(candidates: &CandidateSet, unattempted: &Vec<char>) -> (r: char)
    requires
        candidates.wf(),
        unattempted@.len() > 0,
    ensures
        is_best_letter(candidates@, unattempted@, r),
        r == best_letter(candidates@, unattempted@),
{
    let mut best: char = unattempted[0];
    let mut best_count: usize = count_containing(candidates, best);
    let mut k: usize = 1;
    while k < unattempted.len()
        invariant
            candidates.wf(),
            1 <= k <= unattempted@.len(),
            best_count == letter_count(candidates@, best),
            exists|i: int| 0 <= i < k && unattempted@[i] == best,
            forall|j: int| 0 <= j < k ==> preferred(candidates@, best, #[trigger] unattempted@[j]),
        decreases unattempted@.len() - k,
    {
        let c = unattempted[k];
        let n = count_containing(candidates, c);
        if n > best_count || (n == best_count && c < best) {
            best = c;
            best_count = n;
            assert(unattempted@[k as int] == best);
        }
        k += 1;
    }
    proof {
        lemma_best_letter_exists(candidates@, unattempted@);
        lemma_best_letter_unique(
            candidates@,
            unattempted@,
            best,
            best_letter(candidates@, unattempted@),
        );
    }
    best
}

} // verus!
