//! The alphabet of the game: the twenty-six lowercase ASCII letters.

use crate::seqs::lemma_filter_all;
use vstd::prelude::*;

verus! {

/// The longest word a lexicon accepts.
pub const MAX_WORD_LEN: usize = 50;

/// The number of letters that can be guessed.
pub const ALPHABET_LEN: usize = 26;

/// `c` is one of `'a'` to `'z'`.
pub open spec fn is_letter(c: char) -> bool {
    'a' <= c && c <= 'z'
}

/// Every character of `w` is a lowercase letter.
pub open spec fn is_lowercase_word(w: Seq<char>) -> bool {
    forall|i: int| 0 <= i < w.len() ==> is_letter(#[trigger] w[i])
}

/// `s` lists letters in strictly increasing order, so none occurs twice.
pub open spec fn strictly_increasing(s: Seq<char>) -> bool {
    forall|i: int, j: int| 0 <= i < j < s.len() ==> s[i] < s[j]
}

/// The letters `'a'` to `'z'` in order.
pub open spec fn alphabet() -> Seq<char> {
    Seq::new(26, |i: int| (97 + i) as char)
}

/// The predicate "is not `letter`" on characters.
pub open spec fn is_not(letter: char) -> spec_fn(char) -> bool {
    |c: char| c != letter
}

/// `letters` with `letter` taken out, the rest in their order.
pub open spec fn without(letters: Seq<char>, letter: char) -> Seq<char> {
    letters.filter(is_not(letter))
}

/// The alphabet is in order, holds letters only, and holds every letter.
pub proof fn lemma_alphabet()
    ensures
        alphabet().len() == ALPHABET_LEN,
        strictly_increasing(alphabet()),
        is_lowercase_word(alphabet()),
        forall|c: char| is_letter(c) ==> alphabet().contains(c),
{
    assert forall|c: char| is_letter(c) implies alphabet().contains(c) by {
        let i = c as int - 97;
        assert(alphabet()[i] == c);
    }
}

/// Where no letter occurs twice, taking out the letter at one position is
/// taking out that letter.
pub proof fn lemma_remove_is_without(letters: Seq<char>, at: int)
    requires
        strictly_increasing(letters),
        0 <= at < letters.len(),
    ensures
        letters.remove(at) == without(letters, letters[at]),
    decreases letters.len(),
{
    let letter = letters[at];
    let pred = is_not(letter);
    let front = letters.drop_last();
    let last = letters.last();
    reveal(Seq::filter);
    if at == letters.len() - 1 {
        assert forall|i: int| 0 <= i < front.len() implies pred(#[trigger] front[i]) by {
            assert(front[i] == letters[i]);
        }
        lemma_filter_all(front, pred);
        assert(letters.remove(at) =~= front);
    } else {
        assert(strictly_increasing(front)) by {
            assert forall|i: int, j: int| 0 <= i < j < front.len() implies front[i] < front[j] by {
                assert(front[i] == letters[i] && front[j] == letters[j]);
            }
        }
        lemma_remove_is_without(front, at);
        assert(front[at] == letter);
        assert(pred(last));
        assert(letters.remove(at) =~= front.remove(at).push(last));
    }
}

/// What is left of a list of distinct letters when one of them is taken out.
pub proof fn lemma_without(letters: Seq<char>, letter: char)
    requires
        strictly_increasing(letters),
        letters.contains(letter),
    ensures
        strictly_increasing(without(letters, letter)),
        without(letters, letter).len() == letters.len() - 1,
        forall|c: char|
            without(letters, letter).contains(c) <==> (letters.contains(c) && c != letter),
{
    let at = choose|i: int| 0 <= i < letters.len() && letters[i] == letter;
    lemma_remove_is_without(letters, at);
    let rest = letters.remove(at);
    assert forall|c: char| rest.contains(c) <==> (letters.contains(c) && c != letter) by {
        if rest.contains(c) {
            let k = choose|k: int| 0 <= k < rest.len() && rest[k] == c;
            if k < at {
                assert(letters[k] == c);
            } else {
                assert(letters[k + 1] == c);
            }
        }
        if letters.contains(c) && c != letter {
            let k = choose|k: int| 0 <= k < letters.len() && letters[k] == c;
            if k < at {
                assert(rest[k] == c);
            } else {
                assert(rest[k - 1] == c);
            }
        }
    }
}

/// Tells whether `c` is a lowercase ASCII letter.
pub fn is_lowercase(c: char) -> (r: bool)
    ensures
        r == is_letter(c),
{
    'a' <= c && c <= 'z'
}

/// Builds the full alphabet, in order.
pub fn all_letters() -> (r: Vec<char>)
    ensures
        r@ == alphabet(),
{
    let mut r: Vec<char> = Vec::new();
    let mut i: u8 = 0;
    while i < 26
        invariant
            i <= 26,
            r@.len() == i,
            forall|j: int| 0 <= j < i ==> r@[j] == (97 + j) as char,
        decreases 26 - i,
    {
        r.push((97u8 + i) as char);
        i += 1;
    }
    assert(r@ =~= alphabet());
    r
}

} // verus!
