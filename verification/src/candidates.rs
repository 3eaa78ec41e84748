//! The words that may still be the secret, and the rule that rules words out.

use vstd::prelude::*;

verus! {

/// The words of a bucket as sequences of characters.
pub open spec fn word_views(words: Seq<Vec<char>>) -> Seq<Seq<char>> {
    Seq::new(words.len(), |k: int| words[k]@)
}

/// For each position of `secret`, whether `letter` stands there.
pub open spec fn hit_positions(secret: Seq<char>, letter: char) -> Seq<bool> {
    Seq::new(secret.len(), |i: int| secret[i] == letter)
}

/// Some position was hit.
pub open spec fn any_hit(hits: Seq<bool>) -> bool {
    exists|i: int| 0 <= i < hits.len() && #[trigger] hits[i]
}

/// `word` agrees with the outcome of guessing `letter`.
///
/// After a hit the word must show `letter` at every position that was hit;
/// what it holds elsewhere does not matter. After a miss the word must not
/// hold `letter` at all.
pub open spec fn survives(word: Seq<char>, hits: Seq<bool>, letter: char) -> bool {
    if any_hit(hits) {
        forall|i: int|
            0 <= i < hits.len() && #[trigger] hits[i] ==> i < word.len() && word[i] == letter
    } else {
        !word.contains(letter)
    }
}

/// `survives` with the outcome fixed, as a predicate on words.
pub open spec fn survivor(hits: Seq<bool>, letter: char) -> spec_fn(Seq<char>) -> bool {
    |word: Seq<char>| survives(word, hits, letter)
}

/// The candidates that agree with the outcome of guessing `letter`, in their
/// old order.
pub open spec fn eliminate(candidates: Seq<Seq<char>>, hits: Seq<bool>, letter: char) -> Seq<
    Seq<char>,
> {
    candidates.filter(survivor(hits, letter))
}

/// How often a word occurs among the words kept by a predicate: as often as
/// before where the predicate holds of it, never where it does not.
pub proof fn lemma_filter_count(words: Seq<Seq<char>>, keep: spec_fn(Seq<char>) -> bool, word: Seq<
    char,
>)
    ensures
        words.filter(keep).to_multiset().count(word) == if keep(word) {
            words.to_multiset().count(word)
        } else {
            0
        },
    decreases words.len(),
{
    broadcast use vstd::multiset::group_multiset_axioms;

    if words.len() == 0 {
        reveal(Seq::filter);
        words.to_multiset_ensures();
        assert(words.filter(keep) =~= words);
        assert(words.to_multiset().len() == 0);
    } else {
        let front = words.drop_last();
        let last = words.last();
        assert(front.push(last) =~= words);
        lemma_filter_count(front, keep, word);
        front.lemma_filter_push(last, keep);
        vstd::seq_lib::to_multiset_build(front, last);
        if keep(last) {
            vstd::seq_lib::to_multiset_build(front.filter(keep), last);
        }
    }
}

/// The order in which the candidates are scanned does not matter: two
/// arrangements of the same words leave the same words, each as often.
pub proof fn lemma_elimination_ignores_order(
    one: Seq<Seq<char>>,
    other: Seq<Seq<char>>,
    hits: Seq<bool>,
    letter: char,
)
    requires
        one.to_multiset() == other.to_multiset(),
    ensures
        eliminate(one, hits, letter).to_multiset() == eliminate(other, hits, letter).to_multiset(),
{
    broadcast use vstd::multiset::group_multiset_axioms;

    let keep = survivor(hits, letter);
    assert forall|word: Seq<char>|
        eliminate(one, hits, letter).to_multiset().count(word) == eliminate(
            other,
            hits,
            letter,
        ).to_multiset().count(word) by {
        lemma_filter_count(one, keep, word);
        lemma_filter_count(other, keep, word);
    }
    assert(eliminate(one, hits, letter).to_multiset() =~= eliminate(
        other,
        hits,
        letter,
    ).to_multiset());
}

/// Tells whether two words are the same.
pub fn same_word(a: &Vec<char>, b: &Vec<char>) -> (r: bool)
    ensures
        r == (a@ == b@),
{
    if a.len() != b.len() {
        return false;
    }
    let mut i: usize = 0;
    while i < a.len()
        invariant
            a@.len() == b@.len(),
            i <= a@.len(),
            forall|j: int| 0 <= j < i ==> a@[j] == b@[j],
        decreases a@.len() - i,
    {
        if a[i] != b[i] {
            return false;
        }
        i += 1;
    }
    assert(a@ =~= b@);
    true
}

/// Tells whether `letter` occurs in `word`.
pub fn word_contains(word: &Vec<char>, letter: char) -> (r: bool)
    ensures
        r == word@.contains(letter),
{
    let mut i: usize = 0;
    while i < word.len()
        invariant
            i <= word@.len(),
            forall|j: int| 0 <= j < i ==> word@[j] != letter,
        decreases word@.len() - i,
    {
        if word[i] == letter {
            return true;
        }
        i += 1;
    }
    false
}

/// Tells whether any position was hit.
pub fn has_hit(hits: &Vec<bool>) -> (r: bool)
    ensures
        r == any_hit(hits@),
{
    let mut i: usize = 0;
    while i < hits.len()
        invariant
            i <= hits@.len(),
            forall|j: int| 0 <= j < i ==> !hits@[j],
        decreases hits@.len() - i,
    {
        if hits[i] {
            return true;
        }
        i += 1;
    }
    false
}

/// Tells whether the outcome of guessing `char_guessed` rules `word` out.
///
/// A word too short to reach a position that was hit is ruled out.
pub fn should_be_discarded(word: &Vec<char>, chars_changed: &Vec<bool>, char_guessed: char) -> (r:
    bool)
    ensures
        r == !survives(word@, chars_changed@, char_guessed),
{
    if has_hit(chars_changed) {
        let mut i: usize = 0;
        while i < chars_changed.len()
            invariant
                i <= chars_changed@.len(),
                forall|j: int|
                    0 <= j < i && #[trigger] chars_changed@[j] ==> j < word@.len() && word@[j]
                        == char_guessed,
            decreases chars_changed@.len() - i,
        {
            if chars_changed[i] && (i >= word.len() || word[i] != char_guessed) {
                return true;
            }
            i += 1;
        }
        false
    } else {
        word_contains(word, char_guessed)
    }
}

/// A selection of the words of one bucket of a lexicon, held by position.
pub struct CandidateSet<'a> {
    bucket: &'a Vec<Vec<char>>,
    picks: Vec<usize>,
}

impl<'a> View for CandidateSet<'a> {
    type V = Seq<Seq<char>>;

    /// The selected words, in the order of the bucket.
    closed spec fn view(&self) -> Seq<Seq<char>> {
        Seq::new(self.picks@.len(), |k: int| self.bucket@[self.picks@[k] as int]@)
    }
}

impl<'a> CandidateSet<'a> {
    /// Every selected position lies inside the bucket.
    pub closed spec fn wf(&self) -> bool {
        forall|k: int| 0 <= k < self.picks@.len() ==> #[trigger] self.picks@[k] < self.bucket@.len()
    }

    /// The words of the bucket that the selection was taken from.
    pub closed spec fn source(&self) -> Seq<Seq<char>> {
        word_views(self.bucket@)
    }

    /// Selects every word of `bucket`.
    pub fn full(bucket: &'a Vec<Vec<char>>) -> (r: Self)
        ensures
            r.wf(),
            r@ == word_views(bucket@),
            r.source() == word_views(bucket@),
    {
        let mut picks: Vec<usize> = Vec::new();
        let mut k: usize = 0;
        while k < bucket.len()
            invariant
                k <= bucket@.len(),
                picks@.len() == k,
                forall|j: int| 0 <= j < k ==> picks@[j] == j,
            decreases bucket@.len() - k,
        {
            picks.push(k);
            k += 1;
        }
        let r = CandidateSet { bucket, picks };
        assert(r@ =~= word_views(bucket@));
        r
    }

    /// The number of selected words.
    pub fn len(&self) -> (r: usize)
        ensures
            r == self@.len(),
    {
        self.picks.len()
    }

    /// The selected word at position `k`.
    pub fn word(&self, k: usize) -> (r: &'a Vec<char>)
        requires
            self.wf(),
            k < self@.len(),
        ensures
            r@ == self@[k as int],
    {
        &self.bucket[self.picks[k]]
    }

    /// Tells whether `word` is among the selected words.
    pub fn has_word(&self, word: &Vec<char>) -> (r: bool)
        requires
            self.wf(),
        ensures
            r == self@.contains(word@),
    {
        let mut k: usize = 0;
        while k < self.picks.len()
            invariant
                self.wf(),
                k <= self.picks@.len(),
                forall|j: int| 0 <= j < k ==> self@[j] != word@,
            decreases self.picks@.len() - k,
        {
            if same_word(&self.bucket[self.picks[k]], word) {
                assert(self@[k as int] == word@);
                return true;
            }
            k += 1;
        }
        false
    }

    /// Drops every selected word that the outcome of guessing `letter` rules
    /// out, and keeps the others in their order.
    pub fn eliminate(&mut self, hits: &Vec<bool>, letter: char)
        requires
            old(self).wf(),
        ensures
            final(self).wf(),
            final(self)@ == eliminate(old(self)@, hits@, letter),
            final(self).source() == old(self).source(),
    {
        let ghost before = self@;
        let ghost keep = survivor(hits@, letter);
        let mut kept: Vec<usize> = Vec::new();
        let mut k: usize = 0;
        proof {
            assert(before.take(0).filter(keep) =~= Seq::<Seq<char>>::empty()) by {
                reveal(Seq::filter);
            }
        }
        while k < self.picks.len()
            invariant
                self.wf(),
                self@ == before,
                *self == *old(self),
                keep == survivor(hits@, letter),
                k <= self.picks@.len(),
                forall|j: int| 0 <= j < kept@.len() ==> #[trigger] kept@[j] < self.bucket@.len(),
                Seq::new(kept@.len(), |j: int| self.bucket@[kept@[j] as int]@) == before.take(
                    k as int,
                ).filter(keep),
            decreases self.picks@.len() - k,
        {
            let p = self.picks[k];
            let ghost kept_before = Seq::new(kept@.len(), |j: int| self.bucket@[kept@[j] as int]@);
            proof {
                before.lemma_take_succ_push(k as int);
                before.take(k as int).lemma_filter_push(before[k as int], keep);
                assert(before[k as int] == self.bucket@[p as int]@);
            }
            if !should_be_discarded(&self.bucket[p], hits, letter) {
                kept.push(p);
                assert(Seq::new(kept@.len(), |j: int| self.bucket@[kept@[j] as int]@)
                    =~= kept_before.push(before[k as int]));
            }
            k += 1;
        }
        proof {
            before.lemma_take_len();
        }
        self.picks = kept;
        assert(self@ =~= before.filter(keep));
    }
}

} // verus!
