//! The lexicon: validated lowercase words, grouped by length.

use crate::candidates::word_views;
use crate::error::GameError;
use crate::letters::{is_letter, is_lowercase_word, MAX_WORD_LEN};
use vstd::prelude::*;
use vstd::string::is_ascii_spec_bytes;

verus! {

/// `word` can stand in a lexicon: one to fifty lowercase letters.
pub open spec fn is_valid_word(word: Seq<char>) -> bool {
    1 <= word.len() <= MAX_WORD_LEN && is_lowercase_word(word)
}

/// The lines of a word list as sequences of characters.
pub open spec fn line_views(lines: Seq<String>) -> Seq<Seq<char>> {
    Seq::new(lines.len(), |i: int| lines[i]@)
}

/// Line `i` is the first that cannot stand in a lexicon.
pub open spec fn first_invalid_line(lines: Seq<Seq<char>>, i: int) -> bool {
    &&& 0 <= i < lines.len()
    &&& !is_valid_word(lines[i])
    &&& forall|j: int| 0 <= j < i ==> is_valid_word(#[trigger] lines[j])
}

/// The predicate "has exactly `n` characters" on words.
pub open spec fn has_len(n: nat) -> spec_fn(Seq<char>) -> bool {
    |word: Seq<char>| word.len() == n
}

/// The words of exactly `n` characters, in their order in `words`.
pub open spec fn words_of_len(words: Seq<Seq<char>>, n: nat) -> Seq<Seq<char>> {
    words.filter(has_len(n))
}

/// Reads `text` as a word of lowercase letters; `None` where some character
/// is anything else.
pub fn parse_word(text: &str) -> (r: Option<Vec<char>>)
    ensures
        r is Some <==> is_lowercase_word(text@),
        r is Some ==> r.unwrap()@ == text@,
{
    if !text.is_ascii() {
        proof {
            let i = choose|i: int|
                0 <= i < text@.len() && !('\0' <= #[trigger] text@[i] && text@[i] <= '\u{7f}');
            assert(!is_letter(text@[i]));
        }
        return None;
    }
    broadcast use is_ascii_spec_bytes;

    let bytes = text.as_bytes();
    let mut word: Vec<char> = Vec::new();
    let mut i: usize = 0;
    while i < bytes.len()
        invariant
            vstd::string::is_ascii(text),
            bytes@ == Seq::new(text@.len(), |k: int| text@[k] as u8),
            i <= bytes@.len(),
            word@.len() == i,
            forall|j: int| 0 <= j < i ==> word@[j] == text@[j] && is_letter(text@[j]),
        decreases bytes@.len() - i,
    {
        let b: u8 = bytes[i];
        assert(b == text@[i as int] as u8);
        assert('\0' <= text@[i as int] <= '\u{7f}');
        if b < 97 || b > 122 {
            assert(!is_letter(text@[i as int]));
            return None;
        }
        word.push(b as char);
        i += 1;
    }
    assert(word@ =~= text@);
    Some(word)
}

/// Words grouped by length. Built once and then only read.
pub struct DictionaryData {
    buckets: Vec<Vec<Vec<char>>>,
}

impl DictionaryData {
    /// The words of exactly `n` characters, in the order in which they were
    /// given. Empty for a length that no valid word has.
    pub closed spec fn bucket_words(&self, n: nat) -> Seq<Seq<char>> {
        if n < self.buckets@.len() {
            word_views(self.buckets@[n as int]@)
        } else {
            Seq::empty()
        }
    }

    /// Every word stands in the bucket of its length and is valid.
    pub closed spec fn wf(&self) -> bool {
        &&& self.buckets@.len() == MAX_WORD_LEN + 1
        &&& self.buckets@[0]@.len() == 0
        &&& forall|n: int, k: int|
            0 <= n <= MAX_WORD_LEN && 0 <= k < self.buckets@[n]@.len() ==> {
                &&& (#[trigger] self.buckets@[n]@[k])@.len() == n
                &&& is_lowercase_word(self.buckets@[n]@[k]@)
            }
    }

    /// What a well-formed lexicon holds in the bucket of length `n`.
    pub proof fn lemma_bucket_words_valid(&self, n: nat, k: int)
        requires
            self.wf(),
            0 <= k < self.bucket_words(n).len(),
        ensures
            self.bucket_words(n)[k].len() == n,
            is_valid_word(self.bucket_words(n)[k]),
    {
        assert(self.bucket_words(n)[k] == self.buckets@[n as int]@[k]@);
    }

    /// Builds the lexicon of a word list, one word per line.
    ///
    /// Fails on the first line that is not a valid word: with `WordTooLong`
    /// where that line is made of lowercase letters and only too long, with
    /// `InvalidWord` otherwise.
    pub fn from_lines(lines: &Vec<String>) -> (r: Result<DictionaryData, GameError>)
        ensures
            match r {
                Ok(dict) => {
                    &&& dict.wf()
                    &&& forall|i: int|
                        0 <= i < lines@.len() ==> is_valid_word(#[trigger] line_views(lines@)[i])
                    &&& forall|n: nat|
                        dict.bucket_words(n) == words_of_len(line_views(lines@), n)
                },
                Err(GameError::InvalidWord { word, line }) => {
                    &&& first_invalid_line(line_views(lines@), line as int)
                    &&& word@ == lines@[line as int]@
                    &&& (word@.len() == 0 || !is_lowercase_word(word@))
                },
                Err(GameError::WordTooLong { word, line }) => {
                    &&& first_invalid_line(line_views(lines@), line as int)
                    &&& word@ == lines@[line as int]@
                    &&& is_lowercase_word(word@)
                    &&& word@.len() > MAX_WORD_LEN
                },
                Err(_) => false,
            },
    {
        let ghost all = line_views(lines@);
        let mut buckets: Vec<Vec<Vec<char>>> = Vec::new();
        let mut n: usize = 0;
        while n <= MAX_WORD_LEN
            invariant
                n <= MAX_WORD_LEN + 1,
                buckets@.len() == n,
                forall|m: int| 0 <= m < n ==> (#[trigger] buckets@[m])@.len() == 0,
            decreases MAX_WORD_LEN + 1 - n,
        {
            buckets.push(Vec::new());
            n += 1;
        }
        proof {
            assert forall|m: nat| m <= MAX_WORD_LEN implies word_views(buckets@[m as int]@)
                == words_of_len(all.take(0), m) by {
                reveal(Seq::filter);
                assert(word_views(buckets@[m as int]@) =~= all.take(0).filter(has_len(m)));
            }
        }
        let mut i: usize = 0;
        while i < lines.len()
            invariant
                all == line_views(lines@),
                i <= lines@.len(),
                buckets@.len() == MAX_WORD_LEN + 1,
                buckets@[0]@.len() == 0,
                forall|j: int| 0 <= j < i ==> is_valid_word(#[trigger] all[j]),
                forall|m: int, k: int|
                    0 <= m <= MAX_WORD_LEN && 0 <= k < buckets@[m]@.len() ==> {
                        &&& (#[trigger] buckets@[m]@[k])@.len() == m
                        &&& is_lowercase_word(buckets@[m]@[k]@)
                    },
                forall|m: nat|
                    m <= MAX_WORD_LEN ==> word_views(buckets@[m as int]@) == #[trigger] words_of_len(
                        all.take(i as int),
                        m,
                    ),
            decreases lines@.len() - i,
        {
            assert(all[i as int] == lines@[i as int]@);
            let parsed = parse_word(lines[i].as_str());
            match parsed {
                None => {
                    return Err(GameError::InvalidWord { word: lines[i].clone(), line: i });
                },
                Some(word) => {
                    let len = word.len();
                    if len == 0 {
                        return Err(GameError::InvalidWord { word: lines[i].clone(), line: i });
                    }
                    if len > MAX_WORD_LEN {
                        return Err(GameError::WordTooLong { word: lines[i].clone(), line: i });
                    }
                    let ghost before = buckets@;
                    let ghost w = word@;
                    buckets[len].push(word);
                    proof {
                        all.lemma_take_succ_push(i as int);
                        assert forall|m: nat| m <= MAX_WORD_LEN implies word_views(
                            buckets@[m as int]@,
                        ) == #[trigger] words_of_len(all.take(i as int + 1), m) by {
                            all.take(i as int).lemma_filter_push(w, has_len(m));
                            assert(word_views(before[m as int]@) == words_of_len(
                                all.take(i as int),
                                m,
                            ));
                            if m == len {
                                assert(word_views(buckets@[m as int]@) =~= word_views(
                                    before[m as int]@,
                                ).push(w));
                            } else {
                                assert(buckets@[m as int] == before[m as int]);
                            }
                        }
                    }
                },
            }
            i += 1;
        }
        let dict = DictionaryData { buckets };
        proof {
            all.lemma_take_len();
            assert forall|m: nat| dict.bucket_words(m) == words_of_len(all, m) by {
                if m <= MAX_WORD_LEN {
                    assert(word_views(buckets@[m as int]@) == words_of_len(
                        all.take(lines@.len() as int),
                        m,
                    ));
                } else {
                    assert(all.all(|w: Seq<char>| !has_len(m)(w))) by {
                        assert forall|j: int| 0 <= j < all.len() implies !has_len(m)(
                            #[trigger] all[j],
                        ) by {
                            assert(is_valid_word(all[j]));
                        }
                    }
                    all.lemma_all_neg_filter_empty(has_len(m));
                    assert(words_of_len(all, m) =~= Seq::empty());
                }
            }
        }
        Ok(dict)
    }

    /// The words of exactly `n` characters.
    pub fn bucket(&self, n: usize) -> (r: &Vec<Vec<char>>)
        requires
            self.wf(),
        ensures
            word_views(r@) == self.bucket_words(n as nat),
    {
        if n <= MAX_WORD_LEN {
            &self.buckets[n]
        } else {
            assert(word_views(self.buckets@[0]@) =~= Seq::empty());
            &self.buckets[0]
        }
    }
}

} // verus!
