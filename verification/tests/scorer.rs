use hangman::candidates::{has_hit, same_word, should_be_discarded, word_contains, CandidateSet};
use hangman::lexicon::DictionaryData;
use hangman::scorer::{best_char, count_containing};

fn dict(words: &[&str]) -> DictionaryData {
    let lines: Vec<String> = words.iter().map(|w| w.to_string()).collect();
    DictionaryData::from_lines(&lines).unwrap()
}

fn chars(word: &str) -> Vec<char> {
    word.chars().collect()
}

#[test]
fn repeated_letter_counts_once_per_word() {
    let d = dict(&["banana", "cherry", "tomato"]);
    let c = CandidateSet::full(d.bucket(6));
    assert_eq!(count_containing(&c, 'a'), 2);
    assert_eq!(count_containing(&c, 'r'), 1);
    assert_eq!(count_containing(&c, 'z'), 0);
}

#[test]
fn best_char_takes_the_highest_count() {
    let d = dict(&["bob", "bib", "bub", "oxo"]);
    let c = CandidateSet::full(d.bucket(3));
    assert_eq!(best_char(&c, &chars("abiouxz")), 'b');
    assert_eq!(best_char(&c, &chars("aiouxz")), 'o');
}

#[test]
fn best_char_breaks_ties_alphabetically() {
    let d = dict(&["cat", "car", "can"]);
    let c = CandidateSet::full(d.bucket(3));
    assert_eq!(best_char(&c, &('a'..='z').collect()), 'a');
    assert_eq!(best_char(&c, &chars("tca")), 'a');
    assert_eq!(best_char(&c, &chars("trn")), 'n');
    assert_eq!(best_char(&c, &chars("c")), 'c');
}

#[test]
fn best_char_without_candidates_is_first_in_alphabet() {
    let d = dict(&["cat"]);
    let c = CandidateSet::full(d.bucket(7));
    assert_eq!(c.len(), 0);
    assert_eq!(best_char(&c, &chars("qzmb")), 'b');
    assert_eq!(best_char(&c, &('a'..='z').collect()), 'a');
}

#[test]
fn best_char_accepts_a_repeated_letter() {
    let d = dict(&["dog"]);
    let c = CandidateSet::full(d.bucket(3));
    assert_eq!(best_char(&c, &chars("zggd")), 'd');
}

#[test]
fn hit_keeps_words_with_the_letter_at_every_hit_position() {
    let hits = vec![false, true, false];
    assert!(!should_be_discarded(&chars("cat"), &hits, 'a'));
    assert!(!should_be_discarded(&chars("aaa"), &hits, 'a'));
    assert!(should_be_discarded(&chars("cot"), &hits, 'a'));
    assert!(should_be_discarded(&chars("act"), &hits, 'a'));
}

#[test]
fn hit_at_several_positions_needs_all_of_them() {
    let hits = vec![true, false, true];
    assert!(!should_be_discarded(&chars("bob"), &hits, 'b'));
    assert!(should_be_discarded(&chars("bog"), &hits, 'b'));
    assert!(should_be_discarded(&chars("rob"), &hits, 'b'));
}

#[test]
fn miss_discards_words_that_hold_the_letter() {
    let hits = vec![false, false, false];
    assert!(should_be_discarded(&chars("cat"), &hits, 't'));
    assert!(should_be_discarded(&chars("tic"), &hits, 't'));
    assert!(!should_be_discarded(&chars("car"), &hits, 't'));
}

#[test]
fn word_too_short_for_a_hit_is_discarded() {
    let hits = vec![false, false, true];
    assert!(should_be_discarded(&chars("at"), &hits, 't'));
}

#[test]
fn has_hit_finds_any_true() {
    assert!(!has_hit(&Vec::new()));
    assert!(!has_hit(&vec![false, false]));
    assert!(has_hit(&vec![false, true]));
}

#[test]
fn words_compare_by_content() {
    assert!(same_word(&chars("cat"), &chars("cat")));
    assert!(!same_word(&chars("cat"), &chars("car")));
    assert!(!same_word(&chars("cat"), &chars("cats")));
    assert!(same_word(&Vec::new(), &Vec::new()));
    assert!(word_contains(&chars("cat"), 't'));
    assert!(!word_contains(&chars("cat"), 'r'));
}

#[test]
fn elimination_keeps_survivors_in_order() {
    let d = dict(&["cat", "dog", "car", "cot", "bat"]);
    let mut c = CandidateSet::full(d.bucket(3));
    c.eliminate(&vec![false, true, false], 'a');
    assert_eq!(c.len(), 3);
    assert_eq!(c.word(0), &chars("cat"));
    assert_eq!(c.word(1), &chars("car"));
    assert_eq!(c.word(2), &chars("bat"));
    assert!(c.has_word(&chars("bat")));
    assert!(!c.has_word(&chars("dog")));
    c.eliminate(&vec![false, false, false], 'r');
    assert_eq!(c.len(), 2);
    assert_eq!(c.word(0), &chars("cat"));
    assert_eq!(c.word(1), &chars("bat"));
}

#[test]
fn elimination_does_not_depend_on_scan_order() {
    let one = dict(&["cat", "dog", "car", "cot", "bat", "cat"]);
    let other = dict(&["bat", "cat", "cot", "cat", "car", "dog"]);
    let mut a = CandidateSet::full(one.bucket(3));
    let mut b = CandidateSet::full(other.bucket(3));
    a.eliminate(&vec![true, false, false], 'c');
    b.eliminate(&vec![true, false, false], 'c');
    let mut left: Vec<Vec<char>> = (0..a.len()).map(|k| a.word(k).clone()).collect();
    let mut right: Vec<Vec<char>> = (0..b.len()).map(|k| b.word(k).clone()).collect();
    left.sort();
    right.sort();
    assert_eq!(left, right);
    assert_eq!(left, vec![chars("car"), chars("cat"), chars("cat"), chars("cot")]);
}
