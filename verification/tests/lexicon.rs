use hangman::error::GameError;
use hangman::letters::{all_letters, is_lowercase};
use hangman::lexicon::{parse_word, DictionaryData};

fn lines(words: &[&str]) -> Vec<String> {
    words.iter().map(|w| w.to_string()).collect()
}

fn chars(word: &str) -> Vec<char> {
    word.chars().collect()
}

#[test]
fn buckets_group_words_by_length_in_order() {
    let dict = DictionaryData::from_lines(&lines(&["cat", "a", "horse", "car", "i", "can"]))
        .unwrap();
    assert_eq!(dict.bucket(3), &vec![chars("cat"), chars("car"), chars("can")]);
    assert_eq!(dict.bucket(1), &vec![chars("a"), chars("i")]);
    assert_eq!(dict.bucket(5), &vec![chars("horse")]);
    assert!(dict.bucket(2).is_empty());
}

#[test]
fn bucket_of_unsupported_length_is_empty() {
    let dict = DictionaryData::from_lines(&lines(&["cat"])).unwrap();
    assert!(dict.bucket(0).is_empty());
    assert!(dict.bucket(51).is_empty());
    assert!(dict.bucket(usize::MAX).is_empty());
}

#[test]
fn duplicate_lines_are_kept() {
    let dict = DictionaryData::from_lines(&lines(&["cat", "cat"])).unwrap();
    assert_eq!(dict.bucket(3).len(), 2);
}

#[test]
fn empty_word_list_gives_empty_lexicon() {
    let dict = DictionaryData::from_lines(&Vec::new()).unwrap();
    for n in 0..=51 {
        assert!(dict.bucket(n).is_empty());
    }
}

#[test]
fn uppercase_line_is_invalid() {
    let r = DictionaryData::from_lines(&lines(&["Cat"]));
    assert_eq!(
        r.err(),
        Some(GameError::InvalidWord { word: "Cat".to_string(), line: 0 })
    );
}

#[test]
fn invalid_line_is_reported_by_its_index() {
    let r = DictionaryData::from_lines(&lines(&["cat", "dog", "b1rd", "Cow"]));
    assert_eq!(
        r.err(),
        Some(GameError::InvalidWord { word: "b1rd".to_string(), line: 2 })
    );
}

#[test]
fn non_ascii_line_is_invalid() {
    let r = DictionaryData::from_lines(&lines(&["na\u{ef}ve"]));
    assert_eq!(
        r.err(),
        Some(GameError::InvalidWord { word: "na\u{ef}ve".to_string(), line: 0 })
    );
}

#[test]
fn empty_line_is_invalid() {
    let r = DictionaryData::from_lines(&lines(&["cat", ""]));
    assert_eq!(
        r.err(),
        Some(GameError::InvalidWord { word: String::new(), line: 1 })
    );
}

#[test]
fn fifty_letters_are_accepted() {
    let word = "a".repeat(50);
    let dict = DictionaryData::from_lines(&vec![word.clone()]).unwrap();
    assert_eq!(dict.bucket(50), &vec![chars(&word)]);
}

#[test]
fn fifty_one_letters_are_too_long() {
    let word = "a".repeat(51);
    let r = DictionaryData::from_lines(&vec!["cat".to_string(), word.clone()]);
    assert_eq!(r.err(), Some(GameError::WordTooLong { word, line: 1 }));
}

#[test]
fn long_line_with_bad_character_is_invalid_not_too_long() {
    let word = format!("{}X", "a".repeat(60));
    let r = DictionaryData::from_lines(&vec![word.clone()]);
    assert_eq!(r.err(), Some(GameError::InvalidWord { word, line: 0 }));
}

#[test]
fn first_offending_line_decides_the_error() {
    let long = "b".repeat(51);
    let r = DictionaryData::from_lines(&vec![long.clone(), "Cat".to_string()]);
    assert_eq!(r.err(), Some(GameError::WordTooLong { word: long, line: 0 }));
}

#[test]
fn parse_word_accepts_lowercase_only() {
    assert_eq!(parse_word("cat"), Some(chars("cat")));
    assert_eq!(parse_word(""), Some(Vec::new()));
    assert_eq!(parse_word("caT"), None);
    assert_eq!(parse_word("c t"), None);
    assert_eq!(parse_word("c\u{e9}t"), None);
    assert_eq!(parse_word("`"), None);
    assert_eq!(parse_word("{"), None);
}

#[test]
fn alphabet_is_a_to_z() {
    assert_eq!(all_letters(), ('a'..='z').collect::<Vec<char>>());
}

#[test]
fn lowercase_test_has_exact_bounds() {
    assert!(is_lowercase('a'));
    assert!(is_lowercase('z'));
    assert!(!is_lowercase('`'));
    assert!(!is_lowercase('{'));
    assert!(!is_lowercase('A'));
}
