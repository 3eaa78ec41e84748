use hangman::error::GameError;
use hangman::lexicon::DictionaryData;
use hangman::turn::{copy_clues, position_of, render_clues, reveal_hits, TurnPertinentInfo};

fn dict(words: &[&str]) -> DictionaryData {
    let lines: Vec<String> = words.iter().map(|w| w.to_string()).collect();
    DictionaryData::from_lines(&lines).unwrap()
}

fn chars(word: &str) -> Vec<char> {
    word.chars().collect()
}

fn text(clues: &Vec<Option<char>>) -> String {
    render_clues(clues).into_iter().collect()
}

fn candidates(game: &TurnPertinentInfo) -> Vec<String> {
    let set = game.pertinent_words();
    (0..set.len()).map(|k| set.word(k).iter().collect()).collect()
}

#[test]
fn new_game_starts_blank() {
    let d = dict(&["cat", "car", "can", "horse"]);
    let game = TurnPertinentInfo::new_with_dictionary_data_and_word(&d, "cat").unwrap();
    assert_eq!(game.turn(), 0);
    assert_eq!(game.failed_attempts(), 0);
    assert_eq!(game.word(), &chars("cat"));
    assert_eq!(game.word_clues(), &vec![None, None, None]);
    assert_eq!(game.unattempted_chars(), &('a'..='z').collect::<Vec<char>>());
    assert_eq!(candidates(&game), vec!["cat", "car", "can"]);
    assert!(!game.is_solved());
}

#[test]
fn cat_among_cat_car_can() {
    let d = dict(&["cat", "car", "can"]);
    let mut game = TurnPertinentInfo::new_with_dictionary_data_and_word(&d, "cat").unwrap();

    let first = game.next_turn().unwrap();
    assert_eq!(first.letter, 'a');
    assert!(first.hit);
    assert_eq!(text(&first.clues), "?a?");
    assert_eq!(candidates(&game), vec!["cat", "car", "can"]);

    let second = game.next_turn().unwrap();
    assert_eq!(second.letter, 'c');
    assert!(second.hit);
    assert_eq!(text(&second.clues), "ca?");
    assert_eq!(candidates(&game), vec!["cat", "car", "can"]);
    assert_eq!(game.failed_attempts(), 0);

    let third = game.next_turn().unwrap();
    assert_eq!(third.letter, 'n');
    assert!(!third.hit);
    assert_eq!(text(&third.clues), "ca?");
    assert_eq!(candidates(&game), vec!["cat", "car"]);
    assert_eq!(game.failed_attempts(), 1);

    let fourth = game.next_turn().unwrap();
    assert_eq!(fourth.letter, 'r');
    assert!(!fourth.hit);
    assert_eq!(candidates(&game), vec!["cat"]);
    assert_eq!(game.failed_attempts(), 2);

    let fifth = game.next_turn().unwrap();
    assert_eq!(fifth.letter, 't');
    assert!(fifth.hit);
    assert_eq!(text(&fifth.clues), "cat");
    assert_eq!(candidates(&game), vec!["cat"]);
    assert_eq!(game.turn(), 5);
    assert_eq!(game.failed_attempts(), 2);
    assert!(game.is_solved());
}

#[test]
fn secret_missing_from_dictionary_is_refused() {
    let d = dict(&["cat", "car", "can"]);
    let r = TurnPertinentInfo::new_with_dictionary_data_and_word(&d, "cab");
    assert_eq!(
        r.err(),
        Some(GameError::WordNotInDictionary { word: "cab".to_string() })
    );
}

#[test]
fn secret_of_a_length_without_words_is_refused() {
    let d = dict(&["cat"]);
    for word in ["", "cats", "Cat", "c4t"] {
        let r = TurnPertinentInfo::new_with_dictionary_data_and_word(&d, word);
        assert_eq!(
            r.err(),
            Some(GameError::WordNotInDictionary { word: word.to_string() })
        );
    }
    let long = "a".repeat(80);
    let r = TurnPertinentInfo::new_with_dictionary_data_and_word(&d, &long);
    assert_eq!(r.err(), Some(GameError::WordNotInDictionary { word: long }));
}

#[test]
fn solved_game_refuses_a_turn_and_stays_as_it_is() {
    let d = dict(&["a"]);
    let mut game = TurnPertinentInfo::new_with_dictionary_data_and_word(&d, "a").unwrap();
    let only = game.next_turn().unwrap();
    assert_eq!(only.letter, 'a');
    assert!(game.is_solved());
    let letters_left = game.unattempted_chars().clone();
    for _ in 0..3 {
        assert_eq!(game.next_turn().err(), Some(GameError::AlreadySolved));
        assert_eq!(game.turn(), 1);
        assert_eq!(game.failed_attempts(), 0);
        assert_eq!(game.word_clues(), &vec![Some('a')]);
        assert_eq!(game.unattempted_chars(), &letters_left);
        assert_eq!(candidates(&game), vec!["a"]);
    }
}

#[test]
fn every_turn_keeps_what_is_known_and_uses_up_one_letter() {
    let d = dict(&[
        "intrepidness",
        "acceleration",
        "bibliography",
        "casualnesses",
        "indebtedness",
        "interpreters",
        "cat",
    ]);
    let mut game =
        TurnPertinentInfo::new_with_dictionary_data_and_word(&d, "intrepidness").unwrap();
    let mut guessed: Vec<char> = Vec::new();
    while !game.is_solved() {
        let clues_before = game.word_clues().clone();
        let left_before = game.unattempted_chars().clone();
        let turn_before = game.turn();
        let failed_before = game.failed_attempts();

        let outcome = game.next_turn().unwrap();

        assert!(candidates(&game).contains(&"intrepidness".to_string()));
        for (old, new) in clues_before.iter().zip(game.word_clues()) {
            if old.is_some() {
                assert_eq!(old, new);
            }
        }
        assert_eq!(&outcome.clues, game.word_clues());
        assert!(left_before.contains(&outcome.letter));
        assert_eq!(game.unattempted_chars().len() + 1, left_before.len());
        guessed.push(outcome.letter);
        for c in &guessed {
            assert!(!game.unattempted_chars().contains(c));
        }
        assert_eq!(game.turn(), turn_before + 1);
        assert_eq!(outcome.hit, "intrepidness".contains(outcome.letter));
        assert_eq!(
            game.failed_attempts(),
            failed_before + if outcome.hit { 0 } else { 1 }
        );
        assert!(game.turn() <= 26);
    }
    assert_eq!(text(game.word_clues()), "intrepidness");
    assert_eq!(candidates(&game), vec!["intrepidness"]);
}

#[test]
fn lone_word_is_found_without_a_miss() {
    let d = dict(&["zebra"]);
    let mut game = TurnPertinentInfo::new_with_dictionary_data_and_word(&d, "zebra").unwrap();
    let mut letters = String::new();
    while !game.is_solved() {
        letters.push(game.next_turn().unwrap().letter);
    }
    assert_eq!(letters, "aberz");
    assert_eq!(game.failed_attempts(), 0);
    assert_eq!(game.turn(), 5);
}

#[test]
fn repeated_letter_is_revealed_everywhere_at_once() {
    let d = dict(&["banana"]);
    let mut game = TurnPertinentInfo::new_with_dictionary_data_and_word(&d, "banana").unwrap();
    let first = game.next_turn().unwrap();
    assert_eq!(first.letter, 'a');
    assert_eq!(text(&first.clues), "?a?a?a");
}

#[test]
fn reveal_hits_marks_positions_and_fills_clues() {
    let mut clues = vec![None, Some('a'), None, None, None, None];
    let hits = reveal_hits(&chars("banana"), &mut clues, 'n');
    assert_eq!(hits, vec![false, false, true, false, true, false]);
    assert_eq!(clues, vec![None, Some('a'), Some('n'), None, Some('n'), None]);
    let none = reveal_hits(&chars("banana"), &mut clues, 'x');
    assert_eq!(none, vec![false; 6]);
    assert_eq!(clues, vec![None, Some('a'), Some('n'), None, Some('n'), None]);
}

#[test]
fn clues_render_with_question_marks() {
    assert_eq!(text(&vec![None, Some('a'), None]), "?a?");
    assert_eq!(text(&Vec::new()), "");
    assert_eq!(copy_clues(&vec![None, Some('q')]), vec![None, Some('q')]);
}

#[test]
fn position_of_finds_the_first_occurrence() {
    assert_eq!(position_of(&chars("abc"), 'a'), 0);
    assert_eq!(position_of(&chars("abc"), 'c'), 2);
    assert_eq!(position_of(&chars("abca"), 'a'), 0);
}
