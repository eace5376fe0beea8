use klpattern::{Exceptions, KLPTrie};

#[test]
fn exception_is_found_whatever_the_case() {
    let mut words = Exceptions::new();
    assert_eq!(words.insert(("cat".to_string(), vec![0, 5, 0])), None);
    assert_eq!(words.score("CAT"), Some(&vec![0, 5, 0]));
    assert_eq!(words.score("cat"), Some(&vec![0, 5, 0]));
    assert_eq!(words.score("Cat"), Some(&vec![0, 5, 0]));
    assert_eq!(words.score("dog"), None);
}

#[test]
fn exception_matches_whole_words_only() {
    let mut words = Exceptions::new();
    words.insert(("cat".to_string(), vec![0, 5, 0]));
    assert_eq!(words.score("ca"), None);
    assert_eq!(words.score("cats"), None);
    assert_eq!(words.score("at"), None);
    assert_eq!(words.score(""), None);
}

#[test]
fn exception_insert_returns_what_was_there() {
    let mut words = Exceptions::new();
    assert_eq!(words.insert(("cat".to_string(), vec![0, 5, 0])), None);
    assert_eq!(words.insert(("cat".to_string(), vec![1, 1])), Some(vec![0, 5, 0]));
    assert_eq!(words.score("cat"), Some(&vec![1, 1]));
    assert_eq!(words.insert(("dog".to_string(), vec![])), None);
    assert_eq!(words.score("dog"), Some(&vec![]));
    assert_eq!(words.score("cat"), Some(&vec![1, 1]));
}

#[test]
fn exception_is_stored_as_written() {
    let mut words = Exceptions::new();
    words.insert(("Cat".to_string(), vec![7]));
    // A word is looked up by its lowercase form, and that was not stored.
    assert_eq!(words.score("Cat"), None);
    assert_eq!(words.score("cat"), None);
    assert_eq!(words.score_normalized("Cat"), Some(&vec![7]));
    assert_eq!(words.0.len(), 1);
    assert!(words.0.contains_key("Cat"));
}

#[test]
fn exception_score_normalized_does_not_fold() {
    let mut words = Exceptions::new();
    words.insert(("cat".to_string(), vec![0, 5, 0]));
    assert_eq!(words.score_normalized("cat"), Some(&vec![0, 5, 0]));
    assert_eq!(words.score_normalized("CAT"), None);
}

#[test]
fn exception_scores_may_be_large() {
    let mut words = Exceptions::new();
    words.insert(("a".to_string(), vec![usize::MAX, 300]));
    assert_eq!(words.score("A"), Some(&vec![usize::MAX, 300]));
}

#[test]
fn new_dictionary_is_empty() {
    let words = Exceptions::new();
    assert!(words.is_empty());
    assert_eq!(words.score("cat"), None);
}

#[test]
fn dictionary_with_a_word_is_not_empty() {
    let mut words = Exceptions::new();
    words.insert(("cat".to_string(), vec![0, 5, 0]));
    assert!(!words.is_empty());
    let mut words = Exceptions::new();
    words.insert((String::new(), vec![]));
    assert!(!words.is_empty());
    assert_eq!(words.score(""), Some(&vec![]));
}

#[test]
fn dictionary_can_be_cloned() {
    let mut words = Exceptions::new();
    words.insert(("cat".to_string(), vec![0, 5, 0]));
    let copy = words.clone();
    words.insert(("cat".to_string(), vec![1]));
    assert_eq!(copy.score("cat"), Some(&vec![0, 5, 0]));
    assert_eq!(words.score("cat"), Some(&vec![1]));
}
