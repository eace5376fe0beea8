use klpattern::case::{chars_of, contains_uppercase, fold_case};
use klpattern::scoring::{bounded_chars, fold_tally};
use klpattern::{KLPTrie, Patterns};

fn store(pairs: &[(&str, &[u8])]) -> Patterns {
    let mut trie = Patterns::new();
    for (text, tally) in pairs {
        trie.insert((text.to_string(), tally.to_vec()));
    }
    trie
}

#[test]
fn one_pattern_scores_its_gap() {
    let trie = store(&[("ab", &[0, 1, 0])]);
    assert_eq!(trie.score("ab"), vec![1]);
}

#[test]
fn capitals_score_as_small_letters() {
    let trie = store(&[("ab", &[0, 1, 0])]);
    assert_eq!(trie.score("AB"), vec![1]);
    assert_eq!(trie.score("Ab"), vec![1]);
    assert_eq!(trie.score("aB"), vec![1]);
}

#[test]
fn one_letter_has_no_gap() {
    let trie = store(&[("a", &[9, 9])]);
    assert_eq!(trie.score("a"), Vec::<u8>::new());
    assert_eq!(Patterns::new().score("a"), Vec::<u8>::new());
}

#[test]
fn no_letter_has_no_gap() {
    let trie = store(&[("a", &[9, 9]), ("", &[9]), ("..", &[9, 9, 9])]);
    assert_eq!(trie.score(""), Vec::<u8>::new());
}

#[test]
fn empty_trie_scores_zero() {
    let trie = Patterns::new();
    assert_eq!(trie.score("hello"), vec![0, 0, 0, 0]);
}

#[test]
fn unmatched_word_scores_zero() {
    let trie = store(&[("xy", &[0, 9, 0]), ("q", &[9, 9])]);
    assert_eq!(trie.score("hello"), vec![0, 0, 0, 0]);
}

#[test]
fn score_has_one_entry_per_inner_gap() {
    let trie = store(&[("a", &[1, 2]), ("na", &[3, 4, 5])]);
    for word in ["", "a", "an", "ana", "banana", "\u{17c}\u{f3}\u{142}\u{107}", "bananabananabanana"] {
        let letters = word.chars().count();
        assert_eq!(trie.score(word).len(), letters.saturating_sub(1), "{}", word);
    }
}

#[test]
fn score_length_follows_the_lowercase_form() {
    // The capital I with a dot above is one character; its lowercase form is two.
    let trie = Patterns::new();
    assert_eq!("\u{130}".to_lowercase().chars().count(), 2);
    assert_eq!(trie.score("\u{130}"), vec![0]);
    assert_eq!(trie.score_normalized("\u{130}"), Vec::<u8>::new());
}

#[test]
fn patterns_lay_their_tallies_where_they_occur() {
    let trie = store(&[
        ("ll", &[0, 1, 0]),
        ("el", &[0, 2, 0]),
        (".h", &[0, 0, 7]),
        ("o.", &[3, 0, 0]),
    ]);
    assert_eq!(trie.score("hello"), vec![7, 2, 1, 3]);
    assert_eq!(trie.score("HELLO"), vec![7, 2, 1, 3]);
    assert_eq!(trie.score("Hello"), vec![7, 2, 1, 3]);
}

#[test]
fn boundary_patterns_match_only_at_the_boundary() {
    let trie = store(&[(".l", &[0, 0, 6]), ("l.", &[6, 0, 0])]);
    assert_eq!(trie.score("hello"), vec![0, 0, 0, 0]);
    assert_eq!(trie.score("lull"), vec![6, 0, 6]);
}

#[test]
fn the_greater_value_wins_a_gap() {
    let trie = store(&[("ab", &[0, 3, 0]), ("b", &[5, 0])]);
    assert_eq!(trie.score("ab"), vec![5]);
    let trie = store(&[("ab", &[0, 3, 0]), ("b", &[5, 0]), ("a", &[0, 4])]);
    assert_eq!(trie.score("ab"), vec![5]);
    let trie = store(&[("b", &[2, 0]), ("ab", &[0, 3, 0])]);
    assert_eq!(trie.score("ab"), vec![3]);
}

#[test]
fn equal_values_do_not_add_up() {
    let trie = store(&[("ab", &[0, 200, 0]), ("b", &[200, 0]), ("a", &[0, 200])]);
    assert_eq!(trie.score("ab"), vec![200]);
}

#[test]
fn a_pattern_scores_each_place_where_it_occurs() {
    let trie = store(&[("an", &[0, 1, 2])]);
    // b a n a n a: "an" stands at letters 1 and 3.
    assert_eq!(trie.score("banana"), vec![0, 1, 2, 1, 2]);
}

#[test]
fn hyphenation_of_a_longer_word() {
    let trie = store(&[
        ("hy", &[0, 0, 3]),
        ("hen", &[0, 0, 2, 0]),
        ("hena", &[0, 0, 0, 0, 4]),
        ("henat", &[0, 0, 0, 5, 0, 0]),
        ("na", &[1, 0, 0]),
        ("nat", &[0, 2, 0, 0]),
        ("tio", &[1, 0, 0, 0]),
        ("io", &[2, 0, 0]),
    ]);
    // h y p h e n a t i o n
    assert_eq!(trie.score("hyphenation"), vec![0, 3, 0, 0, 2, 5, 4, 2, 0, 0]);
}

#[test]
fn a_tally_is_cut_at_the_ends_of_the_word() {
    // The tally is longer than its text asks for: what falls outside the
    // inner gaps is dropped.
    let trie = store(&[("a", &[1, 2, 3, 4, 5, 6, 7])]);
    assert_eq!(trie.score("ab"), vec![2]);
    assert_eq!(trie.score("ba"), vec![1]);
    assert_eq!(trie.score("abcd"), vec![2, 3, 4]);
}

#[test]
fn a_short_tally_lays_what_it_has() {
    let trie = store(&[("abc", &[0, 8]), ("bcd", &[])]);
    assert_eq!(trie.score("abcd"), vec![8, 0, 0]);
}

#[test]
fn a_pattern_of_no_characters_lays_nothing() {
    let trie = store(&[("", &[9, 9, 9, 9, 9, 9, 9, 9])]);
    assert_eq!(trie.score("hello"), vec![0, 0, 0, 0]);
}

#[test]
fn pattern_text_is_not_folded() {
    let trie = store(&[("AB", &[0, 7, 0])]);
    assert_eq!(trie.score("AB"), vec![0]);
    assert_eq!(trie.score("ab"), vec![0]);
    assert_eq!(trie.score_normalized("AB"), vec![7]);
}

#[test]
fn score_normalized_does_not_fold() {
    let trie = store(&[("ab", &[0, 1, 0])]);
    assert_eq!(trie.score_normalized("ab"), vec![1]);
    assert_eq!(trie.score_normalized("AB"), vec![0]);
}

#[test]
fn insert_returns_what_was_there() {
    let mut trie = Patterns::new();
    assert_eq!(trie.insert(("ab".to_string(), vec![0, 1, 0])), None);
    assert_eq!(trie.insert(("ab".to_string(), vec![0, 4, 0])), Some(vec![0, 1, 0]));
    assert_eq!(trie.insert(("ab".to_string(), vec![])), Some(vec![0, 4, 0]));
    assert_eq!(trie.insert(("a".to_string(), vec![1])), None);
    assert_eq!(trie.insert(("abc".to_string(), vec![2])), None);
    assert_eq!(trie.insert(("a".to_string(), vec![3])), Some(vec![1]));
}

#[test]
fn a_second_insert_replaces_the_first() {
    let mut trie = Patterns::new();
    trie.insert(("ab".to_string(), vec![0, 9, 0]));
    assert_eq!(trie.score("ab"), vec![9]);
    assert_eq!(trie.insert(("ab".to_string(), vec![0, 2, 0])), Some(vec![0, 9, 0]));
    assert_eq!(trie.score("ab"), vec![2]);
    let fresh = store(&[("ab", &[0, 2, 0])]);
    for word in ["ab", "abab", "cab", "ba"] {
        assert_eq!(trie.score(word), fresh.score(word));
    }
}

#[test]
fn patterns_with_one_start_share_their_nodes() {
    let mut trie = Patterns::new();
    trie.insert(("ab".to_string(), vec![0, 1, 0]));
    trie.insert(("ac".to_string(), vec![0, 2, 0]));
    trie.insert(("abc".to_string(), vec![0, 0, 3, 0]));
    assert_eq!(trie.descendants.len(), 1);
    let a = trie.descendants.get(&'a').unwrap();
    assert_eq!(a.tally, None);
    assert_eq!(a.descendants.len(), 2);
    let ab = a.descendants.get(&'b').unwrap();
    assert_eq!(ab.tally, Some(vec![0, 1, 0]));
    assert_eq!(ab.descendants.get(&'c').unwrap().tally, Some(vec![0, 0, 3, 0]));
    assert_eq!(a.descendants.get(&'c').unwrap().tally, Some(vec![0, 2, 0]));
    assert_eq!(trie.score("abc"), vec![1, 3]);
    assert_eq!(trie.score("ac"), vec![2]);
}

#[test]
fn new_trie_is_empty() {
    let trie = Patterns::new();
    assert!(trie.is_empty());
    assert_eq!(trie.tally, None);
    assert!(trie.descendants.is_empty());
}

#[test]
fn trie_with_a_pattern_is_not_empty() {
    let mut trie = Patterns::new();
    trie.insert(("a".to_string(), vec![0, 1]));
    assert!(!trie.is_empty());
}

#[test]
fn pattern_of_no_characters_leaves_the_trie_empty() {
    let mut trie = Patterns::new();
    assert_eq!(trie.insert((String::new(), vec![1])), None);
    assert!(trie.is_empty());
    assert_eq!(trie.tally, Some(vec![1]));
    assert_eq!(trie.insert((String::new(), vec![2])), Some(vec![1]));
    assert!(trie.is_empty());
    trie.insert(("x".to_string(), vec![]));
    assert!(!trie.is_empty());
    trie.insert((String::new(), vec![3]));
    assert!(!trie.is_empty());
}

#[test]
fn fold_tally_keeps_the_greater() {
    let mut points = vec![0, 0, 0];
    fold_tally(&mut points, &vec![1, 2, 3], 1);
    assert_eq!(points, vec![2, 3, 0]);
    fold_tally(&mut points, &vec![9, 1, 1], 2);
    assert_eq!(points, vec![9, 3, 1]);
    fold_tally(&mut points, &vec![7, 7, 7], 0);
    assert_eq!(points, vec![9, 3, 1]);
    fold_tally(&mut points, &vec![4, 4, 4, 4], 4);
    assert_eq!(points, vec![9, 3, 4]);
    fold_tally(&mut points, &vec![8, 8], 5);
    assert_eq!(points, vec![9, 3, 4]);
    fold_tally(&mut points, &vec![], 2);
    assert_eq!(points, vec![9, 3, 4]);
}

#[test]
fn fold_tally_on_no_points() {
    let mut points: Vec<u8> = vec![];
    fold_tally(&mut points, &vec![1, 2, 3], 0);
    assert_eq!(points, Vec::<u8>::new());
}

#[test]
fn capitals_are_found() {
    assert!(!contains_uppercase(""));
    assert!(!contains_uppercase("hello"));
    assert!(!contains_uppercase("hello, world 42."));
    assert!(contains_uppercase("Hello"));
    assert!(contains_uppercase("hellO"));
    assert!(contains_uppercase("\u{e9}t\u{c9}"));
    assert!(!contains_uppercase("\u{e9}t\u{e9}"));
}

#[test]
fn fold_case_lowers_only_words_with_capitals() {
    assert_eq!(fold_case("hello"), None);
    assert_eq!(fold_case(""), None);
    assert_eq!(fold_case("Hello"), Some("hello".to_string()));
    assert_eq!(fold_case("HELLO"), Some("hello".to_string()));
    assert_eq!(fold_case("\u{c9}T\u{c9}"), Some("\u{e9}t\u{e9}".to_string()));
    // A titlecase digraph is no capital, so the word stays as it is.
    assert_eq!(fold_case("\u{1c5}"), None);
}

#[test]
fn chars_of_gives_the_characters() {
    assert_eq!(chars_of(""), Vec::<char>::new());
    assert_eq!(chars_of("a.b"), vec!['a', '.', 'b']);
    assert_eq!(chars_of("\u{e9}t\u{e9}"), vec!['\u{e9}', 't', '\u{e9}']);
}

#[test]
fn words_of_other_alphabets_are_scored_by_character() {
    let trie = store(&[("\u{3b1}\u{3b2}", &[0, 4, 0])]);
    assert_eq!(trie.score("\u{3b1}\u{3b2}\u{3b3}"), vec![4, 0]);
    assert_eq!(trie.score("\u{391}\u{392}\u{393}"), vec![4, 0]);
}

#[test]
fn bounded_chars_sets_the_marks() {
    assert_eq!(bounded_chars(""), vec!['.', '.']);
    assert_eq!(bounded_chars("ab"), vec!['.', 'a', 'b', '.']);
    assert_eq!(bounded_chars("\u{e9}"), vec!['.', '\u{e9}', '.']);
}

fn fresh_is_empty<'a, T: KLPTrie<'a>>() -> bool {
    T::new().is_empty()
}

#[test]
fn every_new_store_is_empty() {
    assert!(fresh_is_empty::<Patterns>());
    assert!(fresh_is_empty::<klpattern::Exceptions>());
}
