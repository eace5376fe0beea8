//! The dictionary of exceptions: whole words with ready-made scores.

use crate::case::{case_folded, fold_case};
use crate::klp_trie::KLPTrie;
use std::collections::HashMap;
use vstd::prelude::*;

verus! {

/// Words that are not scored by patterns, each with the scores it has
/// instead. A word is found only as a whole.
#[derive(Clone, Debug)]
pub struct Exceptions(pub HashMap<String, Vec<usize>>);

/// Calls `HashMap::get` with a string key. Trusted: the map finds the entry
/// whose key has the characters of `word` exactly if there is one, because
/// strings hash and compare by their characters.
#[verifier::external_body]
fn entry_ref<'a>(m: &'a HashMap<String, Vec<usize>>, word: &str) -> (r: Option<&'a Vec<usize>>)
    ensures
        match r {
            Some(v) => m.deep_view().contains_key(word@) && m.deep_view()[word@] == v@,
            None => !m.deep_view().contains_key(word@),
        },
{
    m.get(word)
}

/// Calls `HashMap::insert` with a string key. Trusted: the map then holds
/// `scores` under the characters of `word`, all else as before, and what is
/// returned is what it held under them before.
#[verifier::external_body]
fn put_entry(m: &mut HashMap<String, Vec<usize>>, word: String, scores: Vec<usize>) -> (r: Option<
    Vec<usize>,
>)
    ensures
        final(m).deep_view() == old(m).deep_view().insert(word@, scores@),
        match r {
            Some(v) => old(m).deep_view().contains_key(word@) && old(m).deep_view()[word@] == v@,
            None => !old(m).deep_view().contains_key(word@),
        },
{
    m.insert(word, scores)
}

impl View for Exceptions {
    type V = Map<Seq<char>, Seq<usize>>;

    /// The stored words, each with its scores.
    open spec fn view(&self) -> Map<Seq<char>, Seq<usize>> {
        self.0.deep_view()
    }
}

impl Exceptions {
    /// The scores stored for exactly the text `word`, with no regard to
    /// the case of its letters.
    pub fn score_normalized<'a>(&'a self, word: &str) -> (r: Option<&'a Vec<usize>>)
        ensures
            match r {
                Some(v) => self@.contains_key(word@) && self@[word@] == v@,
                None => !self@.contains_key(word@),
            },
    {
        entry_ref(&self.0, word)
    }
}

impl<'a> KLPTrie<'a> for Exceptions {
    type Tally = Vec<usize>;

    type Score = Option<&'a Vec<usize>>;

    open spec fn entries(&self) -> Map<Seq<char>, Seq<usize>> {
        self@
    }

    /// The answer is what is stored under the text, if anything is.
    open spec fn answers(
        entries: Map<Seq<char>, Seq<usize>>,
        text: Seq<char>,
        score: Option<&'a Vec<usize>>,
    ) -> bool {
        match score {
            Some(v) => entries.contains_key(text) && entries[text] == v@,
            None => !entries.contains_key(text),
        }
    }

    /// The dictionary is empty if it holds no word.
    open spec fn empty(&self) -> bool {
        self@ == Map::<Seq<char>, Seq<usize>>::empty()
    }

    /// A dictionary that holds no word.
    fn new() -> (r: Exceptions)
        ensures
            r@ == Map::<Seq<char>, Seq<usize>>::empty(),
    {
        let m: HashMap<String, Vec<usize>> = HashMap::new();
        proof {
            vstd::std_specs::hash::lemma_hashmap_deepview_dom(m);
            assert(m@.dom().map(|k: String| k.deep_view()) =~= Set::<Seq<char>>::empty());
            assert(m.deep_view() =~= Map::<Seq<char>, Seq<usize>>::empty());
        }
        Exceptions(m)
    }

    /// Stores the scores `pair.1` under the word `pair.0` as it is written,
    /// and returns the scores that the word had before.
    fn insert(&mut self, pair: (String, Vec<usize>)) -> (r: Option<Vec<usize>>)
        ensures
            final(self)@ == old(self)@.insert(pair.0@, pair.1@),
            match r {
                Some(v) => old(self)@.contains_key(pair.0@) && old(self)@[pair.0@] == v@,
                None => !old(self)@.contains_key(pair.0@),
            },
    {
        let (word, scores) = pair;
        put_entry(&mut self.0, word, scores)
    }

    /// The scores stored for `word`, whatever the case of its letters: those
    /// stored for its lowercase form if it holds a capital, else those
    /// stored for the word itself.
    fn score(&'a self, word: &str) -> (r: Option<&'a Vec<usize>>)
        ensures
            match r {
                Some(v) => self@.contains_key(case_folded(word@)) && self@[case_folded(word@)]
                    == v@,
                None => !self@.contains_key(case_folded(word@)),
            },
    {
        match fold_case(word) {
            Some(lower) => self.score_normalized(lower.as_str()),
            None => self.score_normalized(word),
        }
    }

    /// Whether no word is stored.
    fn is_empty(&self) -> (b: bool)
        ensures
            b <==> self@ == Map::<Seq<char>, Seq<usize>>::empty(),
    {
        let b = self.0.is_empty();
        proof {
            vstd::std_specs::hash::lemma_hashmap_deepview_dom(self.0);
            let f = |k: String| k.deep_view();
            if b {
                assert(self.0@.dom().map(f) =~= Set::<Seq<char>>::empty());
                assert(self@ =~= Map::<Seq<char>, Seq<usize>>::empty());
            } else {
                let k = choose|k: String| self.0@.dom().contains(k);
                assert(self.0@.dom().map(f).contains(f(k)));
                assert(self@.contains_key(f(k)));
            }
        }
        b
    }
}

} // verus!
