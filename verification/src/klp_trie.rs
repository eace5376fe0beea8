//! The operations that both stores offer.

use crate::case::case_folded;
use vstd::prelude::*;

verus! {

/// A store of Knuth-Liang hyphenation data: it is built empty, filled pair
/// by pair, and then asked for the score of words.
///
/// To the contracts a store is the map of what was put into it: each text
/// with the values stored under it. A word is answered from that map and
/// from the text by which it is looked up, which is its lowercase form if
/// it holds a capital.
pub trait KLPTrie<'a>: Sized {
    /// What is stored with each text.
    type Tally: View;

    /// What a word is answered with.
    type Score;

    /// What is stored: each text with the values stored under it.
    spec fn entries(&self) -> Map<Seq<char>, <Self::Tally as View>::V>;

    /// Whether `score` is what a store that holds `entries` answers to the
    /// look-up text `text`.
    spec fn answers(
        entries: Map<Seq<char>, <Self::Tally as View>::V>,
        text: Seq<char>,
        score: Self::Score,
    ) -> bool;

    /// What `is_empty` tells of the store.
    spec fn empty(&self) -> bool;

    /// A store that holds nothing.
    fn new() -> (r: Self)
        ensures
            r.entries() == Map::<Seq<char>, <Self::Tally as View>::V>::empty(),
            r.empty(),
    ;

    /// Stores `pair.1` under the text `pair.0`, and returns what was stored
    /// under that text before, if anything was.
    fn insert(&mut self, pair: (String, Self::Tally)) -> (r: Option<Self::Tally>)
        ensures
            final(self).entries() == old(self).entries().insert(pair.0@, pair.1@),
            match r {
                Some(t) => old(self).entries().contains_key(pair.0@) && old(self).entries()[pair.0@]
                    == t@,
                None => !old(self).entries().contains_key(pair.0@),
            },
    ;

    /// The score of `word`, whatever the case of its letters.
    fn score(&'a self, word: &str) -> (r: Self::Score)
        ensures
            Self::answers(self.entries(), case_folded(word@), r),
    ;

    /// Whether the store is empty.
    fn is_empty(&self) -> (b: bool)
        ensures
            b == self.empty(),
    ;
}

} // verus!
