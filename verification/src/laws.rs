//! What holds of the two stores over more than one call.

use crate::case::{case_folded, settled, str_lowercase};
use crate::patterns::Patterns;
use crate::scoring::{
    gap_score, greater, is_top, laid, lemma_gap_score_is_top, lemma_top_unique, reaches, score_of,
};
use vstd::prelude::*;

verus! {

/// A pattern that is inserted again takes the place of the first: the
/// second insertion finds the first tally stored, and returns it; after it
/// the patterns, and so the scores of every word, are what they would be
/// had the first never been inserted.
pub proof fn law_reinsert_replaces(
    pats: Map<Seq<char>, Seq<u8>>,
    text: Seq<char>,
    first: Seq<u8>,
    second: Seq<u8>,
    word: Seq<char>,
)
    ensures
        pats.insert(text, first).contains_key(text),
        pats.insert(text, first)[text] == first,
        pats.insert(text, first).insert(text, second) == pats.insert(text, second),
        score_of(pats.insert(text, first).insert(text, second), word) == score_of(
            pats.insert(text, second),
            word,
        ),
{
    assert(pats.insert(text, first).insert(text, second) =~= pats.insert(text, second));
}

/// The tries that come of inserting `texts` one after the other, the first
/// of them into the bare trie `states[0]`.
pub open spec fn grows(states: Seq<Patterns>, texts: Seq<Seq<char>>) -> bool {
    &&& states.len() == texts.len() + 1
    &&& states[0].is_bare()
    &&& forall|i: int|
        0 <= i < texts.len() ==> states[i + 1].grown_by(states[i], #[trigger] texts[i])
}

/// A trie has no node below its root exactly if every text that was ever
/// inserted into it has no characters.
pub proof fn law_leaf_iff_no_text(states: Seq<Patterns>, texts: Seq<Seq<char>>, n: int)
    requires
        grows(states, texts),
        0 <= n <= texts.len(),
    ensures
        states[n].is_leaf() <==> forall|i: int| 0 <= i < n ==> (#[trigger] texts[i]).len() == 0,
    decreases n,
{
    if n > 0 {
        law_leaf_iff_no_text(states, texts, n - 1);
        let last = texts[n - 1];
        states[n].lemma_grown_leaf(states[n - 1], last);
        if last.len() == 0 && states[n - 1].is_leaf() {
            assert forall|i: int| 0 <= i < n implies (#[trigger] texts[i]).len() == 0 by {
                if i < n - 1 {
                }
            }
        }
    }
}

/// The scores of a word are as many as the gaps between its characters.
pub proof fn law_score_length(pats: Map<Seq<char>, Seq<u8>>, word: Seq<char>)
    ensures
        score_of(pats, word).len() == (if word.len() == 0 {
            0
        } else {
            word.len() - 1
        }),
{
}

/// Two words with one lowercase form are looked up by one text, if each is
/// looked up by its lowercase form. So a word, its lowercase form and its
/// uppercase form are looked up alike wherever changing the case and
/// lowercasing again gives the lowercase form of the word.
pub proof fn law_case_folds_alike(a: Seq<char>, b: Seq<char>)
    requires
        settled(a),
        settled(b),
        str_lowercase(a) == str_lowercase(b),
    ensures
        case_folded(a) == case_folded(b),
{
}

/// Such two words get the same scores from the patterns.
pub proof fn law_patterns_ignore_case(pats: Map<Seq<char>, Seq<u8>>, a: Seq<char>, b: Seq<char>)
    requires
        settled(a),
        settled(b),
        str_lowercase(a) == str_lowercase(b),
    ensures
        score_of(pats, case_folded(a)) == score_of(pats, case_folded(b)),
{
}

/// Such two words are both exceptions, with the same scores, or neither is.
pub proof fn law_exceptions_ignore_case(
    entries: Map<Seq<char>, Seq<usize>>,
    a: Seq<char>,
    b: Seq<char>,
)
    requires
        settled(a),
        settled(b),
        str_lowercase(a) == str_lowercase(b),
    ensures
        entries.contains_key(case_folded(a)) <==> entries.contains_key(case_folded(b)),
        entries.contains_key(case_folded(a)) ==> entries[case_folded(a)] == entries[case_folded(b)],
{
}

/// The score of a gap is at least what any one pattern lays on it.
pub proof fn law_score_covers(
    pats: Map<Seq<char>, Seq<u8>>,
    text: Seq<char>,
    k: int,
    at: int,
    len: int,
)
    requires
        reaches(pats, text, at, len, k),
    ensures
        laid(pats, text, at, len, k) <= gap_score(pats, text, k),
{
    lemma_gap_score_is_top(pats, text, k);
}

/// The score of a gap is a value that some pattern lays on it, or 0.
pub proof fn law_score_is_laid(pats: Map<Seq<char>, Seq<u8>>, text: Seq<char>, k: int)
    ensures
        gap_score(pats, text, k) == 0 || exists|at: int, len: int| #[trigger]
            reaches(pats, text, at, len, k) && laid(pats, text, at, len, k) == gap_score(
                pats,
                text,
                k,
            ),
{
    lemma_gap_score_is_top(pats, text, k);
}

/// Where two occurrences lay a value on one gap, and no other does, the
/// score of the gap is the greater of the two values, not their sum.
pub proof fn law_two_compound_to_greater(
    pats: Map<Seq<char>, Seq<u8>>,
    text: Seq<char>,
    k: int,
    at1: int,
    len1: int,
    at2: int,
    len2: int,
)
    requires
        reaches(pats, text, at1, len1, k),
        reaches(pats, text, at2, len2, k),
        forall|at: int, len: int| #[trigger]
            reaches(pats, text, at, len, k) ==> (at == at1 && len == len1) || (at == at2 && len
                == len2),
    ensures
        gap_score(pats, text, k) == greater(
            laid(pats, text, at1, len1, k),
            laid(pats, text, at2, len2, k),
        ),
{
    let top = greater(laid(pats, text, at1, len1, k), laid(pats, text, at2, len2, k));
    assert(is_top(pats, text, k, top));
    lemma_gap_score_is_top(pats, text, k);
    lemma_top_unique(pats, text, k, top, gap_score(pats, text, k));
}

} // verus!
