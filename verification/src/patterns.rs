//! The trie of hyphenation patterns.
//!
//! A pattern is stored character by character: the node reached from the
//! root along the characters of its text holds its tally. To the contracts
//! the trie is the map from each stored text to its tally, written `trie@`.

use crate::case::{case_folded, chars_of, fold_case};
use crate::klp_trie::KLPTrie;
use crate::scoring::{
    bounded, bounded_chars, fold_tally, lemma_tops_done, lemma_tops_fold, lemma_tops_next, lemma_tops_skip,
    lemma_tops_start, occurs, score_of, tops_before,
};
use fnv::FnvHasher;
use std::collections::HashMap;
use std::hash::BuildHasherDefault;
use vstd::prelude::*;

verus! {

/// The hasher of the `fnv` crate, which hashes the characters that lead
/// from a node to its children.
#[verifier::external_type_specification]
#[verifier::external_body]
pub struct ExFnvHasher(FnvHasher);

/// The standard library's builder of hashers in their default state.
#[verifier::external_type_specification]
#[verifier::external_body]
#[verifier::reject_recursive_types(H)]
pub struct ExBuildHasherDefault<H>(BuildHasherDefault<H>);

/// A pattern and its tally: the text to look for, and the values that it
/// lays on the gaps before, between and after its characters.
pub type KLPair = (String, Vec<u8>);

/// A node of the trie of patterns, and with it the trie below.
#[derive(Debug)]
pub struct Patterns {
    /// The tally of the pattern that ends at this node, if one does.
    pub tally: Option<Vec<u8>>,
    /// The nodes below, each under the character that leads to it.
    pub descendants: HashMap<char, Patterns, BuildHasherDefault<FnvHasher>>,
}

/// Calls `HashMap::get` on a map that hashes with FNV. Trusted: the map
/// finds the entry stored under `c` exactly if there is one, because the
/// FNV hasher starts from a fixed state and is a function of the bytes
/// written to it, and equal characters hash and compare alike.
#[verifier::external_body]
fn child_ref<'a>(
    m: &'a HashMap<char, Patterns, BuildHasherDefault<FnvHasher>>,
    c: char,
) -> (r: Option<&'a Patterns>)
    ensures
        match r {
            Some(n) => m@.contains_key(c) && *n == m@[c],
            None => !m@.contains_key(c),
        },
{
    m.get(&c)
}

/// Calls `HashMap::get_mut` on a map that hashes with FNV. Trusted: as for
/// `child_ref`; and what is written through the returned reference is what
/// the map then holds under `c`, all else as before.
#[verifier::external_body]
fn child_mut<'a>(
    m: &'a mut HashMap<char, Patterns, BuildHasherDefault<FnvHasher>>,
    c: char,
) -> (r: Option<&'a mut Patterns>)
    ensures
        match r {
            Some(n) => old(m)@.contains_key(c) && *n == old(m)@[c] && final(m)@ == old(m)@.insert(
                c,
                *final(n),
            ),
            None => !old(m)@.contains_key(c) && final(m)@ == old(m)@,
        },
{
    m.get_mut(&c)
}

/// Calls `HashMap::insert` on a map that hashes with FNV. Trusted: the map
/// then holds `node` under `c`, all else as before.
#[verifier::external_body]
fn put_child(
    m: &mut HashMap<char, Patterns, BuildHasherDefault<FnvHasher>>,
    c: char,
    node: Patterns,
)
    ensures
        final(m)@ == old(m)@.insert(c, node),
{
    m.insert(c, node);
}

impl View for Patterns {
    type V = Map<Seq<char>, Seq<u8>>;

    /// The stored patterns: each pattern text with its tally.
    open spec fn view(&self) -> Map<Seq<char>, Seq<u8>> {
        Map::new(|p: Seq<char>| self.tally_at(p) is Some, |p: Seq<char>| self.tally_at(p).unwrap())
    }
}

impl Patterns {
    /// The node just below this one under `c`, if there is one.
    pub open spec fn child(self, c: char) -> Option<Patterns> {
        if self.descendants@.contains_key(c) {
            Some(self.descendants@[c])
        } else {
            None
        }
    }

    /// The node reached from this one along `path`, if the trie goes that
    /// far.
    pub open spec fn node_at(self, path: Seq<char>) -> Option<Patterns>
        decreases path.len(),
    {
        if path.len() == 0 {
            Some(self)
        } else {
            match self.child(path[0]) {
                Some(n) => n.node_at(path.drop_first()),
                None => None,
            }
        }
    }

    /// Whether the trie has a node at the end of `path`.
    pub open spec fn has_node(self, path: Seq<char>) -> bool {
        self.node_at(path) is Some
    }

    /// The tally held by the node at the end of `path`, if there is such a
    /// node and it holds one.
    pub open spec fn tally_at(self, path: Seq<char>) -> Option<Seq<u8>> {
        match self.node_at(path) {
            Some(n) => match n.tally {
                Some(t) => Some(t@),
                None => None,
            },
            None => None,
        }
    }

    /// Whether this node has no node below it.
    pub open spec fn is_leaf(self) -> bool {
        self.descendants@.dom() =~= Set::<char>::empty()
    }

    /// A trie of this node alone, with no tally.
    pub open spec fn is_bare(self) -> bool {
        self.tally is None && self.descendants@ =~= Map::<char, Patterns>::empty()
    }

    /// No branch of the trie is dead: every node but the root lies on the
    /// way to a stored pattern. A trie that was built by `new` and `insert`
    /// is so.
    pub open spec fn wf(self) -> bool {
        forall|p: Seq<char>| #[trigger]
            self.has_node(p) && p.len() > 0 ==> exists|q: Seq<char>| #[trigger]
                self@.contains_key(p + q)
    }

    /// The trie `self` holds `tally` at the end of `text`, and elsewhere
    /// the tallies of `before`: what inserting a pattern does to the
    /// tallies.
    pub open spec fn stored_by(self, before: Patterns, text: Seq<char>, tally: Seq<u8>) -> bool {
        forall|p: Seq<char>| #[trigger]
            self.tally_at(p) == (if p == text {
                Some(tally)
            } else {
                before.tally_at(p)
            })
    }

    /// The trie `self` has the nodes of `before` and those on the way along
    /// `text`, and no others: what inserting a pattern does to the nodes.
    pub open spec fn grown_by(self, before: Patterns, text: Seq<char>) -> bool {
        forall|p: Seq<char>| #[trigger]
            self.has_node(p) <==> before.has_node(p) || p.is_prefix_of(text)
    }

    /// Stores `tally` under the text `text[from..]`, read from this node
    /// on, and returns the tally that was stored there before.
    fn insert_from(&mut self, text: &Vec<char>, from: usize, tally: Vec<u8>) -> (r: Option<Vec<u8>>)
        requires
            from <= text.len(),
        ensures
            final(self).stored_by(*old(self), text@.skip(from as int), tally@),
            final(self).grown_by(*old(self), text@.skip(from as int)),
            match r {
                Some(t) => old(self).tally_at(text@.skip(from as int)) == Some(t@),
                None => old(self).tally_at(text@.skip(from as int)) is None,
            },
        decreases text.len() - from,
    {
        if from == text.len() {
            let prev = self.tally.take();
            self.tally = Some(tally);
            proof {
                final(self).lemma_tally_set(*old(self), text@.skip(from as int), tally@);
            }
            prev
        } else {
            let c = text[from];
            let r;
            let ghost above: Patterns;
            let ghost below: Patterns;
            match child_mut(&mut self.descendants, c) {
                Some(n) => {
                    proof {
                        above = *n;
                    }
                    r = n.insert_from(text, from + 1, tally);
                    proof {
                        below = *n;
                    }
                },
                None => {
                    let mut n: Patterns = KLPTrie::new();
                    proof {
                        above = n;
                    }
                    r = n.insert_from(text, from + 1, tally);
                    proof {
                        below = n;
                    }
                    put_child(&mut self.descendants, c, n);
                },
            }
            proof {
                assert(text@.skip(from as int).drop_first() =~= text@.skip(from + 1));
                final(self).lemma_child_set(
                    *old(self),
                    above,
                    below,
                    text@.skip(from as int),
                    tally@,
                );
            }
            r
        }
    }

    /// Lays over `points` the tallies of all stored patterns that occur in
    /// `text` at offset `at`, the shortest first.
    fn walk_from(&self, text: &Vec<char>, at: usize, points: &mut Vec<u8>)
        requires
            at < text.len(),
            tops_before(self@, text@, old(points)@, at as int, 0),
        ensures
            final(points)@.len() == old(points)@.len(),
            tops_before(self@, text@, final(points)@, at + 1, 0),
    {
        let mut node: &Patterns = self;
        let mut pos: usize = at;
        proof {
            assert(text@.subrange(at as int, pos as int) =~= Seq::<char>::empty());
        }
        while pos < text.len()
            invariant_except_break
                at <= pos <= text.len(),
                self.node_at(text@.subrange(at as int, pos as int)) == Some(*node),
                tops_before(self@, text@, points@, at as int, pos - at),
            invariant
                points@.len() == old(points)@.len(),
            ensures
                tops_before(self@, text@, points@, at + 1, 0),
            decreases text.len() - pos,
        {
            let ghost here = text@.subrange(at as int, pos as int);
            let ghost next = text@.subrange(at as int, pos + 1);
            proof {
                assert(here.push(text@[pos as int]) =~= next);
                self.lemma_node_at_push(here, text@[pos as int]);
            }
            match child_ref(&node.descendants, text[pos]) {
                None => {
                    proof {
                        self.lemma_none_longer(text@, at as int, pos - at);
                        lemma_tops_next(self@, text@, points@, at as int, pos - at);
                    }
                    break ;
                },
                Some(n) => {
                    node = n;
                    pos = pos + 1;
                    match &n.tally {
                        Some(t) => {
                            let ghost prior = points@;
                            fold_tally(points, t, at);
                            proof {
                                lemma_tops_fold(self@, text@, prior, points@, at as int, pos - at);
                            }
                        },
                        None => {
                            proof {
                                lemma_tops_skip(self@, text@, points@, at as int, pos - at);
                            }
                        },
                    }
                },
            }
        }
        proof {
            if pos == text.len() {
                assert forall|l: int| pos - at < l implies !#[trigger] occurs(
                    self@,
                    text@,
                    at as int,
                    l,
                ) by {}
                lemma_tops_next(self@, text@, points@, at as int, pos - at);
            }
        }
    }

    /// The scores of `word` as it stands, with no regard to the case of its
    /// letters: for each gap between two characters the greatest value that
    /// a stored pattern lays on it.
    pub fn score_normalized(&self, word: &str) -> (points: Vec<u8>)
        ensures
            points@ == score_of(self@, word@),
            points@.len() == (if word@.len() == 0 {
                0
            } else {
                word@.len() - 1
            }),
    {
        let text = bounded_chars(word);
        if text.len() <= 3 {
            return Vec::new();
        }
        let mut points: Vec<u8> = vec![0u8; text.len() - 3];
        proof {
            lemma_tops_start(self@, text@, points@);
        }
        for at in 0..text.len()
            invariant
                text@ == bounded(word@),
                points@.len() == word@.len() - 1,
                tops_before(self@, text@, points@, at as int, 0),
        {
            self.walk_from(&text, at, &mut points);
        }
        proof {
            lemma_tops_done(self@, word@, points@);
        }
        points
    }
}

impl<'a> KLPTrie<'a> for Patterns {
    type Tally = Vec<u8>;

    type Score = Vec<u8>;

    open spec fn entries(&self) -> Map<Seq<char>, Seq<u8>> {
        self@
    }

    /// The answer is the scores of the text.
    open spec fn answers(entries: Map<Seq<char>, Seq<u8>>, text: Seq<char>, score: Vec<u8>) -> bool {
        score@ == score_of(entries, text)
    }

    /// The trie counts as empty if its root has no node below it.
    open spec fn empty(&self) -> bool {
        self.is_leaf()
    }

    /// A trie that stores no pattern and has no node but its root.
    fn new() -> (r: Patterns)
        ensures
            r.is_bare(),
            r@ == Map::<Seq<char>, Seq<u8>>::empty(),
            r.is_leaf(),
            r.wf(),
    {
        let r = Patterns { tally: None, descendants: HashMap::default() };
        proof {
            r.lemma_bare();
            assert(r@ =~= Map::<Seq<char>, Seq<u8>>::empty());
        }
        r
    }

    /// Stores the tally `pair.1` under the pattern text `pair.0`, making
    /// the nodes that the trie lacks on the way, and returns the tally that
    /// the text had before. The case of the text is left as it is.
    fn insert(&mut self, pair: KLPair) -> (r: Option<Vec<u8>>)
        ensures
            final(self)@ == old(self)@.insert(pair.0@, pair.1@),
            match r {
                Some(t) => old(self)@.contains_key(pair.0@) && old(self)@[pair.0@] == t@,
                None => !old(self)@.contains_key(pair.0@),
            },
            final(self).grown_by(*old(self), pair.0@),
            final(self).is_leaf() <==> old(self).is_leaf() && pair.0@.len() == 0,
            old(self).wf() ==> final(self).wf(),
    {
        let (pattern, tally) = pair;
        let text = chars_of(pattern.as_str());
        let ghost stored = tally@;
        let r = self.insert_from(&text, 0, tally);
        proof {
            assert(text@.skip(0) =~= pattern@);
            assert(final(self)@ =~= old(self)@.insert(pattern@, stored));
            final(self).lemma_grown_leaf(*old(self), pattern@);
            if old(self).wf() {
                final(self).lemma_grown_wf(*old(self), pattern@);
            }
        }
        r
    }

    /// The scores of `word`, whatever the case of its letters: those of its
    /// lowercase form if it holds a capital, else its own.
    fn score(&'a self, word: &str) -> (points: Vec<u8>)
        ensures
            points@ == score_of(self@, case_folded(word@)),
            points@.len() == (if case_folded(word@).len() == 0 {
                0
            } else {
                case_folded(word@).len() - 1
            }),
    {
        match fold_case(word) {
            Some(lower) => self.score_normalized(lower.as_str()),
            None => self.score_normalized(word),
        }
    }

    /// Whether the root has no node below it. A pattern of no characters is
    /// stored at the root itself and makes no difference here.
    fn is_empty(&self) -> (b: bool)
        ensures
            b == self.is_leaf(),
            self.wf() ==> (b <==> forall|p: Seq<char>| #[trigger]
                self@.contains_key(p) ==> p.len() == 0),
    {
        proof {
            if self.wf() {
                self.lemma_leaf_stores_no_text();
            }
        }
        self.descendants.is_empty()
    }
}

} // verus!
