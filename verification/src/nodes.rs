//! How the nodes of the trie, the tallies they hold and the stored
//! patterns hang together.

use crate::patterns::Patterns;
use crate::scoring::occurs;
use vstd::prelude::*;

verus! {

impl Patterns {
    /// Going one character further from the end of `path` is going to the
    /// child of the node at its end.
    pub proof fn lemma_node_at_push(self, path: Seq<char>, c: char)
        ensures
            self.node_at(path.push(c)) == (match self.node_at(path) {
                Some(n) => n.child(c),
                None => None,
            }),
        decreases path.len(),
    {
        let longer = path.push(c);
        if path.len() == 0 {
            assert(longer.drop_first() =~= Seq::<char>::empty());
            match self.child(c) {
                Some(n) => {
                    assert(n.node_at(longer.drop_first()) == Some(n));
                },
                None => {},
            }
        } else {
            assert(longer[0] == path[0]);
            assert(longer.drop_first() =~= path.drop_first().push(c));
            match self.child(path[0]) {
                Some(n) => {
                    n.lemma_node_at_push(path.drop_first(), c);
                },
                None => {},
            }
        }
    }

    /// Where the trie has no node, it has none further on either.
    pub proof fn lemma_no_node_beyond(self, p: Seq<char>, q: Seq<char>)
        requires
            !self.has_node(p),
        ensures
            !self.has_node(p + q),
        decreases q.len(),
    {
        if q.len() == 0 {
            assert(p + q =~= p);
        } else {
            self.lemma_no_node_beyond(p, q.drop_last());
            self.lemma_node_at_push(p + q.drop_last(), q.last());
            assert((p + q.drop_last()).push(q.last()) =~= p + q);
        }
    }

    /// Where the trie has no node for the `len + 1` characters of `text`
    /// from `at` on, no stored pattern longer than `len` occurs at `at`.
    pub proof fn lemma_none_longer(self, text: Seq<char>, at: int, len: int)
        requires
            0 <= at,
            0 <= len,
            at + len < text.len(),
            !self.has_node(text.subrange(at, at + len + 1)),
        ensures
            forall|l: int| len < l ==> !#[trigger] occurs(self@, text, at, l),
    {
        assert forall|l: int| len < l implies !#[trigger] occurs(self@, text, at, l) by {
            if at + l <= text.len() {
                let next = text.subrange(at, at + len + 1);
                let more = text.subrange(at + len + 1, at + l);
                assert(next + more =~= text.subrange(at, at + l));
                self.lemma_no_node_beyond(next, more);
            }
        }
    }

    /// A bare trie has its root for its only node, and stores nothing.
    pub proof fn lemma_bare(self)
        requires
            self.is_bare(),
        ensures
            forall|p: Seq<char>| #[trigger] self.has_node(p) <==> p.len() == 0,
            forall|p: Seq<char>| #[trigger] self.tally_at(p) is None,
            self.wf(),
    {
    }

    /// Setting the tally of the root stores it under the text of no
    /// characters, and changes nothing else.
    pub proof fn lemma_tally_set(self, before: Patterns, text: Seq<char>, tally: Seq<u8>)
        requires
            text.len() == 0,
            self.descendants == before.descendants,
            self.tally matches Some(t) && t@ == tally,
        ensures
            self.stored_by(before, text, tally),
            self.grown_by(before, text),
    {
        assert forall|p: Seq<char>| #[trigger]
            self.tally_at(p) == (if p == text {
                Some(tally)
            } else {
                before.tally_at(p)
            }) by {
            if p.len() == 0 {
                assert(p =~= text);
            }
        }
        assert forall|p: Seq<char>| #[trigger]
            self.has_node(p) <==> before.has_node(p) || p.is_prefix_of(text) by {
            if p.len() == 0 {
                assert(p.is_prefix_of(text));
            }
        }
    }

    /// Storing a tally below the child under the first character of `text`
    /// stores it under `text`. The child was `above`, or there was none and
    /// `above` is bare; it is now `below`.
    pub proof fn lemma_child_set(
        self,
        before: Patterns,
        above: Patterns,
        below: Patterns,
        text: Seq<char>,
        tally: Seq<u8>,
    )
        requires
            text.len() > 0,
            self.tally == before.tally,
            self.descendants@ == before.descendants@.insert(text[0], below),
            match before.child(text[0]) {
                Some(n) => above == n,
                None => above.is_bare(),
            },
            below.stored_by(above, text.drop_first(), tally),
            below.grown_by(above, text.drop_first()),
        ensures
            self.stored_by(before, text, tally),
            self.grown_by(before, text),
    {
        let c = text[0];
        let tail = text.drop_first();
        if before.child(c) is None {
            above.lemma_bare();
        }
        assert forall|p: Seq<char>| #[trigger]
            self.tally_at(p) == (if p == text {
                Some(tally)
            } else {
                before.tally_at(p)
            }) by {
            if p.len() > 0 && p[0] == c {
                assert(self.node_at(p) == below.node_at(p.drop_first()));
                assert(below.tally_at(p.drop_first()) == (if p.drop_first() == tail {
                    Some(tally)
                } else {
                    above.tally_at(p.drop_first())
                }));
                if p.drop_first() == tail {
                    Self::lemma_same_rest(p, text);
                }
            }
        }
        assert forall|p: Seq<char>| #[trigger]
            self.has_node(p) <==> before.has_node(p) || p.is_prefix_of(text) by {
            if p.len() > 0 && p[0] == c {
                assert(self.node_at(p) == below.node_at(p.drop_first()));
                assert(below.has_node(p.drop_first()) <==> above.has_node(p.drop_first())
                    || p.drop_first().is_prefix_of(tail));
                if p.drop_first().is_prefix_of(tail) {
                    assert(p.drop_first() =~= tail.subrange(0, p.len() - 1));
                    Self::lemma_same_rest(p, text.subrange(0, p.len() as int));
                }
                if p.is_prefix_of(text) {
                    assert(p =~= text.subrange(0, p.len() as int));
                    assert(p.drop_first() =~= tail.subrange(0, p.len() - 1));
                }
            } else if p.len() > 0 {
                if p.is_prefix_of(text) {
                    assert(p =~= text.subrange(0, p.len() as int));
                    assert(p[0] == text[0]);
                }
            } else {
                assert(p =~= text.subrange(0, 0));
            }
        }
    }

    /// Two texts with the same first character and the same rest are one.
    proof fn lemma_same_rest(p: Seq<char>, q: Seq<char>)
        requires
            p.len() > 0,
            q.len() > 0,
            p[0] == q[0],
            p.drop_first() =~= q.drop_first(),
        ensures
            p == q,
    {
        assert(p.len() == p.drop_first().len() + 1);
        assert(q.len() == q.drop_first().len() + 1);
        assert forall|i: int| 0 <= i < p.len() implies p[i] == q[i] by {
            if i > 0 {
                assert(p[i] == p.drop_first()[i - 1]);
                assert(q[i] == q.drop_first()[i - 1]);
            }
        }
        assert(p =~= q);
    }

    /// A node is a leaf exactly if the trie has no node one character from
    /// it.
    pub proof fn lemma_leaf_has_no_child(self)
        ensures
            self.is_leaf() <==> forall|c: char| !#[trigger] self.has_node(seq![c]),
    {
        assert forall|c: char| #[trigger]
            self.has_node(seq![c]) <==> self.descendants@.dom().contains(c) by {
            let p = seq![c];
            assert(p.drop_first() =~= Seq::<char>::empty());
            if self.descendants@.dom().contains(c) {
                assert(self.child(p[0]) == Some(self.descendants@[c]));
                assert(self.descendants@[c].node_at(p.drop_first()) is Some);
            }
        }
        if !self.is_leaf() {
            let c = choose|c: char| self.descendants@.dom().contains(c);
            assert(self.has_node(seq![c]));
        }
    }

    /// A trie grown by a text is a leaf exactly if it was one and the text
    /// has no characters.
    pub proof fn lemma_grown_leaf(self, before: Patterns, text: Seq<char>)
        requires
            self.grown_by(before, text),
        ensures
            self.is_leaf() <==> before.is_leaf() && text.len() == 0,
    {
        self.lemma_leaf_has_no_child();
        before.lemma_leaf_has_no_child();
        assert forall|c: char| #[trigger]
            self.has_node(seq![c]) <==> before.has_node(seq![c]) || (text.len() > 0 && c
                == text[0]) by {
            if text.len() > 0 && c == text[0] {
                assert(seq![c] =~= text.subrange(0, 1));
            }
            if seq![c].is_prefix_of(text) {
                assert(seq![c][0] == text.subrange(0, 1)[0]);
            }
        }
        if text.len() > 0 {
            assert(self.has_node(seq![text[0]]));
        } else if before.is_leaf() {
            assert forall|c: char| !#[trigger] self.has_node(seq![c]) by {
                assert(!before.has_node(seq![c]));
            }
        } else {
            let c = choose|c: char| #[trigger] before.has_node(seq![c]);
            assert(self.has_node(seq![c]));
        }
    }

    /// A trie without dead branches that grows by a text which it then
    /// stores, keeping what it stored, has no dead branches.
    pub proof fn lemma_grown_wf(self, before: Patterns, text: Seq<char>)
        requires
            before.wf(),
            self.grown_by(before, text),
            self@.contains_key(text),
            forall|p: Seq<char>| before@.contains_key(p) ==> #[trigger] self@.contains_key(p),
        ensures
            self.wf(),
    {
        assert forall|p: Seq<char>| #[trigger] self.has_node(p) && p.len() > 0 implies exists|
            q: Seq<char>,
        | #[trigger] self@.contains_key(p + q) by {
            if before.has_node(p) {
                let q = choose|q: Seq<char>| #[trigger] before@.contains_key(p + q);
                assert(self@.contains_key(p + q));
            } else {
                let q = text.skip(p.len() as int);
                assert(p =~= text.subrange(0, p.len() as int));
                assert(p + q =~= text);
                assert(self@.contains_key(p + q));
            }
        }
    }

    /// A trie without dead branches has no node below its root exactly if
    /// it stores no pattern of one character or more.
    pub proof fn lemma_leaf_stores_no_text(self)
        requires
            self.wf(),
        ensures
            self.is_leaf() <==> forall|p: Seq<char>| #[trigger] self@.contains_key(p) ==> p.len() == 0,
    {
        if self.is_leaf() {
            assert forall|p: Seq<char>| #[trigger] self@.contains_key(p) implies p.len() == 0 by {
                if p.len() > 0 {
                    assert(!self.descendants@.dom().contains(p[0]));
                    assert(self.node_at(p) is None);
                }
            }
        } else {
            self.lemma_leaf_has_no_child();
            let c = choose|c: char| #[trigger] self.has_node(seq![c]);
            let p = seq![c];
            let q = choose|q: Seq<char>| #[trigger] self@.contains_key(p + q);
            assert((p + q).len() > 0);
        }
    }
}

} // verus!
