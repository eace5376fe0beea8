//! What the score of a word is, given the patterns that are stored.
//!
//! The stored patterns are taken as a map from pattern text to tally. A
//! word is scored between two boundary marks, so that a pattern can ask for
//! the start or the end of a word. Gaps are counted in the marked text: gap
//! `k` lies just before its character `k`. A pattern that occurs at offset
//! `at` lays the value at index `j` of its tally on gap `at + j`.

use vstd::prelude::*;

verus! {

/// The mark set before and after a word.
pub const BOUNDARY: char = '.';

/// The word between its two boundary marks.
pub open spec fn bounded(word: Seq<char>) -> Seq<char> {
    seq![BOUNDARY] + word + seq![BOUNDARY]
}

/// A stored pattern of `len` characters, at least one, occurs in `text` at
/// offset `at`.
pub open spec fn occurs(pats: Map<Seq<char>, Seq<u8>>, text: Seq<char>, at: int, len: int) -> bool {
    &&& 0 <= at
    &&& 1 <= len
    &&& at + len <= text.len()
    &&& pats.contains_key(text.subrange(at, at + len))
}

/// The pattern that occurs in `text` at `at` with length `len` has a tally
/// long enough to lay a value on gap `k`.
pub open spec fn reaches(
    pats: Map<Seq<char>, Seq<u8>>,
    text: Seq<char>,
    at: int,
    len: int,
    k: int,
) -> bool {
    &&& occurs(pats, text, at, len)
    &&& 0 <= k - at < pats[text.subrange(at, at + len)].len()
}

/// The value that the occurrence at `at` of length `len` lays on gap `k`.
pub open spec fn laid(
    pats: Map<Seq<char>, Seq<u8>>,
    text: Seq<char>,
    at: int,
    len: int,
    k: int,
) -> u8
    recommends
        reaches(pats, text, at, len, k),
{
    pats[text.subrange(at, at + len)][k - at]
}

/// `s` is the greatest value that any occurrence of a stored pattern in
/// `text` lays on gap `k`, or 0 if none lays a value there.
pub open spec fn is_top(pats: Map<Seq<char>, Seq<u8>>, text: Seq<char>, k: int, s: u8) -> bool {
    &&& forall|at: int, len: int| #[trigger]
        reaches(pats, text, at, len, k) ==> laid(pats, text, at, len, k) <= s
    &&& s == 0 || exists|at: int, len: int| #[trigger]
        reaches(pats, text, at, len, k) && laid(pats, text, at, len, k) == s
}

/// The score of gap `k` of `text`: the greatest value laid on it.
pub open spec fn gap_score(pats: Map<Seq<char>, Seq<u8>>, text: Seq<char>, k: int) -> u8 {
    choose|s: u8| is_top(pats, text, k, s)
}

/// The scores of `word`, one for each gap between two of its characters, in
/// order. The gaps before the first and after the last character get none.
pub open spec fn score_of(pats: Map<Seq<char>, Seq<u8>>, word: Seq<char>) -> Seq<u8> {
    if word.len() < 2 {
        Seq::empty()
    } else {
        Seq::new((word.len() - 1) as nat, |g: int| gap_score(pats, bounded(word), g + 2))
    }
}

/// A gap on which no value above `bound` is laid has a score.
proof fn lemma_top_exists_under(pats: Map<Seq<char>, Seq<u8>>, text: Seq<char>, k: int, bound: u8)
    requires
        forall|at: int, len: int| #[trigger]
            reaches(pats, text, at, len, k) ==> laid(pats, text, at, len, k) <= bound,
    ensures
        exists|s: u8| is_top(pats, text, k, s),
    decreases bound,
{
    if exists|at: int, len: int| #[trigger]
        reaches(pats, text, at, len, k) && laid(pats, text, at, len, k) == bound {
        assert(is_top(pats, text, k, bound));
    } else if bound == 0 {
        assert(is_top(pats, text, k, 0));
    } else {
        lemma_top_exists_under(pats, text, k, (bound - 1) as u8);
    }
}

/// Every gap has a score: the greatest value laid on it exists.
pub proof fn lemma_gap_score_is_top(pats: Map<Seq<char>, Seq<u8>>, text: Seq<char>, k: int)
    ensures
        is_top(pats, text, k, gap_score(pats, text, k)),
{
    lemma_top_exists_under(pats, text, k, 255);
}

/// A gap has one score only.
pub proof fn lemma_top_unique(
    pats: Map<Seq<char>, Seq<u8>>,
    text: Seq<char>,
    k: int,
    s1: u8,
    s2: u8,
)
    requires
        is_top(pats, text, k, s1),
        is_top(pats, text, k, s2),
    ensures
        s1 == s2,
{
}

/// The value that `tally`, laid at offset `at`, has for the gap with score
/// index `g` (gap `g + 2`), or 0 where it does not reach the gap.
pub open spec fn shifted(tally: Seq<u8>, at: int, g: int) -> u8 {
    if 0 <= g + 2 - at < tally.len() {
        tally[g + 2 - at]
    } else {
        0
    }
}

/// The greater of two values.
pub open spec fn greater(a: u8, b: u8) -> u8 {
    if a >= b {
        a
    } else {
        b
    }
}

/// Whether the occurrence at `at` of length `len` comes before the mark
/// `(upto, within)`: it starts before `upto`, or at `upto` with a length of
/// at most `within`.
pub open spec fn before(at: int, len: int, upto: int, within: int) -> bool {
    at < upto || (at == upto && len <= within)
}

/// `s` is the greatest value laid on gap `k` by the occurrences before the
/// mark `(upto, within)`, and a value that some occurrence in `text` does
/// lay there, or 0.
pub open spec fn is_top_before(
    pats: Map<Seq<char>, Seq<u8>>,
    text: Seq<char>,
    k: int,
    s: u8,
    upto: int,
    within: int,
) -> bool {
    &&& forall|at: int, len: int| #[trigger]
        reaches(pats, text, at, len, k) && before(at, len, upto, within) ==> laid(
            pats,
            text,
            at,
            len,
            k,
        ) <= s
    &&& s == 0 || exists|at: int, len: int| #[trigger]
        reaches(pats, text, at, len, k) && laid(pats, text, at, len, k) == s
}

/// Each of `points` is the greatest value laid on its gap by the
/// occurrences before the mark `(upto, within)`.
pub open spec fn tops_before(
    pats: Map<Seq<char>, Seq<u8>>,
    text: Seq<char>,
    points: Seq<u8>,
    upto: int,
    within: int,
) -> bool {
    forall|g: int|
        0 <= g < points.len() ==> is_top_before(pats, text, g + 2, #[trigger] points[g], upto, within)
}

/// Scores that are zero account for the occurrences before the first.
pub proof fn lemma_tops_start(pats: Map<Seq<char>, Seq<u8>>, text: Seq<char>, points: Seq<u8>)
    requires
        forall|g: int| 0 <= g < points.len() ==> #[trigger] points[g] == 0,
    ensures
        tops_before(pats, text, points, 0, 0),
{
}

/// Laying the tally of the pattern that occurs at `at` with length `len`
/// moves the mark one length on.
pub proof fn lemma_tops_fold(
    pats: Map<Seq<char>, Seq<u8>>,
    text: Seq<char>,
    points: Seq<u8>,
    folded: Seq<u8>,
    at: int,
    len: int,
)
    requires
        occurs(pats, text, at, len),
        tops_before(pats, text, points, at, len - 1),
        folded.len() == points.len(),
        forall|g: int|
            0 <= g < points.len() ==> #[trigger] folded[g] == greater(
                points[g],
                shifted(pats[text.subrange(at, at + len)], at, g),
            ),
    ensures
        tops_before(pats, text, folded, at, len),
{
    let tally = pats[text.subrange(at, at + len)];
    assert forall|g: int| 0 <= g < folded.len() implies is_top_before(
        pats,
        text,
        g + 2,
        #[trigger] folded[g],
        at,
        len,
    ) by {
        let k = g + 2;
        assert(is_top_before(pats, text, k, points[g], at, len - 1));
        assert(folded[g] == greater(points[g], shifted(tally, at, g)));
        assert forall|a: int, l: int| #[trigger]
            reaches(pats, text, a, l, k) && before(a, l, at, len) implies laid(pats, text, a, l, k)
            <= folded[g] by {
            if before(a, l, at, len - 1) {
            } else {
                assert(a == at && l == len);
            }
        }
        if folded[g] != 0 && folded[g] != points[g] {
            assert(reaches(pats, text, at, len, k));
            assert(laid(pats, text, at, len, k) == folded[g]);
        }
    }
}

/// Where no pattern occurs at `at` with length `len`, the mark moves one
/// length on as it is.
pub proof fn lemma_tops_skip(
    pats: Map<Seq<char>, Seq<u8>>,
    text: Seq<char>,
    points: Seq<u8>,
    at: int,
    len: int,
)
    requires
        !occurs(pats, text, at, len),
        tops_before(pats, text, points, at, len - 1),
    ensures
        tops_before(pats, text, points, at, len),
{
    assert forall|g: int| 0 <= g < points.len() implies is_top_before(
        pats,
        text,
        g + 2,
        #[trigger] points[g],
        at,
        len,
    ) by {
        let k = g + 2;
        assert(is_top_before(pats, text, k, points[g], at, len - 1));
        assert forall|a: int, l: int| #[trigger]
            reaches(pats, text, a, l, k) && before(a, l, at, len) implies laid(pats, text, a, l, k)
            <= points[g] by {
            if !before(a, l, at, len - 1) {
                assert(a == at && l == len);
            }
        }
    }
}

/// Where no longer pattern occurs at `at`, the mark moves on to the next
/// offset.
pub proof fn lemma_tops_next(
    pats: Map<Seq<char>, Seq<u8>>,
    text: Seq<char>,
    points: Seq<u8>,
    at: int,
    len: int,
)
    requires
        tops_before(pats, text, points, at, len),
        forall|l: int| len < l ==> !#[trigger] occurs(pats, text, at, l),
    ensures
        tops_before(pats, text, points, at + 1, 0),
{
    assert forall|g: int| 0 <= g < points.len() implies is_top_before(
        pats,
        text,
        g + 2,
        #[trigger] points[g],
        at + 1,
        0,
    ) by {
        let k = g + 2;
        assert(is_top_before(pats, text, k, points[g], at, len));
        assert forall|a: int, l: int| #[trigger]
            reaches(pats, text, a, l, k) && before(a, l, at + 1, 0) implies laid(
            pats,
            text,
            a,
            l,
            k,
        ) <= points[g] by {
            if !before(a, l, at, len) {
                assert(a == at && len < l);
                assert(!occurs(pats, text, at, l));
            }
        }
    }
}

/// Once the mark is past the last offset, the points are the scores.
pub proof fn lemma_tops_done(
    pats: Map<Seq<char>, Seq<u8>>,
    word: Seq<char>,
    points: Seq<u8>,
)
    requires
        word.len() >= 2,
        points.len() == word.len() - 1,
        tops_before(pats, bounded(word), points, bounded(word).len() as int, 0),
    ensures
        points == score_of(pats, word),
{
    let text = bounded(word);
    assert forall|g: int| 0 <= g < points.len() implies points[g] == #[trigger] score_of(
        pats,
        word,
    )[g] by {
        let k = g + 2;
        assert(is_top_before(pats, text, k, points[g], text.len() as int, 0));
        assert forall|a: int, l: int| #[trigger] reaches(pats, text, a, l, k) implies laid(
            pats,
            text,
            a,
            l,
            k,
        ) <= points[g] by {
            assert(before(a, l, text.len() as int, 0));
        }
        assert(is_top(pats, text, k, points[g]));
        lemma_gap_score_is_top(pats, text, k);
        lemma_top_unique(pats, text, k, points[g], gap_score(pats, text, k));
    }
    assert(points =~= score_of(pats, word));
}

/// The characters of `word` between two boundary marks.
pub fn bounded_chars(word: &str) -> (text: Vec<char>)
    ensures
        text@ == bounded(word@),
{
    let mut text: Vec<char> = Vec::new();
    text.push(BOUNDARY);
    for c in it: word.chars()
        invariant
            it.seq() == word@,
            text@ == seq![BOUNDARY] + word@.take(it.index()),
    {
        text.push(c);
    }
    text.push(BOUNDARY);
    proof {
        assert(word@.take(word@.len() as int) =~= word@);
    }
    text
}

/// Lays `tally`, as of a pattern that occurs at offset `at`, over `points`:
/// each score becomes the greater of what it was and what the tally has for
/// its gap.
pub fn fold_tally(points: &mut Vec<u8>, tally: &Vec<u8>, at: usize)
    ensures
        final(points)@.len() == old(points)@.len(),
        forall|g: int|
            0 <= g < old(points)@.len() ==> #[trigger] final(points)@[g] == greater(
                old(points)@[g],
                shifted(tally@, at as int, g),
            ),
{
    let mut j: usize = if at < 2 {
        2 - at
    } else {
        0
    };
    let mut g: usize = if at < 2 {
        0
    } else {
        at - 2
    };
    let ghost g0: int = g as int;
    while j < tally.len() && g < points.len()
        invariant
            points@.len() == old(points)@.len(),
            g - j == at - 2,
            g0 <= g,
            g0 == (if at < 2 { 0int } else { at - 2 }),
            forall|h: int|
                0 <= h < g && h < points@.len() ==> #[trigger] points@[h] == greater(
                    old(points)@[h],
                    shifted(tally@, at as int, h),
                ),
            forall|h: int| g <= h < points@.len() ==> #[trigger] points@[h] == old(points)@[h],
        decreases tally.len() - j,
    {
        let p: u8 = tally[j];
        let q: u8 = points[g];
        if p > q {
            points.set(g, p);
        }
        j += 1;
        g += 1;
    }
}

} // verus!
