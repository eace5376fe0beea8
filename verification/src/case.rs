//! Case folding of words before they are looked up.
//!
//! A word that holds a capital letter is looked up by its lowercase form;
//! any other word is looked up as it stands. Which characters count as
//! capitals, and what the lowercase form of a text is, is Unicode's business
//! and is asked of the standard library.

use vstd::prelude::*;

verus! {

/// Whether `c` is a capital, an uppercase character of Unicode: the answer of
/// `char::is_uppercase`.
pub uninterp spec fn char_is_uppercase(c: char) -> bool;

/// The lowercase form of the text `s`: the characters of the string that
/// `str::to_lowercase` returns for it.
pub uninterp spec fn str_lowercase(s: Seq<char>) -> Seq<char>;

/// Whether some character of `s` is a capital.
pub open spec fn has_uppercase(s: Seq<char>) -> bool {
    exists|i: int| 0 <= i < s.len() && char_is_uppercase(#[trigger] s[i])
}

/// The text by which the word `s` is looked up: its lowercase form if it
/// holds a capital, else `s` itself.
pub open spec fn case_folded(s: Seq<char>) -> Seq<char> {
    if has_uppercase(s) {
        str_lowercase(s)
    } else {
        s
    }
}

/// The text by which `s` is looked up is its lowercase form: `s` holds a
/// capital, or is its own lowercase form. Words of the common alphabets are
/// so; a word with a titlecase digraph and no capital is not.
pub open spec fn settled(s: Seq<char>) -> bool {
    has_uppercase(s) || str_lowercase(s) == s
}

/// Calls `char::is_uppercase`. Trusted: the result is the value that the
/// standard library's Unicode tables give for `c`, which depends on `c`
/// alone.
#[verifier::external_body]
fn is_uppercase(c: char) -> (b: bool)
    ensures
        b == char_is_uppercase(c),
{
    c.is_uppercase()
}

/// Calls `str::to_lowercase`. Trusted: the returned string is the lowercase
/// form of `s`, which depends on the characters of `s` alone.
#[verifier::external_body]
fn to_lowercase(s: &str) -> (r: String)
    ensures
        r@ == str_lowercase(s@),
{
    s.to_lowercase()
}

/// The characters of `s`, in order.
pub fn chars_of(s: &str) -> (v: Vec<char>)
    ensures
        v@ == s@,
{
    let mut v: Vec<char> = Vec::new();
    for c in it: s.chars()
        invariant
            it.seq() == s@,
            v@ == s@.take(it.index()),
    {
        v.push(c);
    }
    v
}

/// Tells whether `s` holds a capital.
pub fn contains_uppercase(s: &str) -> (b: bool)
    ensures
        b == has_uppercase(s@),
{
    for c in it: s.chars()
        invariant
            it.seq() == s@,
            forall|i: int| 0 <= i < it.index() ==> !char_is_uppercase(#[trigger] s@[i]),
    {
        if is_uppercase(c) {
            return true;
        }
    }
    false
}

/// The text by which `s` is looked up, as a string of its own where it
/// differs from `s`: `Some` lowercase form if `s` holds a capital, `None` if
/// `s` is looked up as it stands.
pub fn fold_case(s: &str) -> (r: Option<String>)
    ensures
        match r {
            Some(w) => has_uppercase(s@) && w@ == str_lowercase(s@),
            None => !has_uppercase(s@),
        },
        case_folded(s@) == (match r {
            Some(w) => w@,
            None => s@,
        }),
{
    if contains_uppercase(s) {
        Some(to_lowercase(s))
    } else {
        None
    }
}

} // verus!
