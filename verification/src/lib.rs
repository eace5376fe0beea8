//! Knuth-Liang hyphenation scoring.
//!
//! A word is scored gap by gap: each gap between two neighbouring characters
//! gets a small number, and the higher the number the better a hyphen fits
//! there. Two stores supply the numbers. [`Patterns`] is a trie of short
//! texts, each with a tally of one value per gap in and around it; every
//! stored text that occurs in the word lays its tally over the gaps it
//! covers, and on each gap the greatest value laid there wins.
//! [`Exceptions`] maps whole words to ready-made scores. Both offer the
//! operations of [`KLPTrie`].
//!
//! Every function here is verified against its contract. What is taken on
//! trust is little and is named where it stands: two Unicode queries of the
//! standard library in `case`, and the look-ups of the hash maps in
//! `patterns` and `exceptions`, whose hasher and keys the verifier's model
//! of `HashMap` does not reach.

pub mod case;
pub mod exceptions;
pub mod klp_trie;
pub mod laws;
pub mod nodes;
pub mod patterns;
pub mod scoring;

pub use exceptions::Exceptions;
pub use klp_trie::KLPTrie;
pub use patterns::{KLPair, Patterns};
