//! A word-level profanity filter.
//!
//! A [`vocab::Vocabulary`] holds a base set of disallowed terms together with
//! per-request additions and exclusions; the matcher scans a text for maximal
//! runs of word characters (ASCII letters and digits) and compares each such
//! token, case-insensitively, against the effective vocabulary. Matching is
//! whole-word: a term never matches inside a longer word, so a vocabulary
//! containing "ass" does not flag "class". This is a deliberate deviation
//! from the censor crate, which supplies the standard word list but itself
//! matches terms inside longer words and through character aliases; this
//! library chooses boundary-aware matching to avoid that class of false
//! positives. Matched tokens can be masked with one `*` per character or
//! replaced by a caller-supplied grawlix string.

pub mod chars;
pub mod laws;
pub mod matcher;
pub mod requests;
pub mod vocab;
