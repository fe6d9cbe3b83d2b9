//! Verified core of a terminal word-guessing game: a secret word is scored
//! against a player's guess letter by letter, with duplicate letters handled
//! by a two-pass counting scheme.

pub mod score;
pub mod words;
