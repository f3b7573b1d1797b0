//! Characters, numerals and words.

pub mod number;
pub mod words;
