//! Reconstructs candidate solution words for a daily word-guessing puzzle
//! from a transcript of colored feedback rows, working backward from the
//! most recent guess toward the first.

pub mod feedback;
pub mod input;
pub mod letters;
pub mod matching;
pub mod search;
