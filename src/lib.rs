//! A solver for five-letter word-guessing puzzles.
//!
//! The library keeps the candidate words that agree with every piece of
//! feedback seen so far, ranks them by positional letter frequency, and
//! picks an opening-guess heuristic by replaying the whole word list.
pub mod cache;
pub mod constraint;
pub mod evaluate;
pub mod filter;
pub mod frequency;
pub mod input;
pub mod opening;
pub mod ranking;
mod text;
pub mod wordlist;
