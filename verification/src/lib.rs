//! A solver-assistant for a five-letter word-guessing game with per-letter
//! feedback. Words are modelled as fixed sequences of letter indices with a
//! bit-level letter set; the feedback engine classifies each guess position as
//! exact (green), misplaced (yellow) or absent, and the selector performs a
//! minimax search for the guess that minimizes the worst-case number of
//! surviving candidates.

pub mod bits;
pub mod errors;
pub mod score;
pub mod solver;
pub mod word;
