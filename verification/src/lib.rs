//! Turns a transcript of a text-based chess-engine control protocol into a
//! sequence of per-search analysis records: board state is rebuilt from the
//! protocol commands, coordinate move tokens are resolved into rules-legal
//! moves, principal variations are rendered in standard algebraic notation,
//! and one record is emitted per completed search.

pub mod config;
pub mod driver;
pub mod moves;
pub mod num;
pub mod rules;
pub mod text;
