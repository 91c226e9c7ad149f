//! Game engine for Nim-style subtraction games played on rows of squares.
//!
//! A board holds an ordered list of rows; each row remembers its original
//! length and which player ate each of its squares. The strategy functions
//! search for moves that leave the opponent in a position whose nim-sum
//! (the bitwise XOR of all remaining row counts) is zero, which is exactly
//! the losing position of classical Nim theory.

pub mod board;
pub mod nim;
pub mod parse;
pub mod strategy;
