//! The grid-repair simulation: several repairers walk a square matrix of
//! houses, fix the broken ones and leave notes for each other.
//!
//! The modules hold the verified rules of the game; reading and writing the
//! shared files is left to the program around the library.
pub mod models;
pub mod text;
pub mod counter;
pub mod layout;
pub mod tally;
pub mod repairer;
pub mod random;
pub mod board;
