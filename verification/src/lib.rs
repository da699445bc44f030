//! A minesweeper board engine: grid storage and indexing, deferred mine
//! placement that keeps the first chosen cell safe, adjacency counts, flood-fill
//! disclosure and win bookkeeping. Every function carries a contract that the
//! verifier checks against the mathematical model of the board.

pub mod choice;
pub mod error;
pub mod field;
pub mod rng;
pub mod seed;
