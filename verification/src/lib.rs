//! A genetic-algorithm search for N-queens placements.
//!
//! A candidate solution is a [`chromosome::Chromosome`]: a permutation of the
//! column indices `0..N`, one queen per row.  [`board::Board`] evaluates how
//! many queens a candidate leaves under attack, and [`selection`] turns one
//! generation of candidates into the next by elitist recombination.

pub mod board;
pub mod board_old;
pub mod chromosome;
pub mod config;
pub mod selection;
