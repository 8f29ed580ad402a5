//! The configuration surface the engine consumes, as plain values.

use crate::selection::Probability;
use crate::selection::SelectionStrategy;
use crate::selection::PROBABILITY_SCALE;
use vstd::prelude::*;

verus! {

/// The search's configuration.  The core consumes it as plain values; how
/// they are obtained (command-line flags, defaults) is the caller's
/// concern.
#[derive(Debug, Clone, Copy)]
pub struct Config {
    /// Size of the chess board.
    pub board_size: u16,
    /// Size of the population in one generation.
    pub generation_size: usize,
    /// Probability of mutation.
    pub mutation_probability: Probability,
    /// Strategy for selecting the best individuals for the next generation.
    pub selection_strategy: SelectionStrategy,
}

impl Config {
    /// The engine can run this configuration: selection needs at least two
    /// individuals, and the mutation probability must lie in [0, 1].
    pub open spec fn wf(&self) -> bool {
        self.generation_size >= 2 && self.mutation_probability.wf()
    }

    /// Checks that the engine can run this configuration; a driver must
    /// refuse to start the search when this fails.
    pub fn validate(&self) -> (r: bool)
        ensures
            r == self.wf(),
    {
        self.generation_size >= 2 && self.mutation_probability.raw <= PROBABILITY_SCALE
    }
}

} // verus!
