//! A 3×3×3 twisty puzzle as a permutation-group object: the state of the
//! puzzle, the algebra of its moves, the notation of move sequences, and
//! solvers that search for a way back to the solved state.
pub mod colored;
pub mod cube;
pub mod layer;
pub mod parser;
pub mod permutation;
pub mod position;
pub mod prelude;
pub mod solver;
pub mod state;
pub mod transform;
