//! A stochastic 5x5 grid world: the transition model that boundaries and
//! obstacles shape, the policy codes that name sets of intended actions, the
//! sampler that walks a policy through the grid, and the decisions that drive
//! a value-iteration loop to its fixed point.

pub mod error;
pub mod grid;
pub mod lists;
pub mod policy;
pub mod sampler;
pub mod solver;
