//! A store for the agents of a flock, indexed by the cells of a uniform grid.
//!
//! Each agent is known by a number and carries a position and a velocity,
//! which the store keeps but never reads: the caller names the grid cell that
//! a position falls into. In return the store finds, for any cell, every agent
//! in the block of nine cells around it, and it is proved that the index
//! behind that lookup always agrees with the agents' records.
//!
//! - [`cell`]: grid cells and their adjacency.
//! - [`boid_store`]: the store, its model as a map, and its operations.
//! - [`boids`]: registering and moving agents in batches, and the flag of the
//!   one-time setup.
//! - [`laws`]: what holds of the model, whatever the sequence of operations.

pub mod boid_store;
pub mod boids;
pub mod cell;
pub mod laws;
