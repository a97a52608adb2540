//! Distributed evolutionary search for low-cost tours over a weighted
//! complete graph (the traveling salesman problem).
//!
//! A population of candidate tours is evolved by fitness-ranked selection,
//! order-preserving segment crossover and swap mutation.  A coordinator
//! process partitions each generation across a fixed set of workers, which
//! evaluate fitness and reply; the coordinator merges, ranks and reproduces.
//! Edge weights and fitness values are integers; an invalid tour (one whose
//! index multiset is not exactly `{0, ..., n-1}`) is assigned the sentinel
//! fitness `INVALID_FITNESS`, which sorts after every finite cost.

pub mod coordinator;
pub mod genetic_algorithm;
pub mod organism;
pub mod protocol;
pub mod rng;
pub mod tsp;
pub mod worker;
