//! The message envelope of the coordinator/worker protocol.

use crate::tsp::TspSolution;
use vstd::prelude::*;

verus! {

/// The tagged envelope carried by every inter-process exchange.  The
/// wire encoding is not the library's concern: the surrounding program
/// serializes an equivalent value and hands decoded values back.
pub enum Message {
    /// The run is over; the receiving worker leaves its loop.
    Terminate,
    /// A sub-population of candidate tours to evaluate.
    Population(Vec<TspSolution>),
    /// The one-time broadcast of the shared distance matrix.
    ProblemData(Vec<Vec<u32>>),
    /// Fitness-annotated tours, sent back by a worker.
    EvaluatedPopulation(Vec<(u64, TspSolution)>),
}

/// The tours of a sequence of solutions, as sequences of indices.
pub open spec fn views_of(s: Seq<TspSolution>) -> Seq<Seq<usize>> {
    s.map_values(|t: TspSolution| t@)
}

} // verus!
