//! The worker side of the distributed search.

use crate::genetic_algorithm::ga_evaluate_population;
use crate::organism::Organism;
use crate::protocol::Message;
use crate::tsp::{matrix_view, tour_fitness, wf_matrix, TspProblem, TspSolution, TSP};
use std::sync::Arc;
use vstd::prelude::*;

verus! {

/// What a worker does in reaction to one received message.
pub enum WorkerAction {
    /// Send this fitness-annotated sub-population back to the
    /// coordinator, then await the next message.
    Reply(Vec<(u64, TspSolution)>),
    /// An envelope the protocol does not expect here; nothing is sent
    /// and the worker keeps waiting.
    Ignore,
    /// Leave the loop; nothing further is sent.
    Exit,
}

/// A worker process's state: its own reconstruction of the shared
/// distance matrix, received once before the loop starts.
pub struct Worker {
    problem: TspProblem,
}

impl Worker {
    /// The worker's reconstruction of the shared distance matrix.
    pub closed spec fn matrix(&self) -> Seq<Seq<u32>> {
        self.problem@
    }

    pub open spec fn wf(&self) -> bool {
        wf_matrix(self.matrix()) && self.matrix().len() >= 1
    }

    /// Builds the worker state from the broadcast matrix payload.
    pub fn new(graph_weights: Vec<Vec<u32>>) -> (r: Self)
        requires
            wf_matrix(matrix_view(graph_weights@)),
            graph_weights@.len() >= 1,
        ensures
            r.wf(),
            r.matrix() == matrix_view(graph_weights@),
    {
        Worker { problem: TspProblem::new(Arc::new(graph_weights)) }
    }

    /// The number of nodes of the worker's matrix.
    pub fn nodes(&self) -> (n: usize)
        ensures
            n == self.matrix().len(),
    {
        self.problem.graph_weights.len()
    }

    /// Whether every tour of a received sub-population has the matrix's
    /// length; anything else is a malformed message, fatal to the run.
    pub fn accepts(&self, population: &Vec<TspSolution>) -> (b: bool)
        ensures
            b == (forall|i: int|
                0 <= i < population@.len() ==> (#[trigger] population@[i])@.len()
                    == self.matrix().len()),
    {
        let n = self.nodes();
        let mut i: usize = 0;
        while i < population.len()
            invariant
                0 <= i <= population@.len(),
                n == self.matrix().len(),
                forall|k: int| 0 <= k < i ==> (#[trigger] population@[k])@.len() == n,
            decreases population@.len() - i,
        {
            if population[i].path.len() != n {
                return false;
            }
            i += 1;
        }
        true
    }

    /// Handles one message of the worker loop.  A terminate message
    /// causes exit, with nothing further sent.  A sub-population is
    /// evaluated in parallel and answered with exactly one
    /// fitness-annotated entry per received tour, in order, each tour
    /// handed back unchanged.  Any other envelope is ignored.
    pub fn handle_message(&self, msg: &Message) -> (r: WorkerAction)
        requires
            self.wf(),
            msg matches Message::Population(pop) ==> forall|i: int|
                0 <= i < pop@.len() ==> (#[trigger] pop@[i])@.len() == self.matrix().len(),
        ensures
            msg is Terminate <==> r is Exit,
            msg is Population <==> r is Reply,
            (msg is ProblemData || msg is EvaluatedPopulation) <==> r is Ignore,
            msg is Population ==> r->Reply_0@.len() == msg->Population_0@.len(),
            msg is Population ==> forall|i: int|
                0 <= i < msg->Population_0@.len() ==> (#[trigger] r->Reply_0@[i]).0
                    == tour_fitness(msg->Population_0@[i]@, self.matrix())
                    && r->Reply_0@[i].1@ == msg->Population_0@[i]@,
    {
        match msg {
            Message::Terminate => WorkerAction::Exit,
            Message::Population(pop) => {
                let ghost n = self.matrix().len();
                let mut tsps: Vec<TSP> = Vec::new();
                let mut i: usize = 0;
                while i < pop.len()
                    invariant
                        0 <= i <= pop@.len(),
                        self.wf(),
                        n == self.matrix().len(),
                        forall|k: int|
                            0 <= k < pop@.len() ==> (#[trigger] pop@[k])@.len() == n,
                        tsps@.len() == i,
                        forall|k: int| 0 <= k < i ==> (#[trigger] tsps@[k]).inv(),
                        forall|k: int|
                            0 <= k < i ==> (#[trigger] tsps@[k]).path_view() == pop@[k]@
                                && tsps@[k].map_view() == self.matrix(),
                    decreases pop@.len() - i,
                {
                    let sol = pop[i].clone();
                    let handle = self.problem.clone();
                    let t = TSP::new(handle.graph_weights, sol);
                    tsps.push(t);
                    i += 1;
                }
                let evaluated = ga_evaluate_population(&tsps);
                let mut reply: Vec<(u64, TspSolution)> = Vec::new();
                let mut j: usize = 0;
                while j < evaluated.len()
                    invariant
                        0 <= j <= evaluated@.len(),
                        self.wf(),
                        n == self.matrix().len(),
                        evaluated@.len() == pop@.len(),
                        forall|k: int|
                            0 <= k < evaluated@.len() ==> (#[trigger] evaluated@[k]).0
                                == tour_fitness(pop@[k]@, self.matrix())
                                && evaluated@[k].1.path_view() == pop@[k]@,
                        reply@.len() == j,
                        forall|k: int|
                            0 <= k < j ==> (#[trigger] reply@[k]).0 == tour_fitness(
                                pop@[k]@,
                                self.matrix(),
                            ) && reply@[k].1@ == pop@[k]@,
                    decreases evaluated@.len() - j,
                {
                    let f = evaluated[j].0;
                    let s = evaluated[j].1.get_solution().clone();
                    reply.push((f, s));
                    j += 1;
                }
                WorkerAction::Reply(reply)
            },
            Message::ProblemData(_) => WorkerAction::Ignore,
            Message::EvaluatedPopulation(_) => WorkerAction::Ignore,
        }
    }
}

} // verus!
