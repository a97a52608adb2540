//! The coordinator (controller) side of the distributed search.

use crate::genetic_algorithm::{coherent_evaluated, sorted_by_fitness};
use crate::organism::Organism;
use crate::protocol::{views_of, Message};
use crate::tsp::{clone_matrix, matrix_view, tour_fitness, wf_matrix, TspProblem, TspSolution, TSP};
use std::sync::Arc;
use vstd::multiset::Multiset;
use vstd::prelude::*;

verus! {

/// The run's configuration.  It is passed in explicitly — rather than
/// read from process-wide constants — so that small runs can be driven
/// and tested with small values.
#[derive(Clone, Copy)]
pub struct GaParams {
    /// How many generations to breed before the final evaluation pass.
    pub iterations: usize,
    /// Index of the last elite individual: the inclusive slice
    /// `ranked[0..=elite]` is carried unchanged into the next
    /// generation.
    pub elite: usize,
    /// Probability of mutating a child, scaled by `RATE_SCALE`.
    pub mutation_rate: u32,
    /// Probability of crossing a window pair, scaled by `RATE_SCALE`.
    pub crossover_rate: u32,
}

/// The coordinator's place in its run.
#[derive(Clone, Copy, PartialEq, Eq, Structural)]
pub enum Phase {
    /// The matrix has not been broadcast yet.
    Broadcast,
    /// The current population is to be chunked and sent out.
    Scatter,
    /// One reply per worker is awaited; all must arrive before the run
    /// proceeds.
    Gather,
    /// Every generation is bred and finally evaluated; the workers must
    /// now be told to exit.
    Terminate,
    /// Every worker was told to exit; the run is over.
    Done,
}

/// Concatenation of the workers' replies, in reply order.
pub open spec fn merged_replies(s: Seq<Vec<(u64, TspSolution)>>) -> Seq<(u64, TspSolution)>
    decreases s.len(),
{
    if s.len() == 0 {
        Seq::empty()
    } else {
        merged_replies(s.drop_last()) + s.last()@
    }
}

/// Concatenating two sequences adds their multisets.
proof fn lemma_to_multiset_concat<A>(x: Seq<A>, y: Seq<A>)
    ensures
        (x + y).to_multiset() == x.to_multiset().add(y.to_multiset()),
    decreases y.len(),
{
    broadcast use vstd::seq_lib::group_to_multiset_ensures;
    broadcast use vstd::multiset::group_multiset_axioms;

    if y.len() == 0 {
        assert(x + y =~= x);
        assert(y.to_multiset() =~= Multiset::<A>::empty());
        assert(x.to_multiset().add(y.to_multiset()) =~= x.to_multiset());
    } else {
        let y0 = y.drop_last();
        let e = y.last();
        lemma_to_multiset_concat(x, y0);
        assert(x + y =~= (x + y0).push(e));
        assert(y =~= y0.push(e));
        assert((x + y).to_multiset() =~= x.to_multiset().add(y.to_multiset()));
    }
}

/// Splitting off one reply: the merged entries of `s` are those of `s`
/// without its `k`-th reply, plus that reply's own entries.
proof fn lemma_merged_remove(s: Seq<Vec<(u64, TspSolution)>>, k: int)
    requires
        0 <= k < s.len(),
    ensures
        merged_replies(s).to_multiset() == merged_replies(s.remove(k)).to_multiset().add(
            s[k]@.to_multiset(),
        ),
    decreases s.len(),
{
    broadcast use vstd::multiset::group_multiset_axioms;

    if k == s.len() - 1 {
        assert(s.remove(k) =~= s.drop_last());
        lemma_to_multiset_concat(merged_replies(s.drop_last()), s[k]@);
        assert(s.last() == s[k]);
    } else {
        let s0 = s.drop_last();
        let e = s.last();
        lemma_merged_remove(s0, k);
        assert(s.remove(k).drop_last() =~= s0.remove(k));
        assert(s.remove(k).last() == e);
        assert(merged_replies(s.remove(k)) == merged_replies(s0.remove(k)) + e@);
        lemma_to_multiset_concat(merged_replies(s0), e@);
        lemma_to_multiset_concat(merged_replies(s0.remove(k)), e@);
        assert(merged_replies(s).to_multiset() =~= merged_replies(
            s.remove(k),
        ).to_multiset().add(s[k]@.to_multiset()));
    }
}

/// Merging ignores which worker contributed which reply: two reply
/// lists holding the same replies, however assigned to workers, merge
/// to the same entries.  Together with the ranking's contract — the
/// ranked set holds exactly the merged entries, in non-decreasing
/// fitness order — the global ranking does not depend on the
/// contribution order.
pub proof fn lemma_merge_order_independent(
    a: Seq<Vec<(u64, TspSolution)>>,
    b: Seq<Vec<(u64, TspSolution)>>,
)
    requires
        a.to_multiset() == b.to_multiset(),
    ensures
        merged_replies(a).to_multiset() == merged_replies(b).to_multiset(),
    decreases a.len(),
{
    broadcast use vstd::seq_lib::group_to_multiset_ensures;
    broadcast use vstd::multiset::group_multiset_axioms;

    if a.len() == 0 {
        assert(b.len() == b.to_multiset().len());
        assert(b.len() == 0);
    } else {
        let e = a.last();
        assert(a.contains(e));
        assert(a.to_multiset().count(e) > 0);
        assert(b.to_multiset().count(e) > 0);
        assert(b.contains(e));
        let k = choose|k: int| 0 <= k < b.len() && b[k] == e;
        let a0 = a.drop_last();
        let b0 = b.remove(k);
        assert(a.remove(a.len() - 1) =~= a0);
        assert(a0.to_multiset() == a.to_multiset().remove(e));
        assert(b0.to_multiset() == b.to_multiset().remove(e));
        lemma_merge_order_independent(a0, b0);
        lemma_merged_remove(b, k);
        lemma_to_multiset_concat(merged_replies(a0), e@);
        assert(merged_replies(a).to_multiset() == merged_replies(a0).to_multiset().add(
            e@.to_multiset(),
        ));
    }
}

/// A prefix of the replies never holds more entries than all of them.
proof fn lemma_merged_prefix_len(s: Seq<Vec<(u64, TspSolution)>>, k: int)
    requires
        0 <= k <= s.len(),
    ensures
        merged_replies(s.subrange(0, k)).len() <= merged_replies(s).len(),
    decreases s.len() - k,
{
    if k == s.len() {
        assert(s.subrange(0, k) =~= s);
    } else {
        lemma_merged_prefix_len(s, k + 1);
        assert(s.subrange(0, k + 1).drop_last() =~= s.subrange(0, k));
        assert(s.subrange(0, k + 1).last() == s[k]);
    }
}

/// Every merged entry stems from some reply, so a bound on the replies'
/// tour lengths carries over to the merged sequence.
proof fn lemma_merged_entry_lengths(s: Seq<Vec<(u64, TspSolution)>>, n: nat)
    requires
        forall|k: int, t: int|
            0 <= k < s.len() && 0 <= t < s[k]@.len() ==> (#[trigger] s[k]@[t]).1@.len() == n,
    ensures
        forall|i: int|
            0 <= i < merged_replies(s).len() ==> (#[trigger] merged_replies(s)[i]).1@.len() == n,
    decreases s.len(),
{
    if s.len() == 0 {
    } else {
        let head = s.drop_last();
        lemma_merged_entry_lengths(head, n);
        assert forall|i: int|
            0 <= i < merged_replies(s).len() implies (#[trigger] merged_replies(s)[i]).1@.len()
            == n by {
            if i < merged_replies(head).len() {
                assert(merged_replies(s)[i] == merged_replies(head)[i]);
            } else {
                let t = i - merged_replies(head).len();
                assert(merged_replies(s)[i] == s.last()@[t]);
                assert(s[s.len() - 1]@[t].1@.len() == n);
            }
        }
    }
}

/// Reordering fitness-annotated solutions preserves a per-entry tour
/// length bound: it depends only on which entries are present.
proof fn lemma_entry_lengths_multiset(a: Seq<(u64, TspSolution)>, b: Seq<(u64, TspSolution)>, n: nat)
    requires
        forall|i: int| 0 <= i < a.len() ==> (#[trigger] a[i]).1@.len() == n,
        b.to_multiset() == a.to_multiset(),
    ensures
        forall|i: int| 0 <= i < b.len() ==> (#[trigger] b[i]).1@.len() == n,
{
    broadcast use vstd::seq_lib::group_to_multiset_ensures;

    assert forall|i: int| 0 <= i < b.len() implies (#[trigger] b[i]).1@.len() == n by {
        assert(b.contains(b[i]));
        assert(b.to_multiset().count(b[i]) > 0);
        assert(a.to_multiset().count(b[i]) > 0);
        assert(a.contains(b[i]));
        let k = choose|k: int| 0 <= k < a.len() && a[k] == b[i];
        assert(a[k].1@.len() == n);
    }
}

/// The coordinator's state: the shared matrix, the current population
/// of tours, the configuration, and where it stands in the protocol
/// `Broadcast`, then per generation `Scatter`/`Gather`, then one final
/// `Scatter`/`Gather` pass for reporting, then `Terminate`, `Done`.
pub struct Coordinator {
    problem: TspProblem,
    population: Vec<TspSolution>,
    params: GaParams,
    workers: usize,
    generation: usize,
    phase: Phase,
}

impl Coordinator {
    /// The shared distance matrix.
    pub closed spec fn matrix(&self) -> Seq<Seq<u32>> {
        self.problem@
    }

    /// The tours of the current population.
    pub closed spec fn tours(&self) -> Seq<Seq<usize>> {
        views_of(self.population@)
    }

    pub closed spec fn spec_phase(&self) -> Phase {
        self.phase
    }

    /// Completed generation transitions.
    pub closed spec fn generation_spec(&self) -> int {
        self.generation as int
    }

    pub closed spec fn workers_spec(&self) -> int {
        self.workers as int
    }

    pub closed spec fn params_spec(&self) -> GaParams {
        self.params
    }

    /// Entries of one chunk: the population is split evenly.
    pub open spec fn chunk_size(&self) -> int {
        self.tours().len() as int / self.workers_spec()
    }

    /// The coordinator's invariant, established by `new` and preserved
    /// by every step.  The population size is conserved across the whole
    /// run, every tour always has the matrix's length, and the worker
    /// count divides the population size so that scatter sends chunks of
    /// one fixed size.
    pub open spec fn inv(&self) -> bool {
        &&& wf_matrix(self.matrix())
        &&& self.matrix().len() >= 1
        &&& self.workers_spec() >= 1
        &&& self.tours().len() >= 1
        &&& self.workers_spec() <= self.tours().len()
        &&& self.tours().len() as int % self.workers_spec() == 0
        &&& (self.params_spec().elite as int) < self.tours().len()
        &&& forall|i: int|
            0 <= i < self.tours().len() ==> (#[trigger] self.tours()[i]).len()
                == self.matrix().len()
        &&& 0 <= self.generation_spec() <= self.params_spec().iterations as int
        &&& (self.spec_phase() is Broadcast ==> self.generation_spec() == 0)
        &&& ((self.spec_phase() is Terminate || self.spec_phase() is Done)
            ==> self.generation_spec() == self.params_spec().iterations as int)
    }

    pub fn new(
        graph_weights: Vec<Vec<u32>>,
        population: Vec<TspSolution>,
        params: GaParams,
        workers: usize,
    ) -> (r: Self)
        requires
            wf_matrix(matrix_view(graph_weights@)),
            graph_weights@.len() >= 1,
            workers >= 1,
            population@.len() >= 1,
            workers <= population@.len(),
            population@.len() as int % (workers as int) == 0,
            (params.elite as int) < population@.len(),
            forall|i: int|
                0 <= i < population@.len() ==> (#[trigger] population@[i])@.len()
                    == graph_weights@.len(),
        ensures
            r.inv(),
            r.spec_phase() is Broadcast,
            r.generation_spec() == 0,
            r.matrix() == matrix_view(graph_weights@),
            r.tours() == views_of(population@),
            r.workers_spec() == workers,
            r.params_spec() == params,
    {
        let r = Coordinator {
            problem: TspProblem::new(Arc::new(graph_weights)),
            population,
            params,
            workers,
            generation: 0,
            phase: Phase::Broadcast,
        };
        proof {
            assert forall|i: int| 0 <= i < r.tours().len() implies (#[trigger] r.tours()[i]).len()
                == r.matrix().len() by {
                assert(r.tours()[i] == r.population@[i]@);
            }
        }
        r
    }

    /// The one-time broadcast payload: the shared matrix.  It must reach
    /// every worker before the first scatter.
    pub fn broadcast_payload(&mut self) -> (m: Message)
        requires
            old(self).inv(),
            old(self).spec_phase() is Broadcast,
        ensures
            final(self).inv(),
            final(self).spec_phase() is Scatter,
            final(self).matrix() == old(self).matrix(),
            final(self).tours() == old(self).tours(),
            final(self).generation_spec() == old(self).generation_spec(),
            final(self).workers_spec() == old(self).workers_spec(),
            final(self).params_spec() == old(self).params_spec(),
            m matches Message::ProblemData(w) && matrix_view(w@) == old(self).matrix(),
    {
        self.phase = Phase::Scatter;
        Message::ProblemData(clone_matrix(&self.problem.graph_weights))
    }

    /// Chunks the current population's tours into one message per
    /// worker: contiguous chunks of one fixed size, in worker order,
    /// which together hold exactly the current population's tours.
    pub fn scatter(&mut self) -> (msgs: Vec<Message>)
        requires
            old(self).inv(),
            old(self).spec_phase() is Scatter,
        ensures
            final(self).inv(),
            final(self).spec_phase() is Gather,
            final(self).matrix() == old(self).matrix(),
            final(self).tours() == old(self).tours(),
            final(self).generation_spec() == old(self).generation_spec(),
            final(self).workers_spec() == old(self).workers_spec(),
            final(self).params_spec() == old(self).params_spec(),
            msgs@.len() == old(self).workers_spec(),
            forall|k: int|
                0 <= k < msgs@.len() ==> ((#[trigger] msgs@[k]) matches Message::Population(c)
                    && views_of(c@) == old(self).tours().subrange(
                    k * old(self).chunk_size(),
                    (k + 1) * old(self).chunk_size(),
                )),
    {
        let total = self.population.len();
        let portions = total / self.workers;
        proof {
            vstd::arithmetic::div_mod::lemma_fundamental_div_mod(
                total as int,
                self.workers_spec(),
            );
            assert(total as int == self.workers_spec() * (portions as int));
        }
        let mut msgs: Vec<Message> = Vec::new();
        let mut k: usize = 0;
        while k < self.workers
            invariant
                0 <= k <= self.workers,
                self.inv(),
                self.spec_phase() is Scatter,
                total == self.tours().len(),
                portions == self.chunk_size(),
                total as int == self.workers_spec() * (portions as int),
                msgs@.len() == k,
                forall|t: int|
                    0 <= t < k ==> ((#[trigger] msgs@[t]) matches Message::Population(c)
                        && views_of(c@) == self.tours().subrange(
                        t * (portions as int),
                        (t + 1) * (portions as int),
                    )),
            decreases self.workers - k,
        {
            proof {
                assert((k + 1) * (portions as int) <= (self.workers_spec()) * (
                portions as int)) by (nonlinear_arith)
                    requires
                        k + 1 <= self.workers_spec(),
                        portions >= 0,
                ;
                assert(k * (portions as int) >= 0) by (nonlinear_arith)
                    requires
                        k >= 0,
                        portions >= 0,
                ;
                assert((k + 1) * (portions as int) == k * (portions as int) + (
                portions as int)) by (nonlinear_arith);
            }
            let base = k * portions;
            let mut chunk: Vec<TspSolution> = Vec::new();
            let mut t: usize = 0;
            while t < portions
                invariant
                    0 <= t <= portions,
                    base == k * (portions as int),
                    base + portions <= total,
                    total == self.tours().len(),
                    total == self.population@.len(),
                    chunk@.len() == t,
                    forall|q: int|
                        0 <= q < t ==> (#[trigger] chunk@[q])@ == self.population@[base + q]@,
                decreases portions - t,
            {
                chunk.push(self.population[base + t].clone());
                t += 1;
            }
            proof {
                assert(views_of(chunk@) =~= self.tours().subrange(
                    k * (portions as int),
                    (k + 1) * (portions as int),
                ));
            }
            msgs.push(Message::Population(chunk));
            k += 1;
        }
        self.phase = Phase::Gather;
        msgs
    }

    /// Whether a set of replies is complete: one per worker, together
    /// holding exactly as many entries as the population, each entry's
    /// tour of the matrix's length.  Anything else means a worker was
    /// lost or a message malformed — fatal to the run.
    pub fn replies_are_complete(&self, replies: &Vec<Vec<(u64, TspSolution)>>) -> (b: bool)
        ensures
            b == (replies@.len() == self.workers_spec() && merged_replies(replies@).len()
                == self.tours().len() && (forall|k: int, t: int|
                0 <= k < replies@.len() && 0 <= t < replies@[k]@.len()
                    ==> (#[trigger] replies@[k]@[t]).1@.len() == self.matrix().len())),
    {
        if replies.len() != self.workers {
            proof {
                assert(replies@.len() != self.workers_spec());
            }
            return false;
        }
        let n = self.problem.graph_weights.len();
        let target = self.population.len();
        let mut count: usize = 0;
        let mut k: usize = 0;
        while k < replies.len()
            invariant
                0 <= k <= replies@.len(),
                n == self.matrix().len(),
                target == self.tours().len(),
                count == merged_replies(replies@.subrange(0, k as int)).len(),
                count <= target,
                forall|q: int, t: int|
                    0 <= q < k && 0 <= t < replies@[q]@.len() ==> (#[trigger] replies@[q]@[
                    t]).1@.len() == n,
            decreases replies@.len() - k,
        {
            let reply = &replies[k];
            let mut t: usize = 0;
            while t < reply.len()
                invariant
                    0 <= t <= reply@.len(),
                    n == self.matrix().len(),
                    reply@ == replies@[k as int]@,
                    0 <= k < replies@.len(),
                    forall|q: int| 0 <= q < t ==> (#[trigger] reply@[q]).1@.len() == n,
                decreases reply@.len() - t,
            {
                if reply[t].1.path.len() != n {
                    return false;
                }
                t += 1;
            }
            if reply.len() > target - count {
                proof {
                    assert(replies@.subrange(0, k + 1).drop_last() =~= replies@.subrange(
                        0,
                        k as int,
                    ));
                    assert(replies@.subrange(0, k + 1).last() == replies@[k as int]);
                    assert(merged_replies(replies@.subrange(0, k + 1)).len() > target);
                    lemma_merged_prefix_len(replies@, k + 1);
                }
                return false;
            }
            count = count + reply.len();
            proof {
                assert(replies@.subrange(0, k + 1).drop_last() =~= replies@.subrange(0, k as int));
                assert(replies@.subrange(0, k + 1).last() == replies@[k as int]);
            }
            k += 1;
        }
        proof {
            assert(replies@.subrange(0, replies@.len() as int) =~= replies@);
        }
        count == target
    }

    /// The synchronous barrier of one generation: takes one reply per
    /// worker, merges them by concatenation, ranks the merged set by
    /// ascending fitness, and — except after the final evaluation pass —
    /// breeds the next population from the ranking.  Returns the ranked
    /// merged set for reporting.  The ranking holds exactly the merged
    /// entries, in non-decreasing fitness order, however the entries
    /// were distributed among the workers, and the population size is
    /// conserved.
    pub fn gather(&mut self, replies: Vec<Vec<(u64, TspSolution)>>) -> (ranked: Vec<
        (u64, TspSolution),
    >)
        requires
            old(self).inv(),
            old(self).spec_phase() is Gather,
            replies@.len() == old(self).workers_spec(),
            merged_replies(replies@).len() == old(self).tours().len(),
            forall|k: int, t: int|
                0 <= k < replies@.len() && 0 <= t < replies@[k]@.len()
                    ==> (#[trigger] replies@[k]@[t]).1@.len() == old(self).matrix().len(),
        ensures
            final(self).inv(),
            final(self).matrix() == old(self).matrix(),
            final(self).workers_spec() == old(self).workers_spec(),
            final(self).params_spec() == old(self).params_spec(),
            final(self).tours().len() == old(self).tours().len(),
            sorted_by_fitness(ranked@),
            ranked@.to_multiset() == merged_replies(replies@).to_multiset(),
            ranked@.len() == old(self).tours().len(),
            old(self).generation_spec() < old(self).params_spec().iterations as int ==> (
            final(self).spec_phase() is Scatter && final(self).generation_spec() == old(
                self,
            ).generation_spec() + 1),
            old(self).generation_spec() == old(self).params_spec().iterations as int ==> (
            final(self).spec_phase() is Terminate && final(self).tours() == old(self).tours()
                && final(self).generation_spec() == old(self).generation_spec()),
            old(self).generation_spec() < old(self).params_spec().iterations as int ==> forall|
                k: int,
            |
                0 <= k <= old(self).params_spec().elite ==> (#[trigger] final(self).tours()[
                final(self).tours().len() - (old(self).params_spec().elite + 1) + k])
                    == ranked@[k].1@,
    {
        let ghost reps = replies@;
        let ghost n = self.matrix().len();
        let mut rv = replies;
        let mut merged: Vec<(u64, TspSolution)> = Vec::new();
        let mut i: usize = 0;
        while rv.len() > 0
            invariant
                reps.len() <= usize::MAX,
                0 <= i <= reps.len(),
                i + rv@.len() == reps.len(),
                rv@ == reps.subrange(i as int, reps.len() as int),
                merged@ == merged_replies(reps.subrange(0, i as int)),
            decreases rv@.len(),
        {
            let mut chunk = rv.remove(0);
            proof {
                assert(chunk == reps[i as int]);
                assert(rv@ =~= reps.subrange(i + 1, reps.len() as int));
            }
            merged.append(&mut chunk);
            proof {
                assert(reps.subrange(0, i + 1).drop_last() =~= reps.subrange(0, i as int));
                assert(reps.subrange(0, i + 1).last() == reps[i as int]);
            }
            i += 1;
        }
        proof {
            assert(reps.subrange(0, reps.len() as int) =~= reps);
            assert(merged@ == merged_replies(reps));
        }
        let ghost unsorted = merged@;
        crate::genetic_algorithm::par_sort_by_fitness(&mut merged);
        proof {
            lemma_merged_entry_lengths(reps, n);
            lemma_entry_lengths_multiset(unsorted, merged@, n);
        }
        if self.generation < self.params.iterations {
            let mut pairs: Vec<(u64, TSP)> = Vec::new();
            let mut t: usize = 0;
            while t < merged.len()
                invariant
                    0 <= t <= merged@.len(),
                    self.inv(),
                    n == self.matrix().len(),
                    forall|q: int|
                        0 <= q < merged@.len() ==> (#[trigger] merged@[q]).1@.len() == n,
                    pairs@.len() == t,
                    forall|q: int| 0 <= q < t ==> (#[trigger] pairs@[q]).1.inv(),
                    forall|q: int|
                        0 <= q < t ==> (#[trigger] pairs@[q]).1.map_view() == self.matrix()
                            && pairs@[q].1.path_view() == merged@[q].1@ && pairs@[q].0
                            == merged@[q].0,
                decreases merged@.len() - t,
            {
                let f = merged[t].0;
                let sol = merged[t].1.clone();
                let handle = self.problem.clone();
                let tsp = TSP::new(handle.graph_weights, sol);
                pairs.push((f, tsp));
                t += 1;
            }
            proof {
                assert(coherent_evaluated(pairs@)) by {
                    assert forall|q: int, l: int|
                        0 <= q < pairs@.len() && 0 <= l
                            < pairs@.len() implies #[trigger] pairs@[q].1.matches(
                        &pairs@[l].1,
                    ) by {
                        assert(pairs@[q].1.map_view() == pairs@[l].1.map_view());
                    }
                }
            }
            let next = crate::genetic_algorithm::ga_transition(
                &pairs,
                self.params.mutation_rate,
                self.params.crossover_rate,
                self.params.elite,
            );
            proof {
                assert forall|l: int| 0 <= l < next@.len() implies (#[trigger] next@[
                l]).map_view() == self.matrix() by {
                    assert(next@[l].matches(&pairs@[0].1));
                }
            }
            let mut newpop: Vec<TspSolution> = Vec::new();
            let mut q: usize = 0;
            while q < next.len()
                invariant
                    0 <= q <= next@.len(),
                    n == self.matrix().len(),
                    forall|l: int| 0 <= l < next@.len() ==> (#[trigger] next@[l]).inv(),
                    forall|l: int|
                        0 <= l < next@.len() ==> (#[trigger] next@[l]).map_view()
                            == self.matrix(),
                    newpop@.len() == q,
                    forall|l: int|
                        0 <= l < q ==> (#[trigger] newpop@[l])@ == next@[l].path_view(),
                decreases next@.len() - q,
            {
                let sol = next[q].get_solution().clone();
                newpop.push(sol);
                q += 1;
            }
            self.population = newpop;
            self.generation = self.generation + 1;
            self.phase = Phase::Scatter;
            proof {
                assert forall|l: int| 0 <= l < self.tours().len() implies (#[trigger] self.tours()[
                l]).len() == self.matrix().len() by {
                    assert(self.tours()[l] == self.population@[l]@);
                }
                let e = self.params.elite as int;
                assert forall|k: int| 0 <= k <= e implies (#[trigger] self.tours()[self.tours().len()
                    - (e + 1) + k]) == merged@[k].1@ by {
                    assert(next@[next@.len() - (e + 1) + k].same_individual(&pairs@[k].1));
                    let idx = self.tours().len() - (e + 1) + k;
                    assert(self.tours()[idx] == self.population@[idx]@);
                    assert(self.population@[idx]@ == next@[idx].path_view());
                    assert(pairs@[k].1.path_view() == merged@[k].1@);
                }
            }
        } else {
            self.phase = Phase::Terminate;
        }
        merged
    }

    /// One terminate message per worker; once they are sent, the run is
    /// done and nothing further is exchanged.
    pub fn terminate_messages(&mut self) -> (msgs: Vec<Message>)
        requires
            old(self).inv(),
            old(self).spec_phase() is Terminate,
        ensures
            final(self).inv(),
            final(self).spec_phase() is Done,
            final(self).matrix() == old(self).matrix(),
            final(self).tours() == old(self).tours(),
            final(self).generation_spec() == old(self).generation_spec(),
            final(self).workers_spec() == old(self).workers_spec(),
            final(self).params_spec() == old(self).params_spec(),
            msgs@.len() == old(self).workers_spec(),
            forall|k: int| 0 <= k < msgs@.len() ==> (#[trigger] msgs@[k]) is Terminate,
    {
        let mut msgs: Vec<Message> = Vec::new();
        let mut k: usize = 0;
        while k < self.workers
            invariant
                0 <= k <= self.workers,
                msgs@.len() == k,
                forall|t: int| 0 <= t < k ==> (#[trigger] msgs@[t]) is Terminate,
            decreases self.workers - k,
        {
            msgs.push(Message::Terminate);
            k += 1;
        }
        self.phase = Phase::Done;
        msgs
    }

    /// The coordinator's current phase.
    pub fn phase(&self) -> (p: Phase)
        ensures
            p == self.spec_phase(),
    {
        self.phase
    }

    /// The size of the current population; conserved across the run.
    pub fn population_len(&self) -> (n: usize)
        ensures
            n == self.tours().len(),
    {
        self.population.len()
    }

    /// Completed generation transitions.
    pub fn current_generation(&self) -> (g: usize)
        ensures
            g == self.generation_spec(),
    {
        self.generation
    }

    /// The number of worker processes the run was configured with.
    pub fn worker_count(&self) -> (w: usize)
        ensures
            w == self.workers_spec(),
    {
        self.workers
    }
}

} // verus!
