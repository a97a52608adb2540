//! The generation-transition engine of the evolutionary search.

use crate::organism::Organism;
use crate::tsp::TSP;
use rayon::iter::IntoParallelRefIterator;
use rayon::iter::ParallelIterator;
use rayon::slice::ParallelSliceMut;
use vstd::prelude::*;
use vstd::seq_lib::group_to_multiset_ensures;

verus! {

/// Evaluated individuals in non-decreasing order of fitness.
pub open spec fn sorted_by_fitness<T>(s: Seq<(u64, T)>) -> bool {
    forall|i: int, j: int| 0 <= i <= j < s.len() ==> (#[trigger] s[i]).0 <= (#[trigger] s[j]).0
}

/// Every individual of the population is well-formed, and any two of
/// them belong to the same problem instance.
pub open spec fn coherent_population<T: Organism>(s: Seq<T>) -> bool {
    &&& forall|i: int| 0 <= i < s.len() ==> (#[trigger] s[i]).inv()
    &&& forall|i: int, j: int|
        0 <= i < s.len() && 0 <= j < s.len() ==> #[trigger] s[i].matches(&s[j])
}

/// As `coherent_population`, for fitness-annotated individuals.
pub open spec fn coherent_evaluated<T: Organism>(s: Seq<(u64, T)>) -> bool {
    &&& forall|i: int| 0 <= i < s.len() ==> (#[trigger] s[i]).1.inv()
    &&& forall|i: int, j: int|
        0 <= i < s.len() && 0 <= j < s.len() ==> #[trigger] s[i].1.matches(&s[j].1)
}

/// Reordering fitness-annotated individuals preserves coherence: it
/// depends only on which individuals are present.
pub proof fn lemma_coherent_evaluated_multiset<T: Organism>(a: Seq<(u64, T)>, b: Seq<(u64, T)>)
    requires
        coherent_evaluated(a),
        b.to_multiset() == a.to_multiset(),
    ensures
        coherent_evaluated(b),
{
    broadcast use group_to_multiset_ensures;

    assert forall|i: int| 0 <= i < b.len() implies (#[trigger] b[i]).1.inv() by {
        assert(b.contains(b[i]));
        assert(b.to_multiset().count(b[i]) > 0);
        assert(a.to_multiset().count(b[i]) > 0);
        assert(a.contains(b[i]));
        let k = choose|k: int| 0 <= k < a.len() && a[k] == b[i];
        assert(a[k].1.inv());
    }
    assert forall|i: int, j: int|
        0 <= i < b.len() && 0 <= j < b.len() implies #[trigger] b[i].1.matches(&b[j].1) by {
        assert(b.contains(b[i]));
        assert(b.to_multiset().count(b[i]) > 0);
        assert(a.to_multiset().count(b[i]) > 0);
        assert(a.contains(b[i]));
        assert(b.contains(b[j]));
        assert(b.to_multiset().count(b[j]) > 0);
        assert(a.to_multiset().count(b[j]) > 0);
        assert(a.contains(b[j]));
        let k = choose|k: int| 0 <= k < a.len() && a[k] == b[i];
        let l = choose|l: int| 0 <= l < a.len() && a[l] == b[j];
        assert(a[k].1.matches(&a[l].1));
    }
}

/// Some individual of `r` is at least as fit (fitness is a cost: lower
/// is better) as every individual of `pop`.
pub open spec fn keeps_a_fittest<T: Organism>(r: Seq<T>, pop: Seq<T>) -> bool {
    exists|k: int|
        #![trigger r[k]]
        0 <= k < r.len() && forall|i: int|
            0 <= i < pop.len() ==> (#[trigger] pop[i]).fitness_spec() >= r[k].fitness_spec()
}

/// Pairs whose key is their individual's reported fitness keep that
/// property under reordering.
proof fn lemma_keys_match_multiset<T: Organism>(a: Seq<(u64, T)>, b: Seq<(u64, T)>)
    requires
        forall|i: int| 0 <= i < a.len() ==> (#[trigger] a[i]).0 == a[i].1.fitness_spec(),
        b.to_multiset() == a.to_multiset(),
    ensures
        forall|i: int| 0 <= i < b.len() ==> (#[trigger] b[i]).0 == b[i].1.fitness_spec(),
{
    broadcast use group_to_multiset_ensures;

    assert forall|i: int| 0 <= i < b.len() implies (#[trigger] b[i]).0 == b[i].1.fitness_spec() by {
        assert(b.contains(b[i]));
        assert(b.to_multiset().count(b[i]) > 0);
        assert(a.to_multiset().count(b[i]) > 0);
        assert(a.contains(b[i]));
        let k = choose|k: int| 0 <= k < a.len() && a[k] == b[i];
        assert(a[k].0 == a[k].1.fitness_spec());
    }
}

/// Relies on rayon's `par_iter().map().collect()`: the closure, which
/// only calls the verified `Organism::fitness`, is applied to every
/// individual, and the results are collected in the original order.
#[verifier::external_body]
fn par_fitness<T: Organism + Sync>(population: &Vec<T>) -> (r: Vec<u64>)
    requires
        forall|i: int| 0 <= i < population@.len() ==> (#[trigger] population@[i]).inv(),
    ensures
        r@.len() == population@.len(),
        forall|i: int| 0 <= i < r@.len() ==> r@[i] == (#[trigger] population@[i]).fitness_spec(),
{
    population.par_iter().map(|t| t.fitness()).collect()
}

/// Relies on rayon's `par_sort_unstable_by_key`: sorts the pairs in
/// place by their first component, keeping exactly the original pairs
/// (an unstable sort: the order of pairs with equal fitness is
/// unspecified).
#[verifier::external_body]
pub fn par_sort_by_fitness<T: Send>(v: &mut Vec<(u64, T)>)
    ensures
        final(v)@.len() == old(v)@.len(),
        final(v)@.to_multiset() == old(v)@.to_multiset(),
        sorted_by_fitness(final(v)@),
{
    v.par_sort_unstable_by_key(|p| p.0)
}

/// Relies on rayon's `par_iter().map().collect()`: the closure, which
/// only calls the verified `fitness` and `duplicate`, is applied to
/// every individual, and the results are collected in the original
/// order.
#[verifier::external_body]
pub fn ga_evaluate_population(population: &Vec<TSP>) -> (r: Vec<(u64, TSP)>)
    requires
        forall|i: int| 0 <= i < population@.len() ==> (#[trigger] population@[i]).inv(),
    ensures
        r@.len() == population@.len(),
        forall|i: int|
            0 <= i < r@.len() ==> (#[trigger] r@[i]).0 == population@[i].fitness_spec()
                && r@[i].1.path_view() == population@[i].path_view() && r@[i].1.map_view()
                == population@[i].map_view(),
{
    population.par_iter().map(|t| (t.fitness(), t.duplicate())).collect()
}

/// The child stems from the window pair `(first, second)`: it is a
/// crossover of the pair or a copy of `first`, mutated at most once.
/// No other provenance is possible.
pub open spec fn bred_from<T: Organism>(child: T, first: T, second: T) -> bool {
    exists|c0: T|
        #![trigger c0.offspring_of(&first, &second)]
        #![trigger c0.same_individual(&first)]
        (c0.offspring_of(&first, &second) || c0.same_individual(&first)) && (child == c0
            || child.perturbation_of(&c0))
}

/// Each individual paired with the fitness it reports.
pub open spec fn fitness_pairs<T: Organism>(pop: Seq<T>) -> Seq<(u64, T)> {
    pop.map_values(|t: T| (t.fitness_spec(), t))
}

/// The exact shape of one reproduction step over the ranking `sorted`:
/// the last `elite_size + 1` elements of `r` are copies of
/// `sorted[0..=elite_size]`, in rank order; every other element is bred
/// from its overlapping window pair of the non-elite tail; and with
/// both rates zero each child is a plain copy of its window's first
/// parent, so its fitness is that parent's.
pub open spec fn transition_shape<T: Organism>(
    r: Seq<T>,
    sorted: Seq<(u64, T)>,
    mutation_rate: u32,
    crossover_rate: u32,
    elite_size: int,
) -> bool {
    &&& sorted_by_fitness(sorted)
    &&& r.len() == sorted.len()
    &&& forall|k: int|
        0 <= k <= elite_size ==> (#[trigger] r[r.len() - (elite_size + 1) + k]).same_individual(
            &sorted[k].1,
        ) && r[r.len() - (elite_size + 1) + k].fitness_spec() == sorted[k].1.fitness_spec()
    &&& forall|i: int|
        0 <= i < r.len() - (elite_size + 1) ==> bred_from(
            #[trigger] r[i],
            sorted[elite_size + i].1,
            sorted[elite_size + i + 1].1,
        )
    &&& (mutation_rate == 0 && crossover_rate == 0 ==> forall|i: int|
        0 <= i < r.len() - (elite_size + 1) ==> (#[trigger] r[i]).same_individual(
            &sorted[elite_size + i].1,
        ) && r[i].fitness_spec() == sorted[elite_size + i].1.fitness_spec())
}

/// One window of the reproduction step: a crossover of the pair with
/// probability `crossover_rate / RATE_SCALE`, otherwise a copy of the
/// first parent; the child is then mutated with probability
/// `mutation_rate / RATE_SCALE`.  The parents are only read.  With both
/// rates zero the child is a plain copy of the first parent.
pub fn reproduce_pair<T: Organism>(
    first: &T,
    second: &T,
    mutation_rate: u32,
    crossover_rate: u32,
) -> (child: T)
    requires
        first.inv(),
        second.inv(),
        first.matches(second),
        first.matches(first),
    ensures
        child.inv(),
        bred_from(child, *first, *second),
        mutation_rate == 0 && crossover_rate == 0 ==> child.same_individual(first)
            && child.fitness_spec() == first.fitness_spec(),
        forall|o: T| (#[trigger] first.matches(&o)) ==> child.matches(&o),
        forall|o: T| (#[trigger] o.matches(first)) ==> o.matches(&child),
{
    let mut child = if crate::rng::coin(crossover_rate) {
        first.cross_over(second)
    } else {
        first.duplicate()
    };
    let ghost before_mutation = child;
    if crate::rng::coin(mutation_rate) {
        child.mutate();
    }
    proof {
        assert((before_mutation.offspring_of(&*first, &*second)
            || before_mutation.same_individual(&*first)) && (child == before_mutation
            || child.perturbation_of(&before_mutation)));
        assert(bred_from(child, *first, *second));
        assert forall|o: T| (#[trigger] first.matches(&o)) implies child.matches(&o) by {}
        assert forall|o: T| (#[trigger] o.matches(first)) implies o.matches(&child) by {}
    }
    child
}

/// The reproduction step of one generation, on an already ranked
/// population.  A window of size 2 slides with stride 1 over the
/// non-elite tail `ranked[elite_size..]` (overlapping pairs, so each
/// tail individual is once a first and once a second parent), producing
/// one child per window: a crossover of the pair with probability
/// `crossover_rate / RATE_SCALE`, otherwise a copy of the first parent.
/// Each child is then mutated with probability
/// `mutation_rate / RATE_SCALE`, and a copy of the elite slice
/// `ranked[0..=elite_size]` (inclusive upper bound) is appended.  The
/// tail yields `len - elite_size - 1` children and the elite slice
/// `elite_size + 1` copies, so the population size is conserved exactly,
/// for every `elite_size < len`.
pub fn ga_transition<T: Organism>(
    ranked: &Vec<(u64, T)>,
    mutation_rate: u32,
    crossover_rate: u32,
    elite_size: usize,
) -> (r: Vec<T>)
    requires
        elite_size < ranked@.len(),
        sorted_by_fitness(ranked@),
        coherent_evaluated(ranked@),
    ensures
        r@.len() == ranked@.len(),
        coherent_population(r@),
        forall|k: int, j: int|
            0 <= k < r@.len() && 0 <= j < ranked@.len() ==> #[trigger] r@[k].matches(
                &ranked@[j].1,
            ),
        transition_shape(r@, ranked@, mutation_rate, crossover_rate, elite_size as int),
{
    let ghost rs = ranked@;
    let total: usize = ranked.len();
    proof {
        assert(rs.len() == total);
    }
    let mut next: Vec<T> = Vec::new();
    let mut i: usize = elite_size;
    while i + 1 < ranked.len()
        invariant
            ranked@ == rs,
            rs.len() <= usize::MAX,
            elite_size <= i < rs.len(),
            elite_size < rs.len(),
            coherent_evaluated(rs),
            next@.len() == i - elite_size,
            forall|k: int| 0 <= k < next@.len() ==> (#[trigger] next@[k]).inv(),
            forall|k: int|
                0 <= k < next@.len() ==> bred_from(
                    #[trigger] next@[k],
                    rs[elite_size + k].1,
                    rs[elite_size + k + 1].1,
                ),
            mutation_rate == 0 && crossover_rate == 0 ==> forall|k: int|
                0 <= k < next@.len() ==> (#[trigger] next@[k]).same_individual(
                    &rs[elite_size + k].1,
                ) && next@[k].fitness_spec() == rs[elite_size + k].1.fitness_spec(),
            forall|k: int, j: int|
                0 <= k < next@.len() && 0 <= j < rs.len() ==> #[trigger] next@[k].matches(
                    &rs[j].1,
                ),
            forall|k: int, j: int|
                0 <= k < next@.len() && 0 <= j < rs.len() ==> #[trigger] rs[j].1.matches(
                    &next@[k],
                ),
            forall|k: int, l: int|
                0 <= k < next@.len() && 0 <= l < next@.len() ==> #[trigger] next@[k].matches(
                    &next@[l],
                ),
        decreases rs.len() - i,
    {
        let ghost prev = next@;
        let first = &ranked[i].1;
        let second = &ranked[i + 1].1;
        proof {
            assert(rs[i as int].1.matches(&rs[i as int + 1].1));
            assert(rs[i as int].1.matches(&rs[i as int].1));
        }
        let child = reproduce_pair(first, second, mutation_rate, crossover_rate);
        proof {
            assert(bred_from(child, rs[i as int].1, rs[i as int + 1].1));
            assert forall|j: int| 0 <= j < rs.len() implies #[trigger] child.matches(&rs[j].1) by {
                assert(rs[i as int].1.matches(&rs[j].1));
            }
            assert forall|j: int| 0 <= j < rs.len() implies #[trigger] rs[j].1.matches(&child) by {
                assert(rs[j].1.matches(&rs[i as int].1));
            }
            assert(rs[i as int].1.matches(&child));
            assert(child.matches(&child));
            assert forall|t: int| 0 <= t < prev.len() implies #[trigger] child.matches(
                &prev[t],
            ) by {
                assert(rs[i as int].1.matches(&prev[t]));
            }
            assert forall|t: int| 0 <= t < prev.len() implies #[trigger] prev[t].matches(
                &child,
            ) by {
                assert(prev[t].matches(&rs[i as int].1));
            }
        }
        next.push(child);
        i += 1;
    }
    let ghost children = next@;
    proof {
        assert(i == rs.len() - 1);
        assert(children.len() == rs.len() - 1 - elite_size);
    }
    let mut k: usize = 0;
    while k < elite_size + 1
        invariant
            ranked@ == rs,
            rs.len() <= usize::MAX,
            elite_size < rs.len(),
            coherent_evaluated(rs),
            0 <= k <= elite_size + 1,
            next@.len() == children.len() + k,
            children.len() == rs.len() - 1 - elite_size,
            forall|t: int| 0 <= t < children.len() ==> next@[t] == children[t],
            forall|t: int|
                0 <= t < children.len() ==> bred_from(
                    #[trigger] next@[t],
                    rs[elite_size + t].1,
                    rs[elite_size + t + 1].1,
                ),
            mutation_rate == 0 && crossover_rate == 0 ==> forall|t: int|
                0 <= t < children.len() ==> (#[trigger] next@[t]).same_individual(
                    &rs[elite_size + t].1,
                ) && next@[t].fitness_spec() == rs[elite_size + t].1.fitness_spec(),
            forall|t: int|
                0 <= t < k ==> (#[trigger] next@[children.len() + t]).fitness_spec()
                    == rs[t].1.fitness_spec(),
            forall|t: int|
                0 <= t < k ==> (#[trigger] next@[children.len() + t]).same_individual(
                    &rs[t].1,
                ),
            forall|t: int| 0 <= t < next@.len() ==> (#[trigger] next@[t]).inv(),
            forall|t: int, j: int|
                0 <= t < next@.len() && 0 <= j < rs.len() ==> #[trigger] next@[t].matches(
                    &rs[j].1,
                ),
            forall|t: int, j: int|
                0 <= t < next@.len() && 0 <= j < rs.len() ==> #[trigger] rs[j].1.matches(
                    &next@[t],
                ),
            forall|t: int, l: int|
                0 <= t < next@.len() && 0 <= l < next@.len() ==> #[trigger] next@[t].matches(
                    &next@[l],
                ),
        decreases elite_size + 1 - k,
    {
        let ghost prev = next@;
        let copy = ranked[k].1.duplicate();
        proof {
            assert forall|j: int| 0 <= j < rs.len() implies #[trigger] copy.matches(&rs[j].1) by {
                assert(rs[k as int].1.matches(&rs[j].1));
            }
            assert forall|j: int| 0 <= j < rs.len() implies #[trigger] rs[j].1.matches(&copy) by {
                assert(rs[j].1.matches(&rs[k as int].1));
            }
            assert forall|t: int| 0 <= t < prev.len() implies #[trigger] copy.matches(
                &prev[t],
            ) by {
                assert(copy.matches(&rs[k as int].1));
                assert(rs[k as int].1.matches(&prev[t]));
            }
            assert forall|t: int| 0 <= t < prev.len() implies #[trigger] prev[t].matches(
                &copy,
            ) by {
                assert(prev[t].matches(&rs[k as int].1));
            }
            assert(copy.matches(&copy)) by {
                assert(rs[k as int].1.matches(&rs[k as int].1));
                assert(rs[k as int].1.matches(&copy));
            }
        }
        next.push(copy);
        k += 1;
    }
    proof {
        assert forall|t: int| 0 <= t <= elite_size implies (#[trigger] next@[next@.len() - (
        elite_size + 1) + t]).same_individual(&rs[t].1) && next@[next@.len() - (elite_size + 1)
            + t].fitness_spec() == rs[t].1.fitness_spec() by {
            assert(next@.len() - (elite_size + 1) + t == children.len() + t);
            assert(next@[children.len() + t].same_individual(&rs[t].1));
            assert(next@[children.len() + t].fitness_spec() == rs[t].1.fitness_spec());
        }
    }
    next
}

/// One full single-process generation step: evaluates the population in
/// parallel, ranks it by ascending fitness, and applies the
/// reproduction step of `ga_transition`.  For some ascending ranking of
/// the input's fitness-annotated individuals — which one is up to the
/// unstable sort's tie order — the result has the reproduction step's
/// exact shape over that ranking: the population size is conserved, the
/// last `elite_size + 1` elements are copies of the `elite_size + 1`
/// best-ranked individuals in rank order, every other element is bred
/// from its window pair, and with both rates zero each child is a copy
/// of its window's first parent.
pub fn ga_iteraration<T: Organism + Send + Sync>(
    population: Vec<T>,
    mutation_rate: u32,
    crossover_rate: u32,
    elite_size: usize,
) -> (r: Vec<T>)
    requires
        elite_size < population@.len(),
        coherent_population(population@),
    ensures
        r@.len() == population@.len(),
        coherent_population(r@),
        forall|k: int, j: int|
            0 <= k < r@.len() && 0 <= j < population@.len() ==> #[trigger] r@[k].matches(
                &population@[j],
            ),
        keeps_a_fittest(r@, population@),
        exists|sorted: Seq<(u64, T)>|
            sorted.to_multiset() == fitness_pairs(population@).to_multiset()
                && #[trigger] transition_shape(
                r@,
                sorted,
                mutation_rate,
                crossover_rate,
                elite_size as int,
            ),
{
    let ghost orig = population@;
    let count: usize = population.len();
    proof {
        assert(orig.len() == count);
    }
    let fitness_values = par_fitness(&population);
    let mut evaluated: Vec<(u64, T)> = Vec::new();
    let mut pop = population;
    let mut idx: usize = 0;
    while pop.len() > 0
        invariant
            orig.len() <= usize::MAX,
            idx == evaluated@.len(),
            idx + pop@.len() == orig.len(),
            pop@ == orig.subrange(idx as int, orig.len() as int),
            fitness_values@.len() == orig.len(),
            forall|t: int|
                0 <= t < fitness_values@.len() ==> fitness_values@[t] == (#[trigger] orig[
                    t]).fitness_spec(),
            forall|t: int|
                0 <= t < idx ==> #[trigger] evaluated@[t] == (orig[t].fitness_spec(), orig[t]),
            coherent_population(orig),
        decreases pop@.len(),
    {
        let t = pop.remove(0);
        proof {
            assert(t == orig[idx as int]);
            assert(pop@ =~= orig.subrange(idx + 1, orig.len() as int));
        }
        evaluated.push((fitness_values[idx], t));
        idx += 1;
    }
    proof {
        assert(evaluated@.len() == orig.len());
        assert(coherent_evaluated(evaluated@)) by {
            assert forall|i: int| 0 <= i < evaluated@.len() implies (#[trigger] evaluated@[
                i]).1.inv() by {
                assert(evaluated@[i] == (orig[i].fitness_spec(), orig[i]));
            }
            assert forall|i: int, j: int|
                0 <= i < evaluated@.len() && 0 <= j
                    < evaluated@.len() implies #[trigger] evaluated@[i].1.matches(
                &evaluated@[j].1,
            ) by {
                assert(evaluated@[i] == (orig[i].fitness_spec(), orig[i]));
                assert(evaluated@[j] == (orig[j].fitness_spec(), orig[j]));
                assert(orig[i].matches(&orig[j]));
            }
        }
    }
    let ghost unsorted = evaluated@;
    par_sort_by_fitness(&mut evaluated);
    proof {
        lemma_coherent_evaluated_multiset(unsorted, evaluated@);
        lemma_keys_match_multiset(unsorted, evaluated@);
    }
    let r = ga_transition(&evaluated, mutation_rate, crossover_rate, elite_size);
    proof {
        broadcast use group_to_multiset_ensures;

        assert(unsorted.len() == fitness_pairs(orig).len());
        assert forall|t: int| 0 <= t < unsorted.len() implies unsorted[t] == fitness_pairs(
            orig,
        )[t] by {
            assert(unsorted[t] == (orig[t].fitness_spec(), orig[t]));
        }
        assert(unsorted =~= fitness_pairs(orig));
        assert(evaluated@.to_multiset() == fitness_pairs(orig).to_multiset());
        assert(transition_shape(
            r@,
            evaluated@,
            mutation_rate,
            crossover_rate,
            elite_size as int,
        ));

        let rs = r@;
        let sorted = evaluated@;
        let k0 = rs.len() - (elite_size + 1);
        assert(rs[rs.len() - (elite_size + 1) + 0].fitness_spec() == sorted[0].1.fitness_spec());
        assert(rs[k0].fitness_spec() == sorted[0].0);
        assert forall|i: int|
            0 <= i < orig.len() implies (#[trigger] orig[i]).fitness_spec()
            >= rs[k0].fitness_spec() by {
            assert(unsorted[i] == (orig[i].fitness_spec(), orig[i]));
            assert(unsorted.contains(unsorted[i]));
            assert(unsorted.to_multiset().count(unsorted[i]) > 0);
            assert(sorted.to_multiset().count(unsorted[i]) > 0);
            assert(sorted.contains(unsorted[i]));
            let j = choose|j: int| 0 <= j < sorted.len() && sorted[j] == unsorted[i];
            assert(sorted[0].0 <= sorted[j].0);
        }
        assert(keeps_a_fittest(r@, orig));
        assert forall|k: int, j: int|
            0 <= k < rs.len() && 0 <= j < orig.len() implies #[trigger] rs[k].matches(
            &orig[j],
        ) by {
            assert(unsorted[j] == (orig[j].fitness_spec(), orig[j]));
            assert(unsorted.contains(unsorted[j]));
            assert(unsorted.to_multiset().count(unsorted[j]) > 0);
            assert(sorted.to_multiset().count(unsorted[j]) > 0);
            assert(sorted.contains(unsorted[j]));
            let l = choose|l: int| 0 <= l < sorted.len() && sorted[l] == unsorted[j];
            assert(rs[k].matches(&sorted[l].1));
        }
    }
    r
}

} // verus!
