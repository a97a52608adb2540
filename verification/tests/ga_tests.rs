use std::sync::Arc;
use tsp_ga::genetic_algorithm::{ga_evaluate_population, ga_iteraration, par_sort_by_fitness};
use tsp_ga::organism::Organism;
use tsp_ga::rng::RATE_SCALE;
use tsp_ga::tsp::{random_population, TspSolution, INVALID_FITNESS, TSP};

fn matrix5() -> Vec<Vec<u32>> {
    vec![
        vec![0, 2, 9, 10, 7],
        vec![2, 0, 6, 4, 3],
        vec![9, 6, 0, 8, 5],
        vec![10, 4, 8, 0, 1],
        vec![7, 3, 5, 1, 0],
    ]
}

fn tsp_with_path(path: Vec<usize>) -> TSP {
    TSP::new(Arc::new(matrix5()), TspSolution { path })
}

#[test]
fn identity_solution_is_the_identity_permutation() {
    let s = TspSolution::new(6);
    assert_eq!(s.path, vec![0, 1, 2, 3, 4, 5]);
}

#[test]
fn fitness_of_identity_tour_is_consecutive_sum() {
    let t = tsp_with_path(vec![0, 1, 2, 3, 4]);
    // w[0][1] + w[1][2] + w[2][3] + w[3][4] = 2 + 6 + 8 + 1
    assert_eq!(t.fitness(), 17);
}

#[test]
fn fitness_of_reversed_identity_tour_matches() {
    let t = tsp_with_path(vec![4, 3, 2, 1, 0]);
    // w[4][3] + w[3][2] + w[2][1] + w[1][0] = 1 + 8 + 6 + 2
    assert_eq!(t.fitness(), 17);
}

#[test]
fn fitness_of_tour_with_duplicate_index_is_invalid() {
    let t = tsp_with_path(vec![0, 1, 1, 3, 4]);
    assert_eq!(t.fitness(), INVALID_FITNESS);
}

#[test]
fn fitness_of_tour_with_out_of_range_index_is_invalid() {
    let t = tsp_with_path(vec![0, 1, 2, 3, 7]);
    assert_eq!(t.fitness(), INVALID_FITNESS);
}

#[test]
fn mutation_preserves_permutation() {
    let mut t = tsp_with_path(vec![0, 1, 2, 3, 4]);
    for _ in 0..50 {
        t.mutate();
        let mut sorted = t.get_path().clone();
        sorted.sort_unstable();
        assert_eq!(sorted, vec![0, 1, 2, 3, 4]);
    }
}

#[test]
fn cross_over_leaves_parents_unchanged() {
    let a = tsp_with_path(vec![0, 1, 2, 3, 4]);
    let b = tsp_with_path(vec![4, 3, 2, 1, 0]);
    let a_before = a.get_path().clone();
    let b_before = b.get_path().clone();
    for _ in 0..20 {
        let child = a.cross_over(&b);
        assert_eq!(a.get_path(), &a_before);
        assert_eq!(b.get_path(), &b_before);
        assert_eq!(child.get_path().len(), 5);
        // every entry of the child comes from one of the parents
        for (i, &v) in child.get_path().iter().enumerate() {
            assert!(v == a_before[i] || v == b_before[i]);
        }
    }
}

#[test]
fn random_population_tours_are_permutations() {
    let pop = random_population(6, 8);
    assert_eq!(pop.len(), 8);
    for s in &pop {
        let mut sorted = s.path.clone();
        sorted.sort_unstable();
        assert_eq!(sorted, vec![0, 1, 2, 3, 4, 5]);
    }
}

#[test]
fn evaluate_population_pairs_each_tour_with_its_fitness() {
    let a = tsp_with_path(vec![0, 1, 2, 3, 4]);
    let b = tsp_with_path(vec![2, 0, 1, 4, 3]);
    let c = tsp_with_path(vec![0, 0, 1, 4, 3]);
    let expected: Vec<u64> = vec![a.fitness(), b.fitness(), c.fitness()];
    let paths: Vec<Vec<usize>> = vec![
        a.get_path().clone(),
        b.get_path().clone(),
        c.get_path().clone(),
    ];
    let evaluated = ga_evaluate_population(&vec![a, b, c]);
    assert_eq!(evaluated.len(), 3);
    for (i, (f, individual)) in evaluated.iter().enumerate() {
        assert_eq!(*f, expected[i]);
        assert_eq!(individual.get_path(), &paths[i]);
    }
}

#[test]
fn ranking_sorts_pairs_by_fitness() {
    let mut pairs = vec![
        (5u64, TspSolution { path: vec![0, 1] }),
        (1u64, TspSolution { path: vec![2, 3] }),
        (3u64, TspSolution { path: vec![4, 5] }),
    ];
    par_sort_by_fitness(&mut pairs);
    let fitnesses: Vec<u64> = pairs.iter().map(|p| p.0).collect();
    assert_eq!(fitnesses, vec![1, 3, 5]);
    // the pairing is kept: each fitness still travels with its tour
    assert_eq!(pairs[0].1.path, vec![2, 3]);
    assert_eq!(pairs[1].1.path, vec![4, 5]);
    assert_eq!(pairs[2].1.path, vec![0, 1]);
}

#[test]
fn generation_transition_conserves_population_size() {
    for &elite in &[0usize, 1, 2, 5] {
        let weights = Arc::new(matrix5());
        let population: Vec<TSP> = (0..6)
            .map(|_| TSP::new_with_random_path(weights.clone()))
            .collect();
        let next = ga_iteraration(population, 100, 900, elite);
        assert_eq!(next.len(), 6);
    }
}

#[test]
fn selection_breeds_from_the_fittest() {
    // with no crossover, no mutation and elite index 0, the next
    // population is the best individual twice: one copy bred from the
    // window over the non-elite tail, one carried as elite
    let good = tsp_with_path(vec![0, 1, 2, 3, 4]);
    let bad = tsp_with_path(vec![0, 0, 2, 3, 4]);
    assert_eq!(good.fitness(), 17);
    assert_eq!(bad.fitness(), INVALID_FITNESS);
    let next = ga_iteraration(vec![bad, good], 0, 0, 0);
    assert_eq!(next.len(), 2);
    for individual in &next {
        assert_eq!(individual.fitness(), 17);
    }
}

#[test]
fn rate_zero_transition_copies_ranked_individuals() {
    // distinct fitnesses make the ranking unique, and zero rates make
    // the step deterministic: each child copies its window's first
    // parent, and the elite slice is carried bit-for-bit in rank order
    let good = tsp_with_path(vec![0, 1, 2, 3, 4]); // fitness 17
    let mid = tsp_with_path(vec![4, 2, 0, 1, 3]); // 5 + 9 + 2 + 4 = 20
    let bad = tsp_with_path(vec![0, 0, 2, 3, 4]); // invalid
    assert_eq!(mid.fitness(), 20);
    // ranked ascending: [good, mid, bad]; elite 1: the one window over
    // [mid, bad] breeds a copy of mid, then [good, mid] is appended
    let next = ga_iteraration(vec![bad, mid, good], 0, 0, 1);
    assert_eq!(next.len(), 3);
    assert_eq!(next[0].get_path(), &vec![4, 2, 0, 1, 3]);
    assert_eq!(next[1].get_path(), &vec![0, 1, 2, 3, 4]);
    assert_eq!(next[2].get_path(), &vec![4, 2, 0, 1, 3]);
}

#[test]
fn generation_transition_conserves_size_with_maximal_elite() {
    let weights = Arc::new(matrix5());
    let population: Vec<TSP> = (0..4)
        .map(|_| TSP::new_with_random_path(weights.clone()))
        .collect();
    // elite == len - 1: no window fits, the next population is the elite
    let next = ga_iteraration(population, 0, RATE_SCALE, 3);
    assert_eq!(next.len(), 4);
}
