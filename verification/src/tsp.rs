//! Candidate tours, the shared distance matrix, and the TSP individual.

use crate::organism::Organism;
use std::sync::Arc;
use vstd::prelude::*;
use vstd::seq_lib::*;

verus! {

/// Fitness assigned to a tour that is not a permutation of the node
/// indices.  It is strictly larger than the open-path cost of any valid
/// tour over a well-formed matrix, so invalid tours always rank last.
pub const INVALID_FITNESS: u64 = u64::MAX;

/// A well-formed distance matrix: square, and with a side small enough
/// that the cost of an open path visiting every node once fits in `u64`.
pub open spec fn wf_matrix(w: Seq<Seq<u32>>) -> bool {
    &&& w.len() <= u32::MAX
    &&& forall|i: int| 0 <= i < w.len() ==> (#[trigger] w[i]).len() == w.len()
}

/// A valid tour over `n` nodes: every index in `[0, n)` appears exactly
/// once.
pub open spec fn is_valid_tour(path: Seq<usize>, n: nat) -> bool {
    &&& path.len() == n
    &&& forall|i: int| 0 <= i < path.len() ==> (#[trigger] path[i]) < n
    &&& path.no_duplicates()
}

/// Cost of the open path `path` over the matrix `w`: the sum of the
/// weights of the edges between consecutive entries.  The first and last
/// entries are not implicitly connected.
pub open spec fn path_cost(path: Seq<usize>, w: Seq<Seq<u32>>) -> int
    decreases path.len(),
{
    if path.len() < 2 {
        0
    } else {
        path_cost(path.drop_last(), w) + w[path[path.len() - 2] as int][path[path.len()
            - 1] as int]
    }
}

/// Fitness of a tour: its open-path cost when it is a permutation of the
/// node indices, and `INVALID_FITNESS` otherwise.
pub open spec fn tour_fitness(path: Seq<usize>, w: Seq<Seq<u32>>) -> u64 {
    if is_valid_tour(path, w.len()) {
        path_cost(path, w) as u64
    } else {
        INVALID_FITNESS
    }
}

/// The cost of an open path is non-negative and at most one maximal edge
/// weight per edge.
pub proof fn lemma_path_cost_bound(path: Seq<usize>, w: Seq<Seq<u32>>)
    ensures
        0 <= path_cost(path, w),
        path.len() >= 1 ==> path_cost(path, w) <= (path.len() - 1) * (u32::MAX as int),
    decreases path.len(),
{
    if path.len() < 2 {
    } else {
        lemma_path_cost_bound(path.drop_last(), w);
    }
}

/// Over a well-formed matrix, a valid tour's cost is strictly below the
/// sentinel `INVALID_FITNESS`, so fitness distinguishes valid from
/// invalid tours.
pub proof fn lemma_valid_tour_cost_fits(path: Seq<usize>, w: Seq<Seq<u32>>)
    requires
        wf_matrix(w),
        is_valid_tour(path, w.len()),
    ensures
        0 <= path_cost(path, w) < INVALID_FITNESS,
        tour_fitness(path, w) == path_cost(path, w),
{
    lemma_path_cost_bound(path, w);
    if path.len() >= 1 {
        assert((path.len() - 1) * (u32::MAX as int) < u64::MAX as int) by (nonlinear_arith)
            requires 1 <= path.len() <= u32::MAX;
    }
}

/// Sum of the matrix entries `w[i][i+1]` for `i` in `[0, k)`.
pub open spec fn consecutive_edge_sum(w: Seq<Seq<u32>>, k: int) -> int
    decreases k,
{
    if k <= 0 {
        0
    } else {
        consecutive_edge_sum(w, k - 1) + w[k - 1][k]
    }
}

/// The open-path cost of the identity tour `[0, 1, ..., n-1]` is the
/// sum of the matrix entries `w[i][i+1]` for `i` up to `n - 2`.
pub proof fn lemma_identity_tour_cost(w: Seq<Seq<u32>>, n: nat)
    requires
        n <= usize::MAX,
    ensures
        path_cost(Seq::new(n, |i: int| i as usize), w) == consecutive_edge_sum(w, n - 1),
    decreases n,
{
    let p = Seq::new(n, |i: int| i as usize);
    if n < 2 {
    } else {
        lemma_identity_tour_cost(w, (n - 1) as nat);
        assert(p.drop_last() =~= Seq::new((n - 1) as nat, |i: int| i as usize));
        assert(p[n - 2] == (n - 2) as usize && p[n - 1] == (n - 1) as usize);
        assert((n - 2) as usize as int == n - 2 && (n - 1) as usize as int == n - 1);
    }
}

/// The fitness of the identity tour over a well-formed matrix is
/// exactly the sum of the entries `w[i][i+1]` for `i` in `[0, n-2]`:
/// the identity tour is a valid permutation, so no penalty applies.
pub proof fn lemma_identity_tour_fitness(w: Seq<Seq<u32>>)
    requires
        wf_matrix(w),
        w.len() >= 1,
    ensures
        tour_fitness(Seq::new(w.len(), |i: int| i as usize), w) == consecutive_edge_sum(
            w,
            w.len() - 1,
        ),
{
    let p = Seq::new(w.len(), |i: int| i as usize);
    assert(p.no_duplicates());
    assert(is_valid_tour(p, w.len()));
    lemma_identity_tour_cost(w, w.len());
    lemma_valid_tour_cost_fits(p, w);
}

/// A candidate solution: an ordered sequence of node indices.
#[derive(Debug)]
pub struct TspSolution {
    pub path: Vec<usize>,
}

impl View for TspSolution {
    type V = Seq<usize>;

    open spec fn view(&self) -> Seq<usize> {
        self.path@
    }
}

/// Copies a vector of indices element by element.
fn copy_usize_vec(v: &Vec<usize>) -> (r: Vec<usize>)
    ensures
        r@ == v@,
{
    let mut r: Vec<usize> = Vec::new();
    let mut i: usize = 0;
    while i < v.len()
        invariant
            0 <= i <= v.len(),
            r@ == v@.subrange(0, i as int),
        decreases v.len() - i,
    {
        r.push(v[i]);
        proof {
            assert(r@ =~= v@.subrange(0, i + 1));
        }
        i = i + 1;
    }
    proof {
        assert(r@ =~= v@);
    }
    r
}

impl Clone for TspSolution {
    /// The clone holds exactly the same path.
    fn clone(&self) -> (r: Self)
        ensures
            r@ == self@,
    {
        TspSolution { path: copy_usize_vec(&self.path) }
    }
}

impl TspSolution {
    /// The identity tour over `nodes` nodes: `[0, 1, ..., nodes - 1]`.
    pub fn new(nodes: usize) -> (r: Self)
        ensures
            r@.len() == nodes,
            forall|i: int| 0 <= i < nodes ==> r@[i] == i,
            is_valid_tour(r@, nodes as nat),
    {
        let mut path: Vec<usize> = Vec::new();
        let mut i: usize = 0;
        while i < nodes
            invariant
                0 <= i <= nodes,
                path@.len() == i,
                forall|k: int| 0 <= k < i ==> path@[k] == k,
            decreases nodes - i,
        {
            path.push(i);
            i = i + 1;
        }
        proof {
            assert(path@.no_duplicates()) by {
                assert forall|p: int, q: int|
                    0 <= p < path@.len() && 0 <= q < path@.len() && p != q implies path@[p]
                    != path@[q] by {
                    assert(path@[p] == p);
                    assert(path@[q] == q);
                }
            }
        }
        TspSolution { path }
    }
}

/// Relies on `Arc::clone`: the clone is another handle to the very same
/// allocation, so its contents equal the original's.
#[verifier::external_body]
fn share_matrix(a: &Arc<Vec<Vec<u32>>>) -> (r: Arc<Vec<Vec<u32>>>)
    ensures
        r == *a,
{
    Arc::clone(a)
}

/// View of a matrix held as a vector of rows: the sequence of row views.
pub open spec fn matrix_view(m: Seq<Vec<u32>>) -> Seq<Seq<u32>> {
    Seq::new(m.len(), |i: int| m[i]@)
}

/// The shared, read-only distance matrix.  Every individual holds a
/// reference-counted handle to one matrix; nothing mutates it after
/// construction.
pub struct TspProblem {
    pub graph_weights: Arc<Vec<Vec<u32>>>,
}

impl View for TspProblem {
    type V = Seq<Seq<u32>>;

    open spec fn view(&self) -> Seq<Seq<u32>> {
        matrix_view(self.graph_weights@)
    }
}

impl Clone for TspProblem {
    /// The clone holds a handle to the very same matrix.
    fn clone(&self) -> (r: Self)
        ensures
            r.graph_weights == self.graph_weights,
            r@ == self@,
    {
        TspProblem { graph_weights: share_matrix(&self.graph_weights) }
    }
}

impl TspProblem {
    pub fn new(graph_weights: Arc<Vec<Vec<u32>>>) -> (r: Self)
        ensures
            r.graph_weights == graph_weights,
            r@ == matrix_view(graph_weights@),
    {
        TspProblem { graph_weights }
    }
}

/// A tour with the same index multiset as a valid tour is itself valid:
/// validity depends only on which indices occur, and how often.
pub proof fn lemma_same_multiset_preserves_validity(a: Seq<usize>, b: Seq<usize>, n: nat)
    requires
        is_valid_tour(a, n),
        b.to_multiset() == a.to_multiset(),
    ensures
        is_valid_tour(b, n),
{
    broadcast use vstd::seq_lib::group_to_multiset_ensures;

    assert(b.len() == b.to_multiset().len());
    assert(a.len() == a.to_multiset().len());
    assert forall|i: int| 0 <= i < b.len() implies (#[trigger] b[i]) < n by {
        assert(b.contains(b[i]));
        assert(b.to_multiset().count(b[i]) > 0);
        assert(a.contains(b[i]));
        let j = choose|j: int| 0 <= j < a.len() && a[j] == b[i];
        assert(a[j] < n);
    }
    a.lemma_multiset_has_no_duplicates();
    assert forall|x: usize| b.to_multiset().contains(x) implies b.to_multiset().count(x) == 1 by {
        assert(a.to_multiset().count(x) == b.to_multiset().count(x));
    }
    b.lemma_multiset_has_no_duplicates_conv();
}

/// Swapping two entries of a sequence leaves its multiset unchanged.
pub proof fn lemma_swap_preserves_multiset(s: Seq<usize>, i: int, j: int)
    requires
        0 <= i < s.len(),
        0 <= j < s.len(),
    ensures
        s.update(i, s[j]).update(j, s[i]).to_multiset() == s.to_multiset(),
{
    broadcast use vstd::seq_lib::group_to_multiset_ensures;
    broadcast use vstd::seq_lib::to_multiset_update;
    broadcast use vstd::multiset::group_multiset_axioms;

    let mid = s.update(i, s[j]);
    let fin = mid.update(j, s[i]);
    if i == j {
        assert(fin =~= s);
    } else {
        assert(mid[j] == s[j]);
        assert(s.contains(s[i]));
        assert(s.contains(s[j]));
        assert(mid.contains(mid[i]));
        assert(fin.to_multiset() =~= s.to_multiset());
    }
}

/// `child` copies `a` outside `[s, e)` and `b` inside `[s, e)`: the
/// order-preserving segment-swap crossover with cut points `s` and `e`.
pub open spec fn is_cross_of(child: Seq<usize>, a: Seq<usize>, b: Seq<usize>, s: int, e: int) -> bool {
    &&& child.len() == a.len()
    &&& forall|i: int|
        0 <= i < child.len() ==> (#[trigger] child[i]) == if s <= i < e {
            b[i]
        } else {
            a[i]
        }
}

/// Relies on itertools' `Itertools::unique`: it yields each distinct
/// element exactly once, so the count of the returned iterator is the
/// number of distinct elements.
#[verifier::external_body]
fn distinct_count(v: &Vec<usize>) -> (r: usize)
    ensures
        r == v@.to_set().len(),
{
    itertools::Itertools::unique(v.iter()).count()
}

/// Copies a row of weights element by element.
fn copy_u32_vec(v: &Vec<u32>) -> (r: Vec<u32>)
    ensures
        r@ == v@,
{
    let mut r: Vec<u32> = Vec::new();
    let mut i: usize = 0;
    while i < v.len()
        invariant
            0 <= i <= v.len(),
            r@ == v@.subrange(0, i as int),
        decreases v.len() - i,
    {
        r.push(v[i]);
        proof {
            assert(r@ =~= v@.subrange(0, i + 1));
        }
        i = i + 1;
    }
    proof {
        assert(r@ =~= v@);
    }
    r
}

/// A deep copy of a distance matrix, row by row.
pub fn clone_matrix(w: &Vec<Vec<u32>>) -> (r: Vec<Vec<u32>>)
    ensures
        r@.len() == w@.len(),
        matrix_view(r@) == matrix_view(w@),
{
    let mut r: Vec<Vec<u32>> = Vec::new();
    let mut i: usize = 0;
    while i < w.len()
        invariant
            0 <= i <= w@.len(),
            r@.len() == i,
            forall|k: int| 0 <= k < i ==> (#[trigger] r@[k])@ == w@[k]@,
        decreases w@.len() - i,
    {
        let row: &Vec<u32> = &w[i];
        r.push(copy_u32_vec(row));
        i += 1;
    }
    proof {
        assert(matrix_view(r@) =~= matrix_view(w@));
    }
    r
}

/// Whether a matrix received from outside is a usable distance matrix:
/// non-empty, square, and with a side that fits in `u32`.
pub fn matrix_is_well_formed(w: &Vec<Vec<u32>>) -> (b: bool)
    ensures
        b == (wf_matrix(matrix_view(w@)) && matrix_view(w@).len() >= 1),
{
    let n = w.len();
    if n == 0 {
        return false;
    }
    if n > u32::MAX as usize {
        proof {
            assert(!wf_matrix(matrix_view(w@)));
        }
        return false;
    }
    let mut i: usize = 0;
    while i < n
        invariant
            0 <= i <= n,
            n == w@.len(),
            1 <= n <= u32::MAX,
            forall|k: int| 0 <= k < i ==> (#[trigger] matrix_view(w@)[k]).len() == n,
        decreases n - i,
    {
        let row: &Vec<u32> = &w[i];
        if row.len() != n {
            proof {
                assert(matrix_view(w@)[i as int].len() != n);
            }
            return false;
        }
        proof {
            assert(matrix_view(w@)[i as int].len() == n);
        }
        i += 1;
    }
    true
}

/// A population of independently random tours, each a uniformly random
/// permutation of `[0, nodes)`.
pub fn random_population(nodes: usize, count: usize) -> (r: Vec<TspSolution>)
    ensures
        r@.len() == count,
        forall|i: int| 0 <= i < count ==> is_valid_tour((#[trigger] r@[i])@, nodes as nat),
{
    let mut r: Vec<TspSolution> = Vec::new();
    let mut i: usize = 0;
    while i < count
        invariant
            0 <= i <= count,
            r@.len() == i,
            forall|k: int| 0 <= k < i ==> is_valid_tour((#[trigger] r@[k])@, nodes as nat),
        decreases count - i,
    {
        let mut s = TspSolution::new(nodes);
        let ghost identity = s@;
        crate::rng::shuffle(&mut s.path);
        proof {
            lemma_same_multiset_preserves_validity(identity, s@, nodes as nat);
        }
        r.push(s);
        i += 1;
    }
    r
}

/// A TSP individual: one candidate tour paired with a handle to the
/// shared distance matrix.
pub struct TSP {
    map: TspProblem,
    solution: TspSolution,
}

impl TSP {
    /// The distance matrix this individual refers to.
    pub closed spec fn map_view(&self) -> Seq<Seq<u32>> {
        self.map@
    }

    /// The tour this individual carries.
    pub closed spec fn path_view(&self) -> Seq<usize> {
        self.solution@
    }

    /// Well-formedness: a square matrix of at least one node whose side
    /// fits in `u32`, and a tour of matching length.  The tour need not
    /// be a permutation: invalid tours are penalized by `fitness`, not
    /// rejected at construction.
    pub open spec fn wf(&self) -> bool {
        &&& wf_matrix(self.map_view())
        &&& self.map_view().len() >= 1
        &&& self.path_view().len() == self.map_view().len()
    }

    pub fn new(graph_weights: Arc<Vec<Vec<u32>>>, solution: TspSolution) -> (r: Self)
        requires
            wf_matrix(matrix_view(graph_weights@)),
            graph_weights@.len() >= 1,
            solution@.len() == graph_weights@.len(),
        ensures
            r.wf(),
            r.map_view() == matrix_view(graph_weights@),
            r.path_view() == solution@,
    {
        TSP { map: TspProblem::new(graph_weights), solution }
    }

    /// A fresh individual whose tour is a uniformly random permutation.
    pub fn new_with_random_path(graph_weights: Arc<Vec<Vec<u32>>>) -> (r: Self)
        requires
            wf_matrix(matrix_view(graph_weights@)),
            graph_weights@.len() >= 1,
        ensures
            r.wf(),
            r.map_view() == matrix_view(graph_weights@),
            is_valid_tour(r.path_view(), graph_weights@.len()),
    {
        let n = graph_weights.len();
        let mut solution = TspSolution::new(n);
        let ghost identity = solution@;
        crate::rng::shuffle(&mut solution.path);
        proof {
            lemma_same_multiset_preserves_validity(identity, solution@, n as nat);
        }
        TSP { map: TspProblem::new(graph_weights), solution }
    }

    pub fn get_path(&self) -> (r: &Vec<usize>)
        ensures
            r@ == self.path_view(),
    {
        &self.solution.path
    }

    pub fn get_solution(&self) -> (r: &TspSolution)
        ensures
            r@ == self.path_view(),
    {
        &self.solution
    }

    pub fn get_map(&self) -> (r: &TspProblem)
        ensures
            r@ == self.map_view(),
    {
        &self.map
    }
}

impl Clone for TSP {
    /// The clone shares the same matrix handle and copies the tour.
    fn clone(&self) -> (r: Self)
        ensures
            r.map_view() == self.map_view(),
            r.path_view() == self.path_view(),
    {
        TSP { map: self.map.clone(), solution: self.solution.clone() }
    }
}

impl Organism for TSP {
    open spec fn inv(&self) -> bool {
        self.wf()
    }

    open spec fn matches(&self, other: &Self) -> bool {
        self.map_view() == other.map_view()
    }

    open spec fn fitness_spec(&self) -> u64 {
        tour_fitness(self.path_view(), self.map_view())
    }

    open spec fn same_individual(&self, other: &Self) -> bool {
        self.map_view() == other.map_view() && self.path_view() == other.path_view()
    }

    open spec fn offspring_of(&self, a: &Self, b: &Self) -> bool {
        &&& self.map_view() == a.map_view()
        &&& self.path_view().len() == a.path_view().len()
        &&& exists|s: int, e: int|
            0 <= s <= e < a.path_view().len() && is_cross_of(
                self.path_view(),
                a.path_view(),
                b.path_view(),
                s,
                e,
            )
    }

    open spec fn perturbation_of(&self, orig: &Self) -> bool {
        &&& self.map_view() == orig.map_view()
        &&& self.path_view().to_multiset() == orig.path_view().to_multiset()
        &&& exists|i: int, j: int|
            0 <= i < orig.path_view().len() && 0 <= j < orig.path_view().len()
                && self.path_view() == orig.path_view().update(i, orig.path_view()[j]).update(
                j,
                orig.path_view()[i],
            )
    }

    /// The open-path cost of the tour, or `INVALID_FITNESS` when the
    /// tour misses or duplicates any node index.
    fn fitness(&self) -> (r: u64)
        ensures
            r == tour_fitness(self.path_view(), self.map_view()),
    {
        let ghost w = self.map_view();
        let ghost p = self.path_view();
        let gw: &Vec<Vec<u32>> = &self.map.graph_weights;
        let n = gw.len();
        proof {
            assert(n == w.len());
        }
        let path = &self.solution.path;
        let mut i: usize = 0;
        while i < path.len()
            invariant
                0 <= i <= path.len(),
                path@ == p,
                p == self.path_view(),
                w == self.map_view(),
                n == w.len(),
                p.len() == n,
                forall|k: int| 0 <= k < i ==> (#[trigger] p[k]) < n,
            decreases path.len() - i,
        {
            if path[i] >= n {
                proof {
                    assert(p[i as int] >= n);
                    assert(!is_valid_tour(p, w.len()));
                }
                return INVALID_FITNESS;
            }
            i += 1;
        }
        let d = distinct_count(path);
        if d != n {
            proof {
                if p.no_duplicates() {
                    p.unique_seq_to_set();
                }
                assert(!is_valid_tour(p, w.len()));
            }
            return INVALID_FITNESS;
        }
        proof {
            assert(p.to_set().len() == p.len());
            p.lemma_no_dup_set_cardinality();
            assert(is_valid_tour(p, w.len()));
            lemma_valid_tour_cost_fits(p, w);
            assert(((n - 1) as int) * (u32::MAX as int) < u64::MAX as int) by (nonlinear_arith)
                requires
                    1 <= n <= u32::MAX,
            ;
        }
        let mut cost: u64 = 0;
        let mut j: usize = 1;
        while j < path.len()
            invariant
                1 <= j <= path.len(),
                path@ == p,
                p.len() == n,
                n == w.len(),
                1 <= n <= u32::MAX,
                wf_matrix(w),
                is_valid_tour(p, w.len()),
                gw == self.map.graph_weights,
                w == matrix_view(gw@),
                cost == path_cost(p.subrange(0, j as int), w),
                cost <= (j - 1) * (u32::MAX as int),
                ((n - 1) as int) * (u32::MAX as int) < u64::MAX as int,
            decreases path.len() - j,
        {
            let a = path[j - 1];
            let b = path[j];
            proof {
                assert(p[j as int - 1] < n);
                assert(p[j as int] < n);
                assert(gw@.len() == n);
            }
            let row: &Vec<u32> = &gw[a];
            proof {
                assert(w[a as int] == row@);
                assert(w[a as int].len() == n);
            }
            let wab: u32 = row[b];
            proof {
                assert(wab == w[a as int][b as int]);
                let prev = p.subrange(0, j as int);
                let cur = p.subrange(0, j as int + 1);
                assert(cur.drop_last() =~= prev);
                assert(cur[j as int - 1] == p[j as int - 1]);
                assert(cur[j as int] == p[j as int]);
                assert(path_cost(cur, w) == path_cost(prev, w) + w[p[j as int - 1] as int][p[j
                    as int] as int]);
                assert(cost + wab <= (j as int) * (u32::MAX as int));
            }
            cost = cost + (wab as u64);
            j += 1;
        }
        proof {
            assert(p.subrange(0, p.len() as int) =~= p);
        }
        cost
    }

    /// Swaps the entries at two uniformly random positions (which may
    /// coincide, so a no-op mutation is possible).  The index multiset
    /// is unchanged, hence a valid tour stays valid.
    fn mutate(&mut self)
        ensures
            final(self).path_view().to_multiset() == old(self).path_view().to_multiset(),
            final(self).path_view().len() == old(self).path_view().len(),
            final(self).map_view() == old(self).map_view(),
            exists|i: int, j: int|
                0 <= i < old(self).path_view().len() && 0 <= j < old(self).path_view().len()
                    && final(self).path_view() == old(self).path_view().update(
                    i,
                    old(self).path_view()[j],
                ).update(j, old(self).path_view()[i]),
            is_valid_tour(old(self).path_view(), old(self).map_view().len()) ==> is_valid_tour(
                final(self).path_view(),
                final(self).map_view().len(),
            ),
    {
        let len = self.solution.path.len();
        let first_index = crate::rng::random_below(len);
        let second_index = crate::rng::random_below(len);
        let ghost p0 = self.solution.path@;
        let a = self.solution.path[first_index];
        let b = self.solution.path[second_index];
        self.solution.path[first_index] = b;
        self.solution.path[second_index] = a;
        proof {
            lemma_swap_preserves_multiset(p0, first_index as int, second_index as int);
            if is_valid_tour(p0, self.map_view().len()) {
                lemma_same_multiset_preserves_validity(
                    p0,
                    self.solution.path@,
                    self.map_view().len(),
                );
            }
        }
    }

    /// Order-preserving segment swap: the child copies this parent's
    /// tour outside a random window `[start, end)` and the partner's
    /// tour inside it.  The child need not be a valid permutation; an
    /// invalid child is penalized by `fitness`, not repaired.  Both
    /// parents are only read.
    fn cross_over(&self, other: &Self) -> (r: Self)
        ensures
            r.map_view() == self.map_view(),
            r.path_view().len() == self.path_view().len(),
            exists|s: int, e: int|
                0 <= s <= e < self.path_view().len() && is_cross_of(
                    r.path_view(),
                    self.path_view(),
                    other.path_view(),
                    s,
                    e,
                ),
    {
        let len = self.solution.path.len();
        let start_index = crate::rng::random_below(len);
        let end_index = start_index + crate::rng::random_below(len - start_index);
        let mut new_path: Vec<usize> = Vec::new();
        let mut i: usize = 0;
        while i < len
            invariant
                0 <= i <= len,
                len == self.path_view().len(),
                other.path_view().len() == len,
                new_path@.len() == i,
                0 <= start_index <= end_index < len,
                forall|k: int|
                    0 <= k < i ==> (#[trigger] new_path@[k]) == if start_index <= k < end_index {
                        other.path_view()[k]
                    } else {
                        self.path_view()[k]
                    },
            decreases len - i,
        {
            if i >= start_index && i < end_index {
                new_path.push(other.solution.path[i]);
            } else {
                new_path.push(self.solution.path[i]);
            }
            i += 1;
        }
        let r = TSP { map: self.map.clone(), solution: TspSolution { path: new_path } };
        proof {
            assert(r.path_view() == new_path@);
            assert(is_cross_of(
                r.path_view(),
                self.path_view(),
                other.path_view(),
                start_index as int,
                end_index as int,
            ));
        }
        r
    }

    /// A copy sharing the same matrix handle, with an equal tour.
    fn duplicate(&self) -> (r: Self)
        ensures
            r.map_view() == self.map_view(),
            r.path_view() == self.path_view(),
    {
        self.clone()
    }
}

} // verus!
