//! The capability every evolvable individual offers the genetic engine.

use vstd::prelude::*;

verus! {

/// An evolvable individual: it reports a fitness (lower is better, with a
/// sentinel for individuals violating domain constraints), perturbs
/// itself in place, and combines with a partner into a new individual.
pub trait Organism: Sized {
    /// Structural well-formedness, preserved by every operation.
    spec fn inv(&self) -> bool;

    /// Whether two individuals belong to the same problem instance and
    /// may therefore be crossed.
    spec fn matches(&self, other: &Self) -> bool;

    /// The fitness this individual reports.
    spec fn fitness_spec(&self) -> u64;

    /// Observational equality: the engine cannot tell the two
    /// individuals apart (same problem instance, same genome).
    spec fn same_individual(&self, other: &Self) -> bool;

    /// What one crossover of the parents `(a, b)` can produce.
    spec fn offspring_of(&self, a: &Self, b: &Self) -> bool;

    /// What one mutation step can make of `orig`.
    spec fn perturbation_of(&self, orig: &Self) -> bool;

    /// Fitness is total: every well-formed individual reports a value,
    /// and it is a function of the individual alone.
    fn fitness(&self) -> (r: u64)
        requires
            self.inv(),
        ensures
            r == self.fitness_spec();

    /// A small random in-place perturbation.  Which perturbation is
    /// applied is up to the implementation's source of randomness, but
    /// well-formedness and problem membership are always preserved.
    fn mutate(&mut self)
        requires
            old(self).inv(),
        ensures
            final(self).inv(),
            final(self).perturbation_of(old(self)),
            forall|o: Self| (#[trigger] final(self).matches(&o)) == old(self).matches(&o),
            forall|o: Self| (#[trigger] o.matches(final(self))) == o.matches(old(self));

    /// Combines two parents into a new individual.  Both parents are only
    /// read (shared borrows), so neither is modified by the call.
    fn cross_over(&self, other: &Self) -> (r: Self)
        requires
            self.inv(),
            other.inv(),
            self.matches(other),
        ensures
            r.inv(),
            r.offspring_of(self, other),
            forall|o: Self| (#[trigger] self.matches(&o)) ==> r.matches(&o),
            forall|o: Self| (#[trigger] o.matches(self)) ==> o.matches(&r);

    /// A copy of this individual that the engine cannot distinguish from
    /// the original.
    fn duplicate(&self) -> (r: Self)
        ensures
            r.inv() == self.inv(),
            r.same_individual(self),
            r.fitness_spec() == self.fitness_spec(),
            forall|o: Self| (#[trigger] r.matches(&o)) == self.matches(&o),
            forall|o: Self| (#[trigger] o.matches(&r)) == o.matches(self);
}

} // verus!
