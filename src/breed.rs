use vstd::prelude::*;

verus! {

/// Breeding of genomes: crossover of two parents, then mutation of the offspring.
pub trait Breed<G>: Sized {
    fn crossover(&self, pair: (&G, &G)) -> G;

    /// Leaves the genome unchanged unless the breeder says otherwise.
    fn mutate(&self, genome: G) -> G {
        genome
    }

    /// Wraps the breeder in a manager.
    fn to_manager(self) -> Manager<G, Self> {
        Manager { _phantom: core::marker::PhantomData, breeder: self }
    }
}

/// Whether `offspring` can come from the breeder mutating the result of its
/// crossover of `left` and `right`.
pub open spec fn is_offspring_of<G, B: Breed<G>>(breeder: B, left: G, right: G, offspring: G) -> bool {
    exists|crossed: G|
        call_ensures(B::crossover, (&breeder, (&left, &right)), crossed) && #[trigger] call_ensures(
            B::mutate,
            (&breeder, crossed),
            offspring,
        )
}

/// Holds a breeder and produces offspring with it.
pub struct Manager<G, B: Breed<G>> {
    _phantom: core::marker::PhantomData<G>,
    breeder: B,
}

impl<G, B: Breed<G>> Manager<G, B> {
    /// The breeder that the manager holds.
    pub closed spec fn breeder(&self) -> B {
        self.breeder
    }

    pub fn new(breeder: B) -> (r: Self)
        ensures
            r.breeder() == breeder,
    {
        Manager { _phantom: core::marker::PhantomData, breeder }
    }

    /// Crosses the two parents and mutates the offspring.
    pub fn breed(&self, left: &G, right: &G) -> (r: G)
        ensures
            is_offspring_of(self.breeder(), *left, *right, r),
    {
        let offspring = self.breeder.crossover((left, right));
        let ghost crossed = offspring;
        let r = self.breeder.mutate(offspring);
        assert(call_ensures(B::crossover, (&self.breeder(), (left, right)), crossed));
        assert(call_ensures(B::mutate, (&self.breeder(), crossed), r));
        r
    }
}

} // verus!
