use vstd::prelude::*;

verus! {

/// The configuration of an evolutionary algorithm.
pub struct Algorithm {
    elitism: usize,
    tournament_size: usize,
}

impl Algorithm {
    pub closed spec fn spec_elitism(&self) -> usize {
        self.elitism
    }

    pub closed spec fn spec_tournament_size(&self) -> usize {
        self.tournament_size
    }

    /// A builder with an elitism of 1 and a tournament size of 10.
    pub fn builder() -> (r: Builder)
        ensures
            r.elitism == 1,
            r.tournament_size == 10,
    {
        Builder::default()
    }

    /// The number of elite genomes kept.
    pub fn elitism(&self) -> (r: usize)
        ensures
            r == self.spec_elitism(),
    {
        self.elitism
    }

    /// The number of genomes drawn per tournament.
    pub fn tournament_size(&self) -> (r: usize)
        ensures
            r == self.spec_tournament_size(),
    {
        self.tournament_size
    }
}

/// Configures an [`Algorithm`].
pub struct Builder {
    pub elitism: usize,
    pub tournament_size: usize,
}

impl Default for Builder {
    fn default() -> (r: Self)
        ensures
            r.elitism == 1,
            r.tournament_size == 10,
    {
        Builder { elitism: 1, tournament_size: 10 }
    }
}

impl Builder {
    /// Sets the number of elite genomes to keep.
    pub fn elitism(self, elitism: usize) -> (r: Self)
        ensures
            r.elitism == elitism,
            r.tournament_size == self.tournament_size,
    {
        Builder { elitism, ..self }
    }

    /// Sets the number of genomes drawn per tournament.
    pub fn tournament_size(self, tournament_size: usize) -> (r: Self)
        ensures
            r.tournament_size == tournament_size,
            r.elitism == self.elitism,
    {
        Builder { tournament_size, ..self }
    }

    /// Builds the algorithm.
    pub fn build(self) -> (r: Algorithm)
        ensures
            r.spec_elitism() == self.elitism,
            r.spec_tournament_size() == self.tournament_size,
    {
        Algorithm { elitism: self.elitism, tournament_size: self.tournament_size }
    }
}

} // verus!
