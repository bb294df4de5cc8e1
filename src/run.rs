use crate::breed::{is_offspring_of, Breed, Manager};
use crate::fitness::{CompareRecord, Error as FitnessError, FitnessCheck};
use crate::generation::{
    elite_of, genomes, injected, is_injection_of, lemma_elitism_lower_bound, partition_elite,
    rank_generation, ranked, valid_slots, Generation,
};
use crate::tournament::Tournament;
use vstd::prelude::*;

verus! {

/// Failed offspring tolerated in a row before a run gives up, unless configured.
pub const DEFAULT_RETRY_LIMIT: usize = 1000;

/// Why an algorithm could not be built or could not produce the next generation.
#[derive(Clone, Copy, Debug, PartialEq, Eq, Structural)]
pub enum Error {
    /// No breeder was given to the builder.
    BreederNotSet,
    /// No fitness calculator was given to the builder.
    FitnessCalcNotSet,
    /// The tournament size was zero.
    TournamentSizeZero,
    /// Not one genome of a non-empty generation had a computable fitness.
    NoRankedGenomes,
    /// The fitness of too many offspring in a row could not be computed.
    BreedingStalled,
}

impl Error {
    /// The message that describes the error.
    pub fn message(&self) -> (r: &'static str)
        ensures
            *self == Error::BreederNotSet ==> r@ == "breeder not set"@,
            *self == Error::FitnessCalcNotSet ==> r@ == "fitness calc not set"@,
            *self == Error::TournamentSizeZero ==> r@ == "tournament size is zero"@,
            *self == Error::NoRankedGenomes ==> r@ == "no genome has a computable fitness"@,
            *self == Error::BreedingStalled ==> r@
                == "too many offspring in a row had no computable fitness"@,
    {
        match self {
            Error::BreederNotSet => "breeder not set",
            Error::FitnessCalcNotSet => "fitness calc not set",
            Error::TournamentSizeZero => "tournament size is zero",
            Error::NoRankedGenomes => "no genome has a computable fitness",
            Error::BreedingStalled => "too many offspring in a row had no computable fitness",
        }
    }
}

/// Runs the genetic algorithm.
pub struct Run<G, B: Breed<G>, C: FitnessCheck<G>> {
    breeder: Manager<G, B>,
    fitness_calc: C,
    elitism: usize,
    tournament_size: usize,
    retry_limit: usize,
}

impl<G, B: Breed<G>, C: FitnessCheck<G>> Run<G, B, C> {
    /// A built algorithm always draws at least one genome per tournament.
    #[verifier::type_invariant]
    spec fn draws_at_least_one(&self) -> bool {
        self.tournament_size > 0
    }
}

/// Whether `fitness` lists a possible outcome of checking each genome with `calc`.
pub open spec fn checked_all<G, C: FitnessCheck<G>>(
    calc: C,
    generation: Seq<G>,
    fitness: Seq<Result<u64, FitnessError>>,
) -> bool {
    &&& fitness.len() == generation.len()
    &&& forall|i: int|
        0 <= i < generation.len() ==> call_ensures(
            C::check,
            (&calc, &generation[i]),
            #[trigger] fitness[i],
        )
}

/// Whether `offspring` was bred by `breeder` from two records of `pool`.
pub open spec fn bred_from_pool<G, B: Breed<G>>(
    breeder: B,
    pool: Seq<CompareRecord<G>>,
    offspring: G,
) -> bool {
    exists|l: int, m: int|
        0 <= l < pool.len() && 0 <= m < pool.len() && #[trigger] is_offspring_of(
            breeder,
            pool[l].predict,
            pool[m].predict,
            offspring,
        )
}

/// Whether checking the genome with `calc` can succeed.
pub open spec fn passes_check<G, C: FitnessCheck<G>>(calc: C, genome: G) -> bool {
    exists|f: u64| #[trigger] call_ensures(C::check, (&calc, &genome), Ok::<u64, FitnessError>(f))
}

/// Whether checking the genome with `calc` can fail.
pub open spec fn fails_check<G, C: FitnessCheck<G>>(calc: C, genome: G) -> bool {
    exists|e: FitnessError|
        #[trigger] call_ensures(C::check, (&calc, &genome), Err::<u64, FitnessError>(e))
}

/// Whether every one of `offspring` was bred from the pool and passed its check.
pub open spec fn is_brood<G, B: Breed<G>, C: FitnessCheck<G>>(
    breeder: B,
    calc: C,
    pool: Seq<CompareRecord<G>>,
    offspring: Seq<G>,
) -> bool {
    forall|i: int|
        0 <= i < offspring.len() ==> bred_from_pool(breeder, pool, #[trigger] offspring[i])
            && passes_check(calc, offspring[i])
}

/// Whether every one of `failed` was bred from the pool and failed its check.
pub open spec fn is_failed_brood<G, B: Breed<G>, C: FitnessCheck<G>>(
    breeder: B,
    calc: C,
    pool: Seq<CompareRecord<G>>,
    failed: Seq<G>,
) -> bool {
    forall|i: int|
        0 <= i < failed.len() ==> bred_from_pool(breeder, pool, #[trigger] failed[i])
            && fails_check(calc, failed[i])
}

/// Whether breeding from the pool stalled: `limit + 1` offspring in a row, each
/// bred from the pool, failed their check.
pub open spec fn is_stall<G, B: Breed<G>, C: FitnessCheck<G>>(
    breeder: B,
    calc: C,
    pool: Seq<CompareRecord<G>>,
    limit: usize,
) -> bool {
    exists|failed: Seq<G>|
        failed.len() == limit + 1 && #[trigger] is_failed_brood(breeder, calc, pool, failed)
}

impl<G, B: Breed<G>, C: FitnessCheck<G>> Run<G, B, C> {
    pub closed spec fn breeder(&self) -> Manager<G, B> {
        self.breeder
    }

    pub closed spec fn fitness_calc(&self) -> C {
        self.fitness_calc
    }

    pub closed spec fn elitism(&self) -> usize {
        self.elitism
    }

    pub closed spec fn tournament_size(&self) -> usize {
        self.tournament_size
    }

    pub closed spec fn retry_limit(&self) -> usize {
        self.retry_limit
    }

    /// Whether `next` is `offspring`, bred from the pool and passing their checks,
    /// with the fittest `elitism` genomes of the pool injected at `slots`; with
    /// pairwise distinct slots every one of those genomes is in `next`.
    #[verifier::opaque]
    pub open spec fn is_bred_and_injected(
        &self,
        pool: Seq<CompareRecord<G>>,
        offspring: Seq<G>,
        slots: Seq<usize>,
        next: Seq<G>,
    ) -> bool {
        let elite = elite_of(pool, self.elitism() as nat);
        &&& is_brood(self.breeder().breeder(), self.fitness_calc(), pool, offspring)
        &&& valid_slots(slots, elite.len(), offspring.len())
        &&& next == injected(offspring, elite, slots)
        &&& (forall|i: int, j: int| 0 <= i < j < slots.len() ==> slots[i] != slots[j]) ==> forall|
            i: int,
        | 0 <= i < elite.len() ==> next.contains(#[trigger] elite[i])
    }

    /// What a run can return for `generation` once the ranked generation is `pool`:
    /// `NoRankedGenomes` exactly when the generation is not empty and the pool is;
    /// on success as many offspring as genomes, bred and injected as above;
    /// `BreedingStalled` only after breeding from the pool stalled.
    pub open spec fn is_outcome_for(
        &self,
        generation: Seq<G>,
        pool: Seq<CompareRecord<G>>,
        r: Result<Generation<G>, Error>,
    ) -> bool {
        &&& (r == Err::<Generation<G>, Error>(Error::NoRankedGenomes) <==> generation.len() > 0
            && pool.len() == 0)
        &&& (r matches Ok(next) ==> exists|offspring: Seq<G>, slots: Seq<usize>|
            #[trigger] self.is_bred_and_injected(pool, offspring, slots, next@) && offspring.len()
                == generation.len())
        &&& (r == Err::<Generation<G>, Error>(Error::BreedingStalled) ==> is_stall(
            self.breeder().breeder(),
            self.fitness_calc(),
            pool,
            self.retry_limit(),
        ))
    }

    /// What a run can return for `generation`: for some outcome of checking each
    /// genome, the outcome for the ranked generation.
    pub open spec fn is_run_outcome(&self, generation: Seq<G>, r: Result<Generation<G>, Error>) -> bool {
        exists|fitness: Seq<Result<u64, FitnessError>>|
            #[trigger] checked_all(self.fitness_calc(), generation, fitness) && self.is_outcome_for(
                generation,
                ranked(generation, fitness),
                r,
            )
    }

    /// A builder with an elitism of 1, a tournament size of 10, the default retry
    /// limit, and neither breeder nor fitness calculator.
    pub fn builder() -> (r: Builder<G, B, C>)
        ensures
            r.elitism == 1,
            r.tournament_size == 10,
            r.retry_limit == DEFAULT_RETRY_LIMIT,
            r.breeder is None,
            r.fitness_calc is None,
    {
        Builder::default()
    }

    /// Runs one generation: ranks it, breeds a new generation of the same size from
    /// tournament-selected parents, and injects the fittest genomes of the ranked
    /// generation into it at random slots.
    pub fn run(&self, generation: Generation<G>) -> (r: Result<Generation<G>, Error>)
        ensures
            r matches Ok(next) ==> next@.len() == generation@.len(),
            generation@.len() == 0 ==> r is Ok,
            r matches Err(e) ==> generation@.len() > 0 && (e == Error::NoRankedGenomes || e
                == Error::BreedingStalled),
            self.is_run_outcome(generation@, r),
    {
        let n = generation.len();
        let ghost g0 = generation@;
        let fitness = self.check_generation(&generation);
        let ghost f0 = fitness@;
        let ranked_generation = rank_generation(generation, fitness);
        let ghost pool = ranked_generation@;
        if n > 0 && ranked_generation.len() == 0 {
            let r = Err(Error::NoRankedGenomes);
            assert(self.is_outcome_for(g0, pool, r));
            assert(self.is_run_outcome(g0, r));
            return r;
        }
        let next_generation = match self.new_generation(&ranked_generation, n) {
            Ok(next) => next,
            Err(e) => {
                let r = Err(e);
                assert(self.is_outcome_for(g0, pool, r));
                assert(self.is_run_outcome(g0, r));
                return r;
            },
        };
        let ghost offspring = next_generation@;
        let elite = partition_elite(ranked_generation, self.elitism);
        let ghost e0 = elite@;
        let next = genomes(next_generation, elite);
        proof {
            assert(is_injection_of(offspring, e0, next@));
            let slots = choose|slots: Seq<usize>|
                valid_slots(slots, e0.len(), offspring.len()) && #[trigger] injected(
                    offspring,
                    e0,
                    slots,
                ) == next@;
            lemma_elitism_lower_bound(offspring, pool, self.elitism() as nat, slots);
            assert(self.is_bred_and_injected(pool, offspring, slots, next@)) by {
                reveal(Run::is_bred_and_injected);
            }
            let r = Ok::<Generation<G>, Error>(next);
            assert(r->Ok_0@ == next@);
            assert(self.is_bred_and_injected(pool, offspring, slots, r->Ok_0@));
            assert(r matches Ok(x) ==> exists|o: Seq<G>, sl: Seq<usize>|
                #[trigger] self.is_bred_and_injected(pool, o, sl, x@) && o.len() == g0.len());
            assert(self.is_outcome_for(g0, pool, Ok::<Generation<G>, Error>(next)));
            assert(self.is_run_outcome(g0, Ok::<Generation<G>, Error>(next)));
        }
        Ok(next)
    }

    /// Checks the fitness of every genome, in order.
    fn check_generation(&self, generation: &Generation<G>) -> (r: Vec<Result<u64, FitnessError>>)
        ensures
            checked_all(self.fitness_calc(), generation@, r@),
    {
        let mut r: Vec<Result<u64, FitnessError>> = Vec::with_capacity(generation.len());
        let mut i: usize = 0;
        while i < generation.len()
            invariant
                i <= generation@.len(),
                r@.len() == i,
                forall|k: int|
                    0 <= k < i ==> call_ensures(
                        C::check,
                        (&self.fitness_calc, &generation@[k]),
                        #[trigger] r@[k],
                    ),
            decreases generation@.len() - i,
        {
            r.push(self.fitness_calc.check(&generation[i]));
            i = i + 1;
        }
        r
    }

    /// Breeds `size` offspring whose fitness could be computed, from parents drawn
    /// by tournament out of the ranked generation; gives up when `retry_limit + 1`
    /// offspring in a row fail their check.
    fn new_generation(&self, parents: &Vec<CompareRecord<G>>, size: usize) -> (r: Result<
        Generation<G>,
        Error,
    >)
        requires
            size > 0 ==> parents@.len() > 0,
        ensures
            r matches Ok(next) ==> next@.len() == size && is_brood(
                self.breeder().breeder(),
                self.fitness_calc(),
                parents@,
                next@,
            ),
            r matches Err(e) ==> size > 0 && e == Error::BreedingStalled && is_stall(
                self.breeder().breeder(),
                self.fitness_calc(),
                parents@,
                self.retry_limit(),
            ),
    {
        proof {
            use_type_invariant(self);
        }
        let ghost breeder = self.breeder().breeder();
        let ghost calc = self.fitness_calc();
        let tournament = Tournament::new(self.tournament_size);
        let mut next: Vec<G> = Vec::with_capacity(size);
        let mut failures: usize = 0;
        let ghost mut failed: Seq<G> = Seq::empty();
        while next.len() < size
            invariant
                next@.len() <= size,
                failures <= self.retry_limit,
                size > 0 ==> parents@.len() > 0,
                tournament.size() > 0,
                breeder == self.breeder().breeder(),
                calc == self.fitness_calc(),
                is_brood(breeder, calc, parents@, next@),
                failed.len() == failures,
                is_failed_brood(breeder, calc, parents@, failed),
            decreases size - next@.len(), self.retry_limit - failures,
        {
            let left = tournament.select(parents.as_slice());
            let right = tournament.select(parents.as_slice());
            match (left, right) {
                (Some(left), Some(right)) => {
                    let child = self.breeder.breed(&left.predict, &right.predict);
                    let ghost bred = child;
                    proof {
                        let l = choose|l: int| 0 <= l < parents@.len() && *left == #[trigger] parents@[l];
                        let m = choose|m: int| 0 <= m < parents@.len() && *right == #[trigger] parents@[m];
                        assert(is_offspring_of(breeder, parents@[l].predict, parents@[m].predict, bred));
                        assert(bred_from_pool(breeder, parents@, bred));
                    }
                    let outcome = self.fitness_calc.check(&child);
                    match outcome {
                        Ok(f) => {
                            proof {
                                assert(call_ensures(C::check, (&calc, &bred), Ok::<u64, FitnessError>(f)));
                                assert(passes_check(calc, bred));
                            }
                            let ghost before = next@;
                            next.push(child);
                            failures = 0;
                            proof {
                                failed = Seq::empty();
                                assert forall|i: int| 0 <= i < next@.len() implies bred_from_pool(breeder, parents@, #[trigger] next@[i])
                                    && passes_check(calc, next@[i]) by {
                                    if i < before.len() {
                                        assert(next@[i] == before[i]);
                                    }
                                }
                            }
                        },
                        Err(e) => {
                            proof {
                                assert(call_ensures(C::check, (&calc, &bred), Err::<u64, FitnessError>(e)));
                                assert(fails_check(calc, bred));
                                failed = failed.push(bred);
                                assert(is_failed_brood(breeder, calc, parents@, failed)) by {
                                    assert forall|i: int| 0 <= i < failed.len() implies bred_from_pool(breeder, parents@, #[trigger] failed[i])
                                        && fails_check(calc, failed[i]) by {
                                        if i < failed.len() - 1 {
                                            assert(failed[i] == failed.drop_last()[i]);
                                        }
                                    }
                                }
                            }
                            if failures >= self.retry_limit {
                                proof {
                                    assert(is_stall(breeder, calc, parents@, self.retry_limit()));
                                }
                                return Err(Error::BreedingStalled);
                            }
                            failures = failures + 1;
                        },
                    }
                },
                _ => {
                    return Err(Error::BreedingStalled);
                },
            }
        }
        Ok(next)
    }
}

/// Configures and builds a [`Run`].
pub struct Builder<G, B: Breed<G>, C: FitnessCheck<G>> {
    pub elitism: usize,
    pub tournament_size: usize,
    pub retry_limit: usize,
    pub breeder: Option<Manager<G, B>>,
    pub fitness_calc: Option<C>,
}

impl<G, B: Breed<G>, C: FitnessCheck<G>> Default for Builder<G, B, C> {
    fn default() -> (r: Self)
        ensures
            r.elitism == 1,
            r.tournament_size == 10,
            r.retry_limit == DEFAULT_RETRY_LIMIT,
            r.breeder is None,
            r.fitness_calc is None,
    {
        Builder {
            elitism: 1,
            tournament_size: 10,
            retry_limit: DEFAULT_RETRY_LIMIT,
            breeder: None,
            fitness_calc: None,
        }
    }
}

impl<G, B: Breed<G>, C: FitnessCheck<G>> Builder<G, B, C> {
    /// Builds the algorithm, or says which part of the configuration is missing
    /// or invalid.
    pub fn build(self) -> (r: Result<Run<G, B, C>, Error>)
        ensures
            self.breeder is None ==> r == Err::<Run<G, B, C>, Error>(Error::BreederNotSet),
            self.breeder is Some && self.fitness_calc is None ==> r == Err::<Run<G, B, C>, Error>(
                Error::FitnessCalcNotSet,
            ),
            self.breeder is Some && self.fitness_calc is Some && self.tournament_size == 0 ==> r
                == Err::<Run<G, B, C>, Error>(Error::TournamentSizeZero),
            self.breeder is Some && self.fitness_calc is Some && self.tournament_size > 0 ==> (
            r matches Ok(run) && run.breeder() == self.breeder->Some_0 && run.fitness_calc()
                == self.fitness_calc->Some_0 && run.elitism() == self.elitism
                && run.tournament_size() == self.tournament_size && run.retry_limit()
                == self.retry_limit),
    {
        let breeder = match self.breeder {
            Some(b) => b,
            None => {
                return Err(Error::BreederNotSet);
            },
        };
        let fitness_calc = match self.fitness_calc {
            Some(c) => c,
            None => {
                return Err(Error::FitnessCalcNotSet);
            },
        };
        if self.tournament_size == 0 {
            return Err(Error::TournamentSizeZero);
        }
        Ok(
            Run {
                breeder,
                fitness_calc,
                elitism: self.elitism,
                tournament_size: self.tournament_size,
                retry_limit: self.retry_limit,
            },
        )
    }

    /// Sets the number of elite genomes to keep.
    pub fn elitism(self, elitism: usize) -> (r: Self)
        ensures
            r == (Builder { elitism, ..self }),
    {
        Builder { elitism, ..self }
    }

    /// Sets the number of genomes drawn per tournament.
    pub fn tournament_size(self, tournament_size: usize) -> (r: Self)
        ensures
            r == (Builder { tournament_size, ..self }),
    {
        Builder { tournament_size, ..self }
    }

    /// Sets how many offspring in a row may fail their fitness check.
    pub fn retry_limit(self, retry_limit: usize) -> (r: Self)
        ensures
            r == (Builder { retry_limit, ..self }),
    {
        Builder { retry_limit, ..self }
    }

    /// Sets the breeder.
    pub fn breeder(self, breeder: B) -> (r: Self)
        ensures
            r.breeder matches Some(m) && m.breeder() == breeder,
            r.elitism == self.elitism,
            r.tournament_size == self.tournament_size,
            r.retry_limit == self.retry_limit,
            r.fitness_calc == self.fitness_calc,
    {
        Builder { breeder: Some(Manager::new(breeder)), ..self }
    }

    /// Sets the breeder manager.
    pub fn breeder_manager(self, breeder: Manager<G, B>) -> (r: Self)
        ensures
            r == (Builder { breeder: Some(breeder), ..self }),
    {
        Builder { breeder: Some(breeder), ..self }
    }

    /// Sets the fitness calculator.
    pub fn fitness_calc(self, fitness_calc: C) -> (r: Self)
        ensures
            r == (Builder { fitness_calc: Some(fitness_calc), ..self }),
    {
        Builder { fitness_calc: Some(fitness_calc), ..self }
    }
}

} // verus!
