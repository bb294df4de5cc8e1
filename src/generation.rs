use crate::fitness::{CompareRecord, Error};
use crate::random::random_below;
use vstd::prelude::*;
use vstd::seq_lib::*;

verus! {

broadcast use group_to_multiset_ensures;

/// An ordered population of genomes.
pub type Generation<G> = Vec<G>;

/// The records of the genomes whose fitness was computed, in their order; a
/// genome whose fitness failed is left out.
pub open spec fn ranked<G>(genomes: Seq<G>, fitness: Seq<Result<u64, Error>>) -> Seq<
    CompareRecord<G>,
>
    decreases genomes.len(),
{
    if genomes.len() == 0 || fitness.len() == 0 {
        Seq::empty()
    } else {
        let earlier = ranked(genomes.drop_last(), fitness.drop_last());
        match fitness.last() {
            Ok(f) => earlier.push(CompareRecord { fitness: f, predict: genomes.last() }),
            Err(_) => earlier,
        }
    }
}

/// Whether the records are in ascending order of fitness.
pub open spec fn sorted_by_fitness<G>(s: Seq<CompareRecord<G>>) -> bool {
    forall|i: int, j: int| 0 <= i < j < s.len() ==> s[i].fitness <= s[j].fitness
}

/// The candidates of the records, in order.
pub open spec fn unranked<G>(s: Seq<CompareRecord<G>>) -> Seq<G> {
    s.map_values(|r: CompareRecord<G>| r.predict)
}

/// Pairs each genome with its fitness and leaves out those whose fitness failed.
pub fn rank_generation<G>(generation: Generation<G>, fitness: Vec<Result<u64, Error>>) -> (r: Vec<
    CompareRecord<G>,
>)
    requires
        generation@.len() == fitness@.len(),
    ensures
        r@ == ranked(generation@, fitness@),
{
    let ghost g0 = generation@;
    let mut rest = generation;
    let mut r: Vec<CompareRecord<G>> = Vec::new();
    let mut i: usize = 0;
    while i < fitness.len()
        invariant
            g0.len() == fitness@.len(),
            i <= fitness@.len(),
            rest@ == g0.skip(i as int),
            r@ == ranked(g0.take(i as int), fitness@.take(i as int)),
        decreases fitness@.len() - i,
    {
        let genome = rest.remove(0);
        proof {
            assert(g0.take(i + 1).drop_last() =~= g0.take(i as int));
            assert(fitness@.take(i + 1).drop_last() =~= fitness@.take(i as int));
            assert(g0.skip(i + 1) =~= g0.skip(i as int).remove(0));
        }
        match fitness[i] {
            Ok(f) => r.push(CompareRecord { fitness: f, predict: genome }),
            Err(_) => {},
        }
        i = i + 1;
    }
    assert(g0.take(i as int) =~= g0);
    assert(fitness@.take(i as int) =~= fitness@);
    r
}

proof fn lemma_insert_to_multiset<A>(s: Seq<A>, p: int, x: A)
    requires
        0 <= p <= s.len(),
    ensures
        s.insert(p, x).to_multiset() =~= s.to_multiset().insert(x),
{
    let t = s.insert(p, x);
    assert(t.remove(p) =~= s);
    assert(t[p] == x);
    assert(t.contains(x));
    assert(t.remove(p).to_multiset() =~= t.to_multiset().remove(x));
}

/// Where a record of fitness `f` enters `s`: after every leading record whose
/// fitness is at most `f`.
pub open spec fn insertion_point<G>(s: Seq<CompareRecord<G>>, f: u64) -> int
    decreases s.len(),
{
    if s.len() == 0 || s[0].fitness > f {
        0
    } else {
        1 + insertion_point(s.drop_first(), f)
    }
}

/// The records in ascending order of fitness, records of equal fitness in the
/// order they came in: each record in turn enters the records before it, sorted,
/// at its insertion point.
pub open spec fn sorted_generation<G>(s: Seq<CompareRecord<G>>) -> Seq<CompareRecord<G>>
    decreases s.len(),
{
    if s.len() == 0 {
        s
    } else {
        let earlier = sorted_generation(s.drop_last());
        earlier.insert(insertion_point(earlier, s.last().fitness), s.last())
    }
}

proof fn lemma_insertion_point_at<G>(s: Seq<CompareRecord<G>>, f: u64, p: int)
    requires
        0 <= p <= s.len(),
        forall|k: int| 0 <= k < p ==> #[trigger] s[k].fitness <= f,
        p == s.len() || s[p].fitness > f,
    ensures
        insertion_point(s, f) == p,
    decreases p,
{
    if p > 0 {
        assert(s[0].fitness <= f);
        let t = s.drop_first();
        assert forall|k: int| 0 <= k < p - 1 implies #[trigger] t[k].fitness <= f by {
            assert(t[k] == s[k + 1]);
        }
        lemma_insertion_point_at(t, f, p - 1);
    }
}

proof fn lemma_insertion_point_splits<G>(s: Seq<CompareRecord<G>>, f: u64)
    requires
        sorted_by_fitness(s),
    ensures
        0 <= insertion_point(s, f) <= s.len(),
        forall|k: int| 0 <= k < insertion_point(s, f) ==> #[trigger] s[k].fitness <= f,
        forall|k: int| insertion_point(s, f) <= k < s.len() ==> #[trigger] s[k].fitness > f,
    decreases s.len(),
{
    if s.len() > 0 && s[0].fitness <= f {
        let t = s.drop_first();
        lemma_insertion_point_splits(t, f);
        assert forall|k: int| 0 <= k < insertion_point(s, f) implies #[trigger] s[k].fitness <= f by {
            if k > 0 {
                assert(s[k] == t[k - 1]);
            }
        }
        assert forall|k: int| insertion_point(s, f) <= k < s.len() implies #[trigger] s[k].fitness
            > f by {
            assert(s[k] == t[k - 1]);
        }
    }
}

/// The sorted generation is in ascending order of fitness and holds exactly the
/// records it was made from.
pub proof fn lemma_sorted_generation<G>(s: Seq<CompareRecord<G>>)
    ensures
        sorted_by_fitness(sorted_generation(s)),
        sorted_generation(s).to_multiset() == s.to_multiset(),
        sorted_generation(s).len() == s.len(),
    decreases s.len(),
{
    if s.len() > 0 {
        let earlier = sorted_generation(s.drop_last());
        lemma_sorted_generation(s.drop_last());
        let x = s.last();
        let p = insertion_point(earlier, x.fitness);
        lemma_insertion_point_splits(earlier, x.fitness);
        let r = earlier.insert(p, x);
        assert forall|i: int, j: int| 0 <= i < j < r.len() implies r[i].fitness <= r[j].fitness by {
            if j < p {
                assert(r[i] == earlier[i] && r[j] == earlier[j]);
            } else if j == p {
                assert(r[i] == earlier[i]);
            } else if i < p {
                assert(r[i] == earlier[i] && r[j] == earlier[j - 1]);
            } else if i == p {
                assert(r[j] == earlier[j - 1]);
            } else {
                assert(r[i] == earlier[i - 1] && r[j] == earlier[j - 1]);
            }
        }
        lemma_insert_to_multiset(earlier, p, x);
        assert(s.drop_last().push(x) =~= s);
        assert(s.drop_last().push(x).to_multiset() =~= s.drop_last().to_multiset().insert(x));
    }
}

/// Sorts the records by ascending fitness; records of equal fitness keep their order.
pub fn sort_generation<G>(candidates: Vec<CompareRecord<G>>) -> (r: Vec<CompareRecord<G>>)
    ensures
        r@ == sorted_generation(candidates@),
        sorted_by_fitness(r@),
        r@.to_multiset() == candidates@.to_multiset(),
{
    let ghost c0 = candidates@;
    let mut rest = candidates;
    let mut r: Vec<CompareRecord<G>> = Vec::new();
    let ghost mut i: int = 0;
    while rest.len() > 0
        invariant
            0 <= i <= c0.len(),
            rest@ == c0.skip(i),
            r@ == sorted_generation(c0.take(i)),
        decreases rest@.len(),
    {
        let x = rest.remove(0);
        proof {
            lemma_sorted_generation(c0.take(i));
            assert(c0.take(i + 1).drop_last() =~= c0.take(i));
            assert(c0.skip(i + 1) =~= c0.skip(i).remove(0));
        }
        let mut p: usize = 0;
        while p < r.len() && r[p].fitness <= x.fitness
            invariant
                p <= r@.len(),
                forall|k: int| 0 <= k < p ==> #[trigger] r@[k].fitness <= x.fitness,
            decreases r@.len() - p,
        {
            p = p + 1;
        }
        proof {
            lemma_insertion_point_at(r@, x.fitness, p as int);
        }
        r.insert(p, x);
        proof {
            i = i + 1;
        }
    }
    proof {
        assert(c0.take(i) =~= c0);
        lemma_sorted_generation(c0);
    }
    r
}

/// Drops the fitness of each record and keeps the candidates in order.
pub fn unrank_generation<G>(ranked_generation: Vec<CompareRecord<G>>) -> (r: Generation<G>)
    ensures
        r@ == unranked(ranked_generation@),
{
    let ghost s = ranked_generation@;
    let n = ranked_generation.len();
    let mut rest = ranked_generation;
    let mut r: Vec<G> = Vec::new();
    let mut i: usize = 0;
    while i < n
        invariant
            n == s.len(),
            rest@ == s.skip(i as int),
            i <= s.len(),
            r@ == unranked(s.take(i as int)),
        decreases n - i,
    {
        let record = rest.remove(0);
        proof {
            assert(s.skip(i + 1) =~= s.skip(i as int).remove(0));
            assert(unranked(s.take(i + 1)) =~= unranked(s.take(i as int)).push(record.predict));
        }
        r.push(record.predict);
        i = i + 1;
    }
    assert(s.take(i as int) =~= s);
    r
}

/// The candidates of the first `k` records of the sorted generation (all of them
/// when there are fewer): the `k` fittest, in ascending order of fitness.
pub open spec fn elite_of<G>(ranked: Seq<CompareRecord<G>>, k: nat) -> Seq<G> {
    unranked(sorted_generation(ranked)).take(
        if k <= ranked.len() {
            k as int
        } else {
            ranked.len() as int
        },
    )
}

/// Sorts the ranked generation by ascending fitness and keeps the candidates of
/// the first `elitism` records.
pub fn partition_elite<G>(ranked_generation: Vec<CompareRecord<G>>, elitism: usize) -> (r:
    Generation<G>)
    ensures
        r@.len() == if elitism <= ranked_generation@.len() {
            elitism as nat
        } else {
            ranked_generation@.len()
        },
        r@ == elite_of(ranked_generation@, elitism as nat),
{
    let ghost r0 = ranked_generation@;
    let sorted = sort_generation(ranked_generation);
    let ghost s = sorted@;
    let mut elite = unrank_generation(sorted);
    let k = if elitism <= elite.len() {
        elitism
    } else {
        elite.len()
    };
    elite.truncate(k);
    proof {
        lemma_sorted_generation(r0);
        assert(unranked(s).take(k as int) =~= elite@);
    }
    elite
}

/// The generation after each elite in turn has overwritten the slot given for it.
pub open spec fn injected<G>(generation: Seq<G>, elite: Seq<G>, slots: Seq<usize>) -> Seq<G>
    decreases elite.len(),
{
    if elite.len() == 0 || slots.len() == 0 {
        generation
    } else {
        injected(generation, elite.drop_last(), slots.drop_last()).update(
            slots.last() as int,
            elite.last(),
        )
    }
}

/// Whether every slot indexes a generation of length `len`, one slot per elite.
pub open spec fn valid_slots(slots: Seq<usize>, elite_len: nat, len: nat) -> bool {
    &&& slots.len() == elite_len
    &&& forall|i: int| 0 <= i < slots.len() ==> #[trigger] slots[i] < len
}

/// What injecting elites into a generation yields: the length is kept; an elite
/// whose slot no later elite takes is found in that slot, so of elites that
/// collide the later one stays; a slot that no elite takes keeps its genome.
pub proof fn lemma_injection_outcome<G>(generation: Seq<G>, elite: Seq<G>, slots: Seq<usize>)
    requires
        valid_slots(slots, elite.len(), generation.len()),
    ensures
        injected(generation, elite, slots).len() == generation.len(),
        forall|i: int|
            0 <= i < elite.len() && (forall|k: int| i < k < elite.len() ==> slots[k] != slots[i])
                ==> #[trigger] injected(generation, elite, slots)[slots[i] as int] == elite[i],
        forall|p: int|
            0 <= p < generation.len() && (forall|k: int| 0 <= k < elite.len() ==> slots[k] != p)
                ==> #[trigger] injected(generation, elite, slots)[p] == generation[p],
    decreases elite.len(),
{
    if elite.len() > 0 {
        let e = elite.drop_last();
        let s = slots.drop_last();
        lemma_injection_outcome(generation, e, s);
        let last = elite.len() - 1;
        assert forall|i: int|
            0 <= i < elite.len() && (forall|k: int| i < k < elite.len() ==> slots[k] != slots[i])
                implies #[trigger] injected(generation, elite, slots)[slots[i] as int]
            == elite[i] by {
            if i < last {
                assert(slots[last] != slots[i]);
                assert(s[i] == slots[i]);
                assert(forall|k: int| i < k < e.len() ==> s[k] == slots[k]);
            }
        }
        assert forall|p: int|
            0 <= p < generation.len() && (forall|k: int| 0 <= k < elite.len() ==> slots[k] != p)
                implies #[trigger] injected(generation, elite, slots)[p] == generation[p] by {
            assert(slots[last] != p);
            assert(forall|k: int| 0 <= k < e.len() ==> s[k] == slots[k]);
        }
    }
}

/// With pairwise distinct slots every elite is present in the generation after
/// injection, and the generation keeps its length.
pub proof fn lemma_distinct_slots_keep_every_elite<G>(
    generation: Seq<G>,
    elite: Seq<G>,
    slots: Seq<usize>,
)
    requires
        valid_slots(slots, elite.len(), generation.len()),
        forall|i: int, j: int| 0 <= i < j < slots.len() ==> slots[i] != slots[j],
    ensures
        injected(generation, elite, slots).len() == generation.len(),
        forall|i: int| 0 <= i < elite.len() ==> injected(generation, elite, slots).contains(#[trigger] elite[i]),
{
    lemma_injection_outcome(generation, elite, slots);
    assert forall|i: int| 0 <= i < elite.len() implies injected(generation, elite, slots).contains(
        #[trigger] elite[i],
    ) by {
        assert(forall|k: int| i < k < elite.len() ==> slots[k] != slots[i]);
        assert(injected(generation, elite, slots)[slots[i] as int] == elite[i]);
    }
}

/// Elitism: when the `k` fittest genomes of the ranked generation are injected
/// into the offspring at pairwise distinct slots, every one of them is present
/// in the result; where two of them share a slot and no later one takes it, the
/// later one is found there and the earlier one is overwritten.
pub proof fn lemma_elitism_lower_bound<G>(
    offspring: Seq<G>,
    ranked: Seq<CompareRecord<G>>,
    k: nat,
    slots: Seq<usize>,
)
    requires
        valid_slots(slots, elite_of(ranked, k).len(), offspring.len()),
    ensures
        (forall|i: int, j: int| 0 <= i < j < slots.len() ==> slots[i] != slots[j]) ==> forall|
            i: int,
        |
            0 <= i < elite_of(ranked, k).len() ==> injected(
                offspring,
                elite_of(ranked, k),
                slots,
            ).contains(#[trigger] elite_of(ranked, k)[i]),
        forall|i: int, j: int|
            #![trigger slots[i], slots[j]]
            0 <= i < j < slots.len() && slots[i] == slots[j] && (forall|m: int|
                j < m < slots.len() ==> slots[m] != slots[j]) ==> injected(
                offspring,
                elite_of(ranked, k),
                slots,
            )[slots[i] as int] == elite_of(ranked, k)[j],
{
    let elite = elite_of(ranked, k);
    lemma_injection_outcome(offspring, elite, slots);
    if forall|i: int, j: int| 0 <= i < j < slots.len() ==> slots[i] != slots[j] {
        lemma_distinct_slots_keep_every_elite(offspring, elite, slots);
    }
    assert forall|i: int, j: int|
        #![trigger slots[i], slots[j]]
        0 <= i < j < slots.len() && slots[i] == slots[j] && (forall|m: int|
            j < m < slots.len() ==> slots[m] != slots[j]) implies injected(
        offspring,
        elite,
        slots,
    )[slots[i] as int] == elite[j] by {
        assert(injected(offspring, elite, slots)[slots[j] as int] == elite[j]);
    }
}

/// Overwrites, for each elite in turn, the genome at the slot given for it.
pub fn inject_at<G>(generation: Generation<G>, elite: Generation<G>, slots: &Vec<usize>) -> (r:
    Generation<G>)
    requires
        valid_slots(slots@, elite@.len(), generation@.len()),
    ensures
        r@ == injected(generation@, elite@, slots@),
{
    let ghost g0 = generation@;
    let ghost e0 = elite@;
    let n = slots.len();
    let mut r = generation;
    let mut rest = elite;
    let mut i: usize = 0;
    while i < n
        invariant
            n == slots@.len(),
            valid_slots(slots@, e0.len(), g0.len()),
            i <= n,
            rest@ == e0.skip(i as int),
            r@ == injected(g0, e0.take(i as int), slots@.take(i as int)),
            r@.len() == g0.len(),
        decreases n - i,
    {
        let genome = rest.remove(0);
        proof {
            assert(e0.take(i + 1).drop_last() =~= e0.take(i as int));
            assert(slots@.take(i + 1).drop_last() =~= slots@.take(i as int));
            assert(e0.skip(i + 1) =~= e0.skip(i as int).remove(0));
        }
        r.set(slots[i], genome);
        i = i + 1;
    }
    assert(e0.take(i as int) =~= e0);
    assert(slots@.take(i as int) =~= slots@);
    r
}

/// Whether `r` is `generation` after injecting `elite` at some valid slots.
pub open spec fn is_injection_of<G>(generation: Seq<G>, elite: Seq<G>, r: Seq<G>) -> bool {
    exists|slots: Seq<usize>|
        valid_slots(slots, elite.len(), generation.len()) && #[trigger] injected(
            generation,
            elite,
            slots,
        ) == r
}

/// Replaces genomes of the generation at uniformly drawn slots with the elites,
/// one independent draw per elite, and keeps the rest of the generation.
pub fn genomes<G>(generation: Generation<G>, elite: Generation<G>) -> (r: Generation<G>)
    requires
        elite@.len() > 0 ==> generation@.len() > 0,
    ensures
        r@.len() == generation@.len(),
        is_injection_of(generation@, elite@, r@),
        elite@.len() > 0 ==> r@.contains(elite@.last()),
{
    let generation_size = generation.len();
    let m = elite.len();
    let mut slots: Vec<usize> = Vec::with_capacity(m);
    while slots.len() < m
        invariant
            m == elite@.len(),
            slots@.len() <= m,
            m > 0 ==> generation_size > 0,
            forall|i: int| 0 <= i < slots@.len() ==> #[trigger] slots@[i] < generation_size,
        decreases m - slots@.len(),
    {
        slots.push(random_below(generation_size));
    }
    let ghost g0 = generation@;
    let ghost e0 = elite@;
    proof {
        lemma_injection_outcome(g0, e0, slots@);
    }
    let r = inject_at(generation, elite, &slots);
    proof {
        if m > 0 {
            let last = m - 1;
            assert(r@[slots@[last] as int] == e0[last as int]);
        }
    }
    r
}

/// A genome whose fitness failed has no record in the ranked generation: every
/// record holds the genome and the fitness of one position whose fitness was computed,
/// and there are as many records as computed fitnesses.
pub proof fn lemma_ranked_holds_only_computed<G>(genomes: Seq<G>, fitness: Seq<Result<u64, Error>>)
    requires
        genomes.len() == fitness.len(),
    ensures
        forall|j: int|
            0 <= j < ranked(genomes, fitness).len() ==> exists|i: int|
                0 <= i < genomes.len() && fitness[i] == Ok::<u64, Error>(
                    #[trigger] ranked(genomes, fitness)[j].fitness,
                ) && genomes[i] == ranked(genomes, fitness)[j].predict,
        ranked(genomes, fitness).len() == fitness.filter(|f: Result<u64, Error>| f is Ok).len(),
    decreases genomes.len(),
{
    if genomes.len() > 0 {
        let g = genomes.drop_last();
        let f = fitness.drop_last();
        lemma_ranked_holds_only_computed(g, f);
        reveal(Seq::filter);
        assert(fitness.drop_last() =~= f);
        let last = genomes.len() - 1;
        assert forall|j: int| 0 <= j < ranked(genomes, fitness).len() implies exists|i: int|
            0 <= i < genomes.len() && fitness[i] == Ok::<u64, Error>(
                #[trigger] ranked(genomes, fitness)[j].fitness,
            ) && genomes[i] == ranked(genomes, fitness)[j].predict by {
            if j < ranked(g, f).len() {
                let i = choose|i: int|
                    0 <= i < g.len() && f[i] == Ok::<u64, Error>(#[trigger] ranked(g, f)[j].fitness)
                        && g[i] == ranked(g, f)[j].predict;
                assert(fitness[i] == f[i] && genomes[i] == g[i]);
            } else {
                assert(fitness[last] == Ok::<u64, Error>(ranked(genomes, fitness)[j].fitness));
            }
        }
    }
}

/// A genome whose fitness failed never enters the elite: each elite genome is the
/// genome of some position whose fitness was computed.
pub proof fn lemma_failed_genome_never_elite<G>(
    genomes: Seq<G>,
    fitness: Seq<Result<u64, Error>>,
    k: nat,
)
    requires
        genomes.len() == fitness.len(),
    ensures
        forall|j: int|
            0 <= j < elite_of(ranked(genomes, fitness), k).len() ==> exists|i: int|
                0 <= i < genomes.len() && fitness[i] is Ok && genomes[i] == #[trigger] elite_of(
                    ranked(genomes, fitness),
                    k,
                )[j],
{
    let r = ranked(genomes, fitness);
    let sorted = sorted_generation(r);
    lemma_ranked_holds_only_computed(genomes, fitness);
    lemma_sorted_generation(r);
    assert forall|j: int| 0 <= j < elite_of(r, k).len() implies exists|i: int|
        0 <= i < genomes.len() && fitness[i] is Ok && genomes[i] == #[trigger] elite_of(r, k)[j] by {
        assert(elite_of(r, k)[j] == sorted[j].predict);
        assert(sorted.contains(sorted[j]));
        assert(sorted.to_multiset().count(sorted[j]) > 0);
        assert(r.to_multiset().count(sorted[j]) > 0);
        assert(r.contains(sorted[j]));
        let m = choose|m: int| 0 <= m < r.len() && r[m] == sorted[j];
        let i = choose|i: int|
            0 <= i < genomes.len() && fitness[i] == Ok::<u64, Error>(#[trigger] r[m].fitness)
                && genomes[i] == r[m].predict;
        assert(fitness[i] is Ok);
    }
}

} // verus!
