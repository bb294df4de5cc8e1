use crate::fitness::CompareRecord;
use crate::random::shuffle;
use vstd::prelude::*;

verus! {

broadcast use vstd::seq_lib::group_to_multiset_ensures;

/// Whether position `j` of the sample holds the winner: its candidate's fitness is
/// the lowest in the sample, and no earlier position has that fitness.
pub open spec fn is_winner_at<G>(candidates: Seq<CompareRecord<G>>, sample: Seq<usize>, j: int) -> bool {
    &&& 0 <= j < sample.len()
    &&& forall|k: int|
        0 <= k < sample.len() ==> candidates[sample[j] as int].fitness
            <= #[trigger] candidates[sample[k] as int].fitness
    &&& forall|k: int|
        0 <= k < j ==> #[trigger] candidates[sample[k] as int].fitness
            > candidates[sample[j] as int].fitness
}

/// Picks, among the sampled candidates, the one with the lowest fitness; of equal
/// fitnesses the first in sample order wins. Returns the candidate's index.
pub fn tournament_winner<G>(candidates: &[CompareRecord<G>], sample: &[usize]) -> (r: Option<
    usize,
>)
    requires
        forall|k: int| 0 <= k < sample@.len() ==> #[trigger] sample@[k] < candidates@.len(),
    ensures
        r is None <==> sample@.len() == 0,
        r matches Some(i) ==> exists|j: int|
            is_winner_at(candidates@, sample@, j) && #[trigger] sample@[j] == i,
{
    if sample.len() == 0 {
        return None;
    }
    let mut best: usize = 0;
    let mut k: usize = 1;
    while k < sample.len()
        invariant
            0 < k <= sample@.len(),
            best < k,
            forall|m: int| 0 <= m < sample@.len() ==> #[trigger] sample@[m] < candidates@.len(),
            forall|m: int|
                0 <= m < k ==> candidates@[sample@[best as int] as int].fitness
                    <= #[trigger] candidates@[sample@[m] as int].fitness,
            forall|m: int|
                0 <= m < best ==> #[trigger] candidates@[sample@[m] as int].fitness
                    > candidates@[sample@[best as int] as int].fitness,
        decreases sample@.len() - k,
    {
        if candidates[sample[k]].fitness < candidates[sample[best]].fitness {
            best = k;
        }
        k = k + 1;
    }
    assert(is_winner_at(candidates@, sample@, best as int));
    Some(sample[best])
}

/// Whether `c` wins a tournament of `size` over `candidates`: for some sample of
/// `min(size, len)` pairwise distinct indices of candidates, `c` is the candidate
/// at the winning position.
pub open spec fn wins_tournament<G>(candidates: Seq<CompareRecord<G>>, size: usize, c: CompareRecord<G>) -> bool {
    exists|sample: Seq<usize>, j: int|
        #![trigger is_winner_at(candidates, sample, j)]
        {
            &&& sample.len() == if size <= candidates.len() {
                size as int
            } else {
                candidates.len() as int
            }
            &&& sample.no_duplicates()
            &&& forall|k: int| 0 <= k < sample.len() ==> #[trigger] sample[k] < candidates.len()
            &&& is_winner_at(candidates, sample, j)
            &&& c == candidates[sample[j] as int]
        }
}

/// Tournament selection: samples candidates without replacement and keeps the fittest.
pub struct Tournament {
    tournament_size: usize,
}

impl Tournament {
    /// The configured number of candidates drawn per selection.
    pub closed spec fn size(&self) -> usize {
        self.tournament_size
    }

    pub fn new(tournament_size: usize) -> (r: Self)
        ensures
            r.size() == tournament_size,
    {
        Tournament { tournament_size }
    }

    /// The number of candidates that a selection draws from `candidates`.
    pub fn tournament_size<T>(&self, candidates: &[T]) -> (r: usize)
        ensures
            r == if self.size() <= candidates@.len() {
                self.size() as int
            } else {
                candidates@.len() as int
            },
    {
        if self.tournament_size <= candidates.len() {
            self.tournament_size
        } else {
            candidates.len()
        }
    }

    /// Draws the sample in random order without replacement and returns its
    /// winner. When the tournament is as large as the pool, the winner has the
    /// lowest fitness of the whole pool.
    pub fn select<'x, G>(&self, candidates: &'x [CompareRecord<G>]) -> (r: Option<
        &'x CompareRecord<G>,
    >)
        ensures
            r is None <==> candidates@.len() == 0 || self.size() == 0,
            r matches Some(c) ==> exists|i: int|
                0 <= i < candidates@.len() && *c == #[trigger] candidates@[i],
            r matches Some(c) ==> wins_tournament(candidates@, self.size(), *c),
            self.size() >= candidates@.len() ==> (r matches Some(c) ==> forall|i: int|
                0 <= i < candidates@.len() ==> c.fitness <= #[trigger] candidates@[i].fitness),
    {
        let n = candidates.len();
        let size = self.tournament_size(candidates);
        let mut order: Vec<usize> = Vec::with_capacity(n);
        while order.len() < n
            invariant
                order@.len() <= n,
                forall|k: int| 0 <= k < order@.len() ==> #[trigger] order@[k] == k,
            decreases n - order@.len(),
        {
            order.push(order.len());
        }
        let ghost full = order@;
        shuffle(&mut order);
        proof {
            assert forall|k: int| 0 <= k < order@.len() implies #[trigger] order@[k] < n by {
                assert(order@.contains(order@[k]));
                assert(order@.to_multiset().count(order@[k]) > 0);
                assert(full.to_multiset().count(order@[k]) > 0);
                assert(full.contains(order@[k]));
            }
        }
        let ghost shuffled = order@;
        proof {
            assert(full.no_duplicates());
            full.lemma_multiset_has_no_duplicates();
            assert forall|x: usize| shuffled.to_multiset().contains(x) implies shuffled.to_multiset().count(x) == 1 by {
                assert(full.to_multiset().contains(x));
            }
            shuffled.lemma_multiset_has_no_duplicates_conv();
        }
        order.truncate(size);
        proof {
            assert(order@ =~= shuffled.take(size as int));
            assert(order@.no_duplicates());
        }
        match tournament_winner(candidates, order.as_slice()) {
            None => None,
            Some(i) => {
                proof {
                    let j = choose|j: int| is_winner_at(candidates@, order@, j) && #[trigger] order@[j] == i;
                    assert(is_winner_at(candidates@, order@, j));
                    assert(wins_tournament(candidates@, self.size(), candidates@[i as int]));
                    if self.size() >= n {
                        assert(order@ == shuffled);
                        assert forall|m: int| 0 <= m < n implies candidates@[i as int].fitness
                            <= #[trigger] candidates@[m].fitness by {
                            assert(full[m] == m);
                            assert(full.contains(m as usize));
                            assert(full.to_multiset().count(m as usize) > 0);
                            assert(shuffled.to_multiset().count(m as usize) > 0);
                            assert(shuffled.contains(m as usize));
                            let k = choose|k: int| 0 <= k < shuffled.len() && shuffled[k] == m;
                            let j = choose|j: int|
                                is_winner_at(candidates@, order@, j) && #[trigger] order@[j] == i;
                            assert(candidates@[order@[k] as int].fitness >= candidates@[order@[j] as int].fitness);
                        }
                    }
                }
                Some(&candidates[i])
            },
        }
    }
}

} // verus!
