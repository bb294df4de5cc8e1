use crate::random::coin_flip;
use vstd::prelude::*;

verus! {

/// Builds a value from a configuration.
pub trait Generate<TConfig>: Sized {
    fn generate(config: TConfig) -> Self;
}

/// Converts a genome into the entity that it encodes.
pub trait Create<TEntity> {
    fn create(&self) -> TEntity;
}

/// Reads the genome back out of an entity.
pub trait Extract<TEntity> {
    fn genome(&self) -> TEntity;
}

/// Produces one offspring value from two parent values of the same type.
pub trait Crossover: Sized {
    fn crossover(&self, other: &Self) -> Self;
}

impl Crossover for bool {
    /// Picks one parent's value by a coin flip.
    fn crossover(&self, other: &Self) -> (r: Self)
        ensures
            r == *self || r == *other,
    {
        if coin_flip() {
            *self
        } else {
            *other
        }
    }
}

/// Whether `r` is the crossover of two sequences: element-wise offspring over the
/// common prefix, then the surplus tail of the longer parent.
pub open spec fn is_sequence_crossover<T: Crossover + Clone>(a: Seq<T>, b: Seq<T>, r: Seq<T>) -> bool {
    let common = if a.len() <= b.len() { a.len() } else { b.len() };
    let longer = if a.len() < b.len() { b } else { a };
    &&& r.len() == longer.len()
    &&& forall|i: int|
        0 <= i < common ==> call_ensures(T::crossover, (&a[i], &b[i]), #[trigger] r[i])
    &&& forall|i: int| common <= i < r.len() ==> cloned(longer[i], #[trigger] r[i])
}

impl<T: Crossover + Clone> Crossover for Vec<T> {
    /// Crosses the common prefix element by element and keeps the surplus tail of
    /// the longer parent unchanged.
    fn crossover(&self, other: &Self) -> (r: Self)
        ensures
            r@.len() == if self@.len() < other@.len() { other@.len() } else { self@.len() },
            is_sequence_crossover(self@, other@, r@),
    {
        let self_len = self.len();
        let other_len = other.len();
        let common = if self_len <= other_len { self_len } else { other_len };
        let longer = if self_len < other_len { other } else { self };
        let mut r: Vec<T> = Vec::with_capacity(longer.len());
        let mut i: usize = 0;
        while i < common
            invariant
                common <= self@.len(),
                common <= other@.len(),
                i <= common,
                r@.len() == i,
                forall|k: int|
                    0 <= k < i ==> call_ensures(T::crossover, (&self@[k], &other@[k]), #[trigger] r@[k]),
            decreases common - i,
        {
            r.push(self[i].crossover(&other[i]));
            i = i + 1;
        }
        while i < longer.len()
            invariant
                common <= i <= longer@.len(),
                r@.len() == i,
                longer@ == (if self@.len() < other@.len() { other@ } else { self@ }),
                forall|k: int|
                    0 <= k < common ==> call_ensures(T::crossover, (&self@[k], &other@[k]), #[trigger] r@[k]),
                forall|k: int| common <= k < i ==> cloned(longer@[k], #[trigger] r@[k]),
            decreases longer@.len() - i,
        {
            r.push(longer[i].clone());
            i = i + 1;
        }
        r
    }
}

} // verus!
