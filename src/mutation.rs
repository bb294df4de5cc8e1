use crate::random::random_below;
use vstd::prelude::*;

verus! {

/// A structural change to a sequence of genes.
pub enum VecMutation<T> {
    /// Inserts the value at the index, shifting the later genes right.
    Insert(usize, T),
    /// Replaces the gene at the index.
    Replace(usize, T),
    /// Removes the gene at the index.
    Remove(usize),
    /// Exchanges the genes at the two indexes.
    Swap(usize, usize),
    /// Reverses the genes between the two indexes, both included.
    Reverse(usize, usize),
}

/// `s` with the elements at `i` and `j` exchanged.
pub open spec fn swapped<T>(s: Seq<T>, i: int, j: int) -> Seq<T> {
    s.update(i, s[j]).update(j, s[i])
}

/// `s` with the run between `lo` and `hi` (both included) reversed.
pub open spec fn reversed_between<T>(s: Seq<T>, lo: int, hi: int) -> Seq<T> {
    Seq::new(s.len(), |k: int| if lo <= k <= hi { s[lo + hi - k] } else { s[k] })
}

pub open spec fn min_of(a: usize, b: usize) -> usize {
    if a <= b { a } else { b }
}

pub open spec fn max_of(a: usize, b: usize) -> usize {
    if a <= b { b } else { a }
}

impl<T> VecMutation<T> {
    /// Whether every index of the mutation lies within a sequence of length `len`.
    pub open spec fn fits(&self, len: nat) -> bool {
        match self {
            VecMutation::Insert(i, _) => *i <= len,
            VecMutation::Replace(i, _) => *i < len,
            VecMutation::Remove(i) => *i < len,
            VecMutation::Swap(i, j) => *i < len && *j < len,
            VecMutation::Reverse(i, j) => *i == *j || (*i < len && *j < len),
        }
    }

    /// The mutation of kind `kind` (0 insert, 1 replace, 2 remove, 3 swap, any
    /// larger kind reverse) over the indexes `i` and `j`, carrying `value` when the
    /// kind needs one.
    pub open spec fn drawn(kind: usize, i: usize, j: usize, value: Option<T>) -> Self {
        if kind == 0 {
            VecMutation::Insert(i, value->Some_0)
        } else if kind == 1 {
            VecMutation::Replace(i, value->Some_0)
        } else if kind == 2 {
            VecMutation::Remove(i)
        } else if kind == 3 {
            VecMutation::Swap(i, j)
        } else {
            VecMutation::Reverse(i, j)
        }
    }

    /// Whether the mutation keeps the length of the sequence.
    pub open spec fn keeps_length(&self) -> bool {
        match self {
            VecMutation::Replace(..) | VecMutation::Swap(..) | VecMutation::Reverse(..) => true,
            _ => false,
        }
    }

    /// The sequence that results from applying the mutation to `s`.
    pub open spec fn applied_to(self, s: Seq<T>) -> Seq<T> {
        match self {
            VecMutation::Insert(i, x) => s.insert(i as int, x),
            VecMutation::Replace(i, x) => s.update(i as int, x),
            VecMutation::Remove(i) => s.remove(i as int),
            VecMutation::Swap(i, j) => swapped(s, i as int, j as int),
            VecMutation::Reverse(i, j) => reversed_between(
                s,
                min_of(i, j) as int,
                max_of(i, j) as int,
            ),
        }
    }

    /// Builds the mutation of kind `kind` (0 insert, 1 replace, 2 remove, 3 swap,
    /// any larger kind reverse) over the indexes `i` and `j`; an insertion or a
    /// replacement carries `value`.
    pub fn from_draw(kind: usize, i: usize, j: usize, value: Option<T>) -> (r: Self)
        requires
            kind <= 1 ==> value is Some,
        ensures
            r == Self::drawn(kind, i, j, value),
    {
        if kind == 0 {
            VecMutation::Insert(i, value.unwrap())
        } else if kind == 1 {
            VecMutation::Replace(i, value.unwrap())
        } else if kind == 2 {
            VecMutation::Remove(i)
        } else if kind == 3 {
            VecMutation::Swap(i, j)
        } else {
            VecMutation::Reverse(i, j)
        }
    }

    /// Draws one of the five kinds uniformly and two indexes uniformly below
    /// `len`; the value of an insertion or a replacement comes from `factory`.
    pub fn new(len: usize, factory: impl Fn() -> T) -> (r: Self)
        requires
            len > 0,
            call_requires(factory, ()),
        ensures
            r.fits(len as nat),
            exists|kind: usize, i: usize, j: usize, value: Option<T>|
                #![trigger Self::drawn(kind, i, j, value)]
                kind < 5 && i < len && j < len && (kind <= 1 ==> value is Some) && (value matches Some(x)
                    ==> call_ensures(factory, (), x)) && r == Self::drawn(kind, i, j, value),
    {
        let kind = random_below(5);
        let i = random_below(len);
        let j = random_below(len);
        let value = if kind <= 1 {
            Some(factory())
        } else {
            None
        };
        let r = Self::from_draw(kind, i, j, value);
        assert(kind < 5 && i < len && j < len && (kind <= 1 ==> value is Some) && (value matches Some(x)
            ==> call_ensures(factory, (), x)) && r == Self::drawn(kind, i, j, value));
        r
    }

    /// Applies a replacement, an exchange or a reversal, which keep the length of
    /// the sequence; leaves the sequence unchanged for an insertion or a removal.
    pub fn apply_keeping_length(self, vec: &mut Vec<T>)
        requires
            self.fits(old(vec)@.len()),
        ensures
            self.keeps_length() ==> final(vec)@ == self.applied_to(old(vec)@),
            !self.keeps_length() ==> final(vec)@ == old(vec)@,
            final(vec)@.len() == old(vec)@.len(),
    {
        match self {
            VecMutation::Replace(..) | VecMutation::Swap(..) | VecMutation::Reverse(..) => {
                self.apply(vec)
            },
            _ => {},
        }
    }

    /// Applies the mutation to `vec` in place.
    pub fn apply(self, vec: &mut Vec<T>)
        requires
            self.fits(old(vec)@.len()),
        ensures
            final(vec)@ == self.applied_to(old(vec)@),
    {
        match self {
            VecMutation::Insert(index, element) => vec.insert(index, element),
            VecMutation::Replace(index, element) => vec.set(index, element),
            VecMutation::Remove(index) => {
                vec.remove(index);
            },
            VecMutation::Swap(i_index, j_index) => swap_genes(vec, i_index, j_index),
            VecMutation::Reverse(i_index, j_index) => {
                let min = if i_index <= j_index { i_index } else { j_index };
                let max = if i_index <= j_index { j_index } else { i_index };
                if min != max {
                    reverse_genes(vec, min, max);
                } else {
                    assert(reversed_between(old(vec)@, min as int, max as int) =~= old(vec)@);
                }
            },
        }
    }
}

/// Exchanges the elements at `i` and `j`.
fn swap_genes<T>(vec: &mut Vec<T>, i: usize, j: usize)
    requires
        i < old(vec)@.len(),
        j < old(vec)@.len(),
    ensures
        final(vec)@ == swapped(old(vec)@, i as int, j as int),
{
    if i == j {
        assert(swapped(old(vec)@, i as int, j as int) =~= old(vec)@);
        return ;
    }
    let (lo, hi) = if i < j { (i, j) } else { (j, i) };
    let ghost s = vec@;
    let mut upper = vec.remove(hi);
    vec.set_and_swap(lo, &mut upper);
    vec.insert(hi, upper);
    assert(vec@ =~= swapped(s, i as int, j as int));
}

/// Reverses the run of elements between `lo` and `hi`, both included.
fn reverse_genes<T>(vec: &mut Vec<T>, lo: usize, hi: usize)
    requires
        lo <= hi < old(vec)@.len(),
    ensures
        final(vec)@ == reversed_between(old(vec)@, lo as int, hi as int),
{
    let ghost s = vec@;
    let mut a = lo;
    let mut b = hi;
    while a < b
        invariant
            lo <= a <= hi + 1,
            b <= hi,
            a + b == lo + hi,
            vec@.len() == s.len(),
            hi < s.len(),
            forall|k: int|
                0 <= k < s.len() ==> #[trigger] vec@[k] == if (lo <= k < a || b < k <= hi) {
                    s[lo + hi - k]
                } else {
                    s[k]
                },
        decreases hi + 1 - a,
    {
        swap_genes(vec, a, b);
        a = a + 1;
        b = b - 1;
    }
    assert(vec@ =~= reversed_between(s, lo as int, hi as int));
}

} // verus!
