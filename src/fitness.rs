use vstd::prelude::*;

verus! {

/// Why the fitness of a candidate could not be computed.
#[derive(Clone, Copy, Debug, PartialEq, Eq, Structural)]
pub enum Error {
    /// A count could not be converted to a floating-point number.
    CannotConvert,
    /// A quotient was not a number.
    ResultNaN,
    /// A quotient was infinite.
    ResultInfinite,
}

impl Error {
    /// The message that describes the error.
    pub fn message(&self) -> (r: &'static str)
        ensures
            *self == Error::CannotConvert ==> r@ == "cannot convert"@,
            *self == Error::ResultNaN ==> r@ == "result is NaN"@,
            *self == Error::ResultInfinite ==> r@ == "result is infinite"@,
    {
        match self {
            Error::CannotConvert => "cannot convert",
            Error::ResultNaN => "result is NaN",
            Error::ResultInfinite => "result is infinite",
        }
    }
}

/// Bits of the exponent field of a double-precision number.
pub const EXPONENT_MASK: u64 = 0x7ff0_0000_0000_0000;

/// Bits of the fraction field of a double-precision number.
pub const FRACTION_MASK: u64 = 0x000f_ffff_ffff_ffff;

/// Bit of the sign of a double-precision number.
pub const SIGN_MASK: u64 = 0x8000_0000_0000_0000;

/// Whether the bit pattern of a double-precision number encodes NaN.
pub open spec fn is_nan_bits(bits: u64) -> bool {
    bits & EXPONENT_MASK == EXPONENT_MASK && bits & FRACTION_MASK != 0
}

/// Whether the bit pattern of a double-precision number encodes an infinity.
pub open spec fn is_infinite_bits(bits: u64) -> bool {
    bits & EXPONENT_MASK == EXPONENT_MASK && bits & FRACTION_MASK == 0
}

/// Whether the bit pattern encodes a negative or positive zero.
pub open spec fn is_zero_bits(bits: u64) -> bool {
    bits & !SIGN_MASK == 0
}

/// Classifies the bit pattern of a computed quotient: NaN and infinities are
/// refused; any zero becomes the pattern of positive zero; other values are kept.
///
/// For non-negative finite numbers the order of the patterns as unsigned integers
/// is the order of the numbers, so a kept pattern serves as the fitness key.
pub fn checked_quotient(bits: u64) -> (r: Result<u64, Error>)
    ensures
        is_nan_bits(bits) ==> r == Err::<u64, Error>(Error::ResultNaN),
        is_infinite_bits(bits) ==> r == Err::<u64, Error>(Error::ResultInfinite),
        !is_nan_bits(bits) && !is_infinite_bits(bits) && is_zero_bits(bits) ==> r == Ok::<
            u64,
            Error,
        >(0),
        !is_nan_bits(bits) && !is_infinite_bits(bits) && !is_zero_bits(bits) ==> r == Ok::<
            u64,
            Error,
        >(bits),
{
    if bits & EXPONENT_MASK == EXPONENT_MASK {
        if bits & FRACTION_MASK != 0 {
            Err(Error::ResultNaN)
        } else {
            Err(Error::ResultInfinite)
        }
    } else if bits & !SIGN_MASK == 0 {
        Ok(0)
    } else {
        Ok(bits)
    }
}

/// A candidate paired with its fitness. The fitness is the bit pattern of a
/// non-negative finite mean squared error; lower is better.
#[derive(Clone, Debug, PartialEq, Eq)]
pub struct CompareRecord<P> {
    pub fitness: u64,
    pub predict: P,
}

impl<P> CompareRecord<P> {
    /// The same record, borrowing its candidate.
    pub fn as_deref(&self) -> (r: CompareRecord<&P>)
        ensures
            r.fitness == self.fitness,
            *r.predict == self.predict,
    {
        CompareRecord { fitness: self.fitness, predict: &self.predict }
    }
}

/// Computes the fitness of a candidate.
pub trait FitnessCheck<P> {
    fn check(&self, predict: &P) -> Result<u64, Error>;
}

/// Orders two records of candidates.
pub trait Compare<P> {
    fn compare(&self, left: &CompareRecord<&P>, right: &CompareRecord<&P>) -> core::cmp::Ordering;
}

/// The index that keeps the lead after comparing, in turn, the leader so far
/// with each later entity: a later entity takes the lead only when the leader
/// compares greater than it. `answers[j - 1]` is the comparison made for entity `j`.
pub open spec fn leader(answers: Seq<core::cmp::Ordering>, j: int) -> int
    decreases j,
{
    if j <= 0 {
        0
    } else if answers[j - 1] == core::cmp::Ordering::Greater {
        j
    } else {
        leader(answers, j - 1)
    }
}

/// The record of entity `i` with its computed fitness.
pub open spec fn record_at<'x, P>(fitness: Seq<u64>, entities: Seq<P>, i: int) -> CompareRecord<
    &'x P,
> {
    CompareRecord { fitness: fitness[i], predict: &entities[i] }
}

/// Whether `best` is the least entity by the comparator: for some outcome of the
/// fitness checks and of the comparisons made while scanning the entities in
/// order, `best` is the entity that keeps the lead.
pub open spec fn is_best_entity<'x, P, C: FitnessCheck<P>, K: Compare<P>>(
    calc: C,
    compare: K,
    entities: Seq<P>,
    best: P,
) -> bool {
    exists|fitness: Seq<u64>, answers: Seq<core::cmp::Ordering>|
        #![trigger leader(answers, entities.len() - 1), fitness.len()]
        {
            &&& fitness.len() == entities.len()
            &&& answers.len() == entities.len() - 1
            &&& forall|i: int|
                0 <= i < entities.len() ==> call_ensures(
                    C::check,
                    (&calc, &entities[i]),
                    Ok::<u64, Error>(#[trigger] fitness[i]),
                )
            &&& forall|j: int|
                1 <= j < entities.len() ==> call_ensures(
                    K::compare,
                    (
                        &compare,
                        &record_at(fitness, entities, leader(answers, j - 1)),
                        &record_at(fitness, entities, j),
                    ),
                    #[trigger] answers[j - 1],
                )
            &&& best == entities[leader(answers, entities.len() - 1)]
        }
}

/// Whether checking entity `i` can fail with `e` while checking each earlier
/// entity can succeed.
pub open spec fn is_first_failure<P, C: FitnessCheck<P>>(calc: C, entities: Seq<P>, i: int, e: Error) -> bool {
    &&& 0 <= i < entities.len()
    &&& call_ensures(C::check, (&calc, &entities[i]), Err::<u64, Error>(e))
    &&& forall|k: int|
        #![trigger entities[k]]
        0 <= k < i ==> exists|f: u64| call_ensures(C::check, (&calc, &entities[k]), Ok::<u64, Error>(f))
}

/// Computes the fitness of every entity and returns the least one by the
/// comparator, of equal ones the first; `None` when there are no entities. The
/// first failed fitness is returned as the error.
pub fn best_entity<'x, P, C: FitnessCheck<P>, K: Compare<P>>(
    calc: &C,
    entities: &'x [P],
    compare: &K,
) -> (r: Result<Option<&'x P>, Error>)
    ensures
        entities@.len() == 0 ==> r == Ok::<Option<&'x P>, Error>(None),
        r matches Ok(None) ==> entities@.len() == 0,
        r matches Err(e) ==> exists|i: int| #[trigger] is_first_failure(*calc, entities@, i, e),
        r matches Ok(Some(p)) ==> is_best_entity(*calc, *compare, entities@, *p),
{
    let n = entities.len();
    let mut fitness: Vec<u64> = Vec::with_capacity(n);
    let mut i: usize = 0;
    while i < n
        invariant
            n == entities@.len(),
            i <= n,
            fitness@.len() == i,
            forall|k: int|
                0 <= k < i ==> call_ensures(
                    C::check,
                    (calc, &entities@[k]),
                    Ok::<u64, Error>(#[trigger] fitness@[k]),
                ),
        decreases n - i,
    {
        let outcome = calc.check(&entities[i]);
        match outcome {
            Ok(f) => fitness.push(f),
            Err(e) => {
                proof {
                    assert(call_ensures(C::check, (calc, &entities@[i as int]), Err::<u64, Error>(e)));
                    assert forall|k: int| #![trigger entities@[k]] 0 <= k < i implies exists|f: u64|
                        call_ensures(C::check, (calc, &entities@[k]), Ok::<u64, Error>(f)) by {
                        assert(call_ensures(C::check, (calc, &entities@[k]), Ok::<u64, Error>(fitness@[k])));
                    }
                    assert(is_first_failure(*calc, entities@, i as int, e));
                }
                return Err(e);
            },
        }
        i = i + 1;
    }
    if n == 0 {
        return Ok(None);
    }
    let ghost mut answers: Seq<core::cmp::Ordering> = Seq::empty();
    let mut best: usize = 0;
    let mut k: usize = 1;
    while k < n
        invariant
            n == entities@.len(),
            fitness@.len() == n,
            1 <= k <= n,
            answers.len() == k - 1,
            best == leader(answers, k - 1),
            best < k,
            forall|j: int|
                1 <= j < k ==> call_ensures(
                    K::compare,
                    (
                        compare,
                        &record_at(fitness@, entities@, leader(answers, j - 1)),
                        &record_at(fitness@, entities@, j),
                    ),
                    #[trigger] answers[j - 1],
                ),
        decreases n - k,
    {
        let left = CompareRecord { fitness: fitness[best], predict: &entities[best] };
        let right = CompareRecord { fitness: fitness[k], predict: &entities[k] };
        let answer = compare.compare(&left, &right);
        proof {
            let old_answers = answers;
            answers = answers.push(answer);
            assert forall|j: int| 1 <= j <= k implies #[trigger] leader(answers, j - 1) == leader(
                old_answers,
                j - 1,
            ) by {
                lemma_leader_prefix(old_answers, answers, j - 1);
            }
            assert(left == record_at(fitness@, entities@, leader(answers, k - 1)));
        }
        match answer {
            core::cmp::Ordering::Greater => {
                best = k;
            },
            _ => {},
        }
        k = k + 1;
    }
    assert(is_best_entity(*calc, *compare, entities@, entities@[best as int]));
    Ok(Some(&entities[best]))
}

proof fn lemma_leader_prefix(a: Seq<core::cmp::Ordering>, b: Seq<core::cmp::Ordering>, j: int)
    requires
        0 <= j <= a.len(),
        a.len() <= b.len(),
        forall|m: int| 0 <= m < a.len() ==> a[m] == b[m],
    ensures
        leader(a, j) == leader(b, j),
    decreases j,
{
    if j > 0 {
        lemma_leader_prefix(a, b, j - 1);
    }
}

} // verus!
