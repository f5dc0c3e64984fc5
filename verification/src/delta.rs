//! Utility for reading delta-encoded value sequences directly, like
//! [`pbf::Way::refs`](crate::pbf::Way) and
//! [`pbf::Relation::memids`](crate::pbf::Relation).

use vstd::prelude::*;
use vstd::wrapping::i64_specs;

verus! {

/// The wrapping 64-bit sum of the first `n` deltas.
pub open spec fn running_sum(deltas: Seq<i64>, n: int) -> i64
    decreases n,
{
    if n <= 0 {
        0i64
    } else {
        i64_specs::wrapping_add(running_sum(deltas, n - 1), deltas[n - 1])
    }
}

/// The absolute values a delta-coded sequence stands for: position `i` holds
/// the wrapping sum of the deltas up to and including position `i`.
pub open spec fn delta_decoded(deltas: Seq<i64>) -> Seq<i64> {
    Seq::new(deltas.len(), |i: int| running_sum(deltas, i + 1))
}

/// The delta encoding of a sequence of absolute values: consecutive wrapping
/// differences, the first value taken as a difference from zero.
pub open spec fn delta_encoded(values: Seq<i64>) -> Seq<i64> {
    Seq::new(
        values.len(),
        |i: int|
            if i == 0 {
                values[0]
            } else {
                i64_specs::wrapping_sub(values[i], values[i - 1])
            },
    )
}

proof fn lemma_wrapping_cancel(a: i64, b: i64)
    ensures
        i64_specs::wrapping_add(a, i64_specs::wrapping_sub(b, a)) == b,
{
}

proof fn lemma_running_sum_of_encoded(values: Seq<i64>, n: int)
    requires
        1 <= n <= values.len(),
    ensures
        running_sum(delta_encoded(values), n) == values[n - 1],
    decreases n,
{
    if n == 1 {
        assert(running_sum(delta_encoded(values), 0) == 0i64);
    } else {
        lemma_running_sum_of_encoded(values, n - 1);
        lemma_wrapping_cancel(values[n - 2], values[n - 1]);
    }
}

/// Delta round-trip law: encoding any sequence of absolute values by
/// consecutive differences and decoding it again by running sums reproduces
/// the original sequence exactly, including negatives and runs of zeros.
pub proof fn lemma_delta_round_trip(values: Seq<i64>)
    ensures
        delta_decoded(delta_encoded(values)) == values,
{
    assert forall|i: int| 0 <= i < values.len() implies delta_decoded(delta_encoded(values))[i]
        == values[i] by {
        lemma_running_sum_of_encoded(values, i + 1);
    }
    assert(delta_decoded(delta_encoded(values)) =~= values);
}

/// Reads the absolute values out of a delta-encoded sequence: each value
/// returned by [`next`](DeltaValueReader::next) is the wrapping sum of the
/// deltas consumed so far.
pub struct DeltaValueReader<'a> {
    remaining: &'a [i64],
    accumulated: i64,
}

impl<'a> DeltaValueReader<'a> {
    /// The deltas not yet consumed.
    pub closed spec fn remaining_deltas(self) -> Seq<i64> {
        self.remaining@
    }

    /// The wrapping sum of the deltas consumed so far.
    pub closed spec fn accumulated_value(self) -> i64 {
        self.accumulated
    }

    /// Constructs a new `DeltaValueReader` from a slice of delta values.
    pub fn new(values: &'a [i64]) -> (r: Self)
        ensures
            r.remaining_deltas() == values@,
            r.accumulated_value() == 0i64,
    {
        DeltaValueReader { remaining: values, accumulated: 0 }
    }

    /// Yields the next absolute value: the accumulator plus the next delta,
    /// with wrapping 64-bit arithmetic; `None` once all deltas are consumed.
    pub fn next(&mut self) -> (r: Option<i64>)
        ensures
            match r {
                Some(v) => {
                    &&& old(self).remaining_deltas().len() > 0
                    &&& v == i64_specs::wrapping_add(
                        old(self).accumulated_value(),
                        old(self).remaining_deltas()[0],
                    )
                    &&& final(self).accumulated_value() == v
                    &&& final(self).remaining_deltas() == old(self).remaining_deltas().drop_first()
                },
                None => {
                    &&& old(self).remaining_deltas().len() == 0
                    &&& *final(self) == *old(self)
                },
            },
    {
        if self.remaining.len() > 0 {
            let first = self.remaining[0];
            self.accumulated = self.accumulated.wrapping_add(first);
            self.remaining = vstd::slice::slice_subrange(self.remaining, 1, self.remaining.len());
            Some(self.accumulated)
        } else {
            None
        }
    }
}

} // verus!
