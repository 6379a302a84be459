use vstd::prelude::*;

verus! {

/// One point of a weekly series: a week-bucket key and the value the curve
/// takes there.
///
/// Values are percent of total effort scaled by the total effort itself: a
/// point with value `v` stands for `v / total_effort` percent.  Keeping the
/// numerator exact avoids rounding inside the pipeline; callers divide only
/// when rendering.
#[derive(Clone, Copy, Debug, PartialEq, Eq, Structural)]
pub struct SeriesPoint {
    /// Week-bucket key, calendar year times 100 plus ISO week number.
    pub bucket: i64,
    /// Scaled value: percent of total effort, times total effort.
    pub value: u64,
}

/// The bucket keys of a series, in order.
pub open spec fn buckets(s: Seq<SeriesPoint>) -> Seq<i64> {
    s.map_values(|p: SeriesPoint| p.bucket)
}

/// The values of a series as unbounded integers, in order.
pub open spec fn vals(s: Seq<SeriesPoint>) -> Seq<int> {
    s.map_values(|p: SeriesPoint| p.value as int)
}

/// The sum of a sequence of integers.
pub open spec fn sum(vs: Seq<int>) -> int
    decreases vs.len(),
{
    if vs.len() == 0 {
        0
    } else {
        sum(vs.drop_last()) + vs.last()
    }
}

/// A sequence of `n` zeros.
pub open spec fn zeros(n: nat) -> Seq<int> {
    Seq::new(n, |i: int| 0)
}

pub(crate) proof fn lemma_sum_zeros(n: nat)
    ensures
        sum(zeros(n)) == 0,
    decreases n,
{
    if n > 0 {
        lemma_sum_zeros((n - 1) as nat);
        assert(zeros(n).drop_last() =~= zeros((n - 1) as nat));
    }
}

/// Replacing one element changes the sum by the difference.
pub(crate) proof fn lemma_sum_update(vs: Seq<int>, i: int, v: int)
    requires
        0 <= i < vs.len(),
    ensures
        sum(vs.update(i, v)) == sum(vs) - vs[i] + v,
    decreases vs.len(),
{
    if i == vs.len() - 1 {
        assert(vs.update(i, v).drop_last() =~= vs.drop_last());
    } else {
        lemma_sum_update(vs.drop_last(), i, v);
        assert(vs.update(i, v).drop_last() =~= vs.drop_last().update(i, v));
        assert(vs.update(i, v).last() == vs.last());
    }
}

/// A sum of non-negative values is non-negative and bounds every element.
pub(crate) proof fn lemma_sum_bounds(vs: Seq<int>)
    requires
        forall|i: int| 0 <= i < vs.len() ==> vs[i] >= 0,
    ensures
        sum(vs) >= 0,
        forall|i: int| 0 <= i < vs.len() ==> vs[i] <= sum(vs),
    decreases vs.len(),
{
    if vs.len() > 0 {
        assert(forall|i: int| 0 <= i < vs.drop_last().len() ==> vs.drop_last()[i] == vs[i]);
        lemma_sum_bounds(vs.drop_last());
        assert forall|i: int| 0 <= i < vs.len() implies vs[i] <= sum(vs) by {
            if i < vs.len() - 1 {
                assert(vs.drop_last()[i] == vs[i]);
            }
        }
    }
}

/// Summing one more element extends the sum of a prefix.
pub(crate) proof fn lemma_sum_take_step(vs: Seq<int>, i: int)
    requires
        0 <= i < vs.len(),
    ensures
        sum(vs.take(i + 1)) == sum(vs.take(i)) + vs[i],
{
    assert(vs.take(i + 1).drop_last() =~= vs.take(i));
    assert(vs.take(i + 1).last() == vs[i]);
}

/// The full prefix of a sequence carries the full sum.
pub(crate) proof fn lemma_sum_take_all(vs: Seq<int>)
    ensures
        sum(vs.take(vs.len() as int)) == sum(vs),
{
    assert(vs.take(vs.len() as int) =~= vs);
}

} // verus!
