use vstd::prelude::*;

use crate::series::{
    buckets, lemma_sum_take_all, lemma_sum_take_step, sum, vals, SeriesPoint,
};

verus! {

/// The plain running totals of a delta sequence: element `i` is the sum of
/// the first `i + 1` deltas.
pub open spec fn running_totals(ds: Seq<int>) -> Seq<int> {
    Seq::new(ds.len(), |i: int| sum(ds.take(i + 1)))
}

/// The future-clipped running totals: a bucket whose key lies strictly
/// beyond `current` takes the value zero instead of accumulating, whatever
/// its delta was; a bucket at or before `current` adds its delta to its
/// predecessor's (possibly zeroed) value.
pub open spec fn clipped_totals(ds: Seq<int>, keys: Seq<i64>, current: i64) -> Seq<int>
    decreases ds.len(),
{
    if ds.len() == 0 {
        Seq::empty()
    } else {
        let prev = clipped_totals(ds.drop_last(), keys.drop_last(), current);
        let i = ds.len() - 1;
        let v = if keys[i] > current {
            0
        } else if i == 0 {
            ds[0]
        } else {
            prev[i - 1] + ds[i]
        };
        prev.push(v)
    }
}

pub(crate) proof fn lemma_sum_take_mono(vs: Seq<int>, a: int, b: int)
    requires
        0 <= a <= b <= vs.len(),
        forall|i: int| 0 <= i < vs.len() ==> vs[i] >= 0,
    ensures
        sum(vs.take(a)) <= sum(vs.take(b)),
    decreases b - a,
{
    if a < b {
        lemma_sum_take_mono(vs, a, b - 1);
        lemma_sum_take_step(vs, b - 1);
    }
}

/// Pointwise characterization of the clipped totals.
pub(crate) proof fn lemma_clipped_char(ds: Seq<int>, keys: Seq<i64>, current: i64)
    requires
        ds.len() == keys.len(),
    ensures
        clipped_totals(ds, keys, current).len() == ds.len(),
        forall|i: int|
            0 <= i < ds.len() ==> clipped_totals(ds, keys, current)[i] == (if keys[i] > current {
                0int
            } else if i == 0 {
                ds[0]
            } else {
                clipped_totals(ds, keys, current)[i - 1] + ds[i]
            }),
    decreases ds.len(),
{
    if ds.len() > 0 {
        lemma_clipped_char(ds.drop_last(), keys.drop_last(), current);
        let c = clipped_totals(ds, keys, current);
        let prev = clipped_totals(ds.drop_last(), keys.drop_last(), current);
        assert(forall|i: int| 0 <= i < ds.len() - 1 ==> c[i] == prev[i]);
        assert(forall|i: int| 0 <= i < ds.len() - 1 ==> ds.drop_last()[i] == ds[i]);
        assert(forall|i: int| 0 <= i < ds.len() - 1 ==> keys.drop_last()[i] == keys[i]);
    }
}

/// The clipped totals are non-negative and never exceed the plain prefix
/// sums.
pub(crate) proof fn lemma_clipped_bounds(ds: Seq<int>, keys: Seq<i64>, current: i64)
    requires
        ds.len() == keys.len(),
        forall|i: int| 0 <= i < ds.len() ==> ds[i] >= 0,
    ensures
        clipped_totals(ds, keys, current).len() == ds.len(),
        forall|i: int|
            0 <= i < ds.len() ==> 0 <= #[trigger] clipped_totals(ds, keys, current)[i] <= sum(
                ds.take(i + 1),
            ),
    decreases ds.len(),
{
    if ds.len() > 0 {
        assert(forall|i: int| 0 <= i < ds.len() - 1 ==> ds.drop_last()[i] == ds[i]);
        lemma_clipped_bounds(ds.drop_last(), keys.drop_last(), current);
        let c = clipped_totals(ds, keys, current);
        let prev = clipped_totals(ds.drop_last(), keys.drop_last(), current);
        let n = ds.len() - 1;
        assert forall|i: int| 0 <= i < ds.len() implies 0 <= #[trigger] c[i] <= sum(
            ds.take(i + 1),
        ) by {
            if i < n {
                assert(c[i] == prev[i]);
                assert(ds.drop_last().take(i + 1) =~= ds.take(i + 1));
            } else {
                lemma_sum_take_step(ds, n);
                if keys[n] > current {
                    assert(c[n] == 0);
                    lemma_sum_take_mono(ds, 0, n + 1);
                } else if n == 0 {
                    assert(c[0] == ds[0]);
                } else {
                    assert(c[n] == prev[n - 1] + ds[n]);
                    assert(ds.drop_last().take(n) =~= ds.take(n));
                }
            }
        }
    }
}

/// Turns per-bucket deltas into the cumulative baseline by prefix summing
/// in bucket order.  The planned-value series is cumulated this way,
/// independent of the current week: it is the schedule baseline.
pub fn cumulate(deltas: &Vec<SeriesPoint>) -> (r: Vec<SeriesPoint>)
    requires
        sum(vals(deltas@)) <= u64::MAX,
    ensures
        buckets(r@) == buckets(deltas@),
        vals(r@) == running_totals(vals(deltas@)),
{
    proof {
        assert(forall|j: int|
            0 <= j < deltas@.len() ==> #[trigger] vals(deltas@)[j] == deltas@[j].value as int);
    }
    let mut out: Vec<SeriesPoint> = Vec::new();
    let mut acc: u64 = 0;
    let mut i: usize = 0;
    while i < deltas.len()
        invariant
            i <= deltas@.len(),
            out@.len() == i,
            sum(vals(deltas@)) <= u64::MAX,
            forall|j: int|
                0 <= j < deltas@.len() ==> #[trigger] vals(deltas@)[j] == deltas@[j].value as int,
            acc as int == sum(vals(deltas@).take(i as int)),
            forall|j: int| 0 <= j < i ==> #[trigger] out@[j].bucket == deltas@[j].bucket,
            forall|j: int|
                0 <= j < i ==> #[trigger] out@[j].value as int == sum(vals(deltas@).take(j + 1)),
        decreases deltas@.len() - i,
    {
        proof {
            lemma_sum_take_step(vals(deltas@), i as int);
            lemma_sum_take_mono(vals(deltas@), i as int + 1, vals(deltas@).len() as int);
            lemma_sum_take_all(vals(deltas@));
        }
        acc = acc + deltas[i].value;
        out.push(SeriesPoint { bucket: deltas[i].bucket, value: acc });
        i += 1;
    }
    proof {
        assert(buckets(out@) =~= buckets(deltas@));
        assert(vals(out@) =~= running_totals(vals(deltas@)));
    }
    out
}

/// Turns per-bucket deltas into a cumulative series, forcing the value of
/// every bucket whose key lies strictly beyond `current_bucket` to zero:
/// no credit is claimed for weeks that have not happened yet.  The current
/// bucket is an explicit input, never read from a clock, so the result is
/// reproducible.
pub fn cumulate_clipped(deltas: &Vec<SeriesPoint>, current_bucket: i64) -> (r: Vec<SeriesPoint>)
    requires
        sum(vals(deltas@)) <= u64::MAX,
    ensures
        buckets(r@) == buckets(deltas@),
        vals(r@) == clipped_totals(vals(deltas@), buckets(deltas@), current_bucket),
{
    proof {
        assert(forall|j: int|
            0 <= j < deltas@.len() ==> #[trigger] vals(deltas@)[j] == deltas@[j].value as int);
        assert(forall|j: int|
            0 <= j < deltas@.len() ==> #[trigger] buckets(deltas@)[j] == deltas@[j].bucket);
    }
    let ghost vt = vals(deltas@);
    let ghost kt = buckets(deltas@);
    let mut out: Vec<SeriesPoint> = Vec::new();
    let mut i: usize = 0;
    while i < deltas.len()
        invariant
            i <= deltas@.len(),
            out@.len() == i,
            sum(vt) <= u64::MAX,
            vt == vals(deltas@),
            kt == buckets(deltas@),
            forall|j: int| 0 <= j < deltas@.len() ==> #[trigger] vt[j] == deltas@[j].value as int,
            forall|j: int| 0 <= j < deltas@.len() ==> #[trigger] kt[j] == deltas@[j].bucket,
            forall|j: int| 0 <= j < i ==> #[trigger] out@[j].bucket == deltas@[j].bucket,
            vals(out@) == clipped_totals(vt.take(i as int), kt.take(i as int), current_bucket),
        decreases deltas@.len() - i,
    {
        proof {
            assert(vt.take(i as int + 1).drop_last() =~= vt.take(i as int));
            assert(kt.take(i as int + 1).drop_last() =~= kt.take(i as int));
            assert(forall|j: int| 0 <= j <= i ==> vt.take(i as int + 1)[j] == vt[j]);
            lemma_clipped_bounds(vt.take(i as int), kt.take(i as int), current_bucket);
            lemma_sum_take_step(vt, i as int);
            lemma_sum_take_mono(vt, i as int + 1, vt.len() as int);
            lemma_sum_take_all(vt);
            if i > 0 {
                lemma_sum_take_mono(vt, i as int, vt.len() as int);
                assert(vt.take(i as int).take(i as int) =~= vt.take(i as int));
            }
        }
        let v: u64 = if deltas[i].bucket > current_bucket {
            0
        } else if i == 0 {
            deltas[i].value
        } else {
            proof {
                assert(vals(out@)[i - 1] == out@[i as int - 1].value as int);
                assert(clipped_totals(vt.take(i as int), kt.take(i as int), current_bucket)[i - 1]
                    <= sum(vt.take(i as int)));
            }
            out[i - 1].value + deltas[i].value
        };
        out.push(SeriesPoint { bucket: deltas[i].bucket, value: v });
        proof {
            assert(vals(out@) =~= clipped_totals(
                vt.take(i as int + 1),
                kt.take(i as int + 1),
                current_bucket,
            ));
        }
        i += 1;
    }
    proof {
        assert(vt.take(deltas@.len() as int) =~= vt);
        assert(kt.take(deltas@.len() as int) =~= kt);
        assert(buckets(out@) =~= buckets(deltas@));
    }
    out
}

/// Monotonicity law, baseline half: the cumulative series built from
/// non-negative deltas never decreases from one bucket to a later one.
pub proof fn lemma_running_totals_monotone(ds: Seq<int>)
    requires
        forall|i: int| 0 <= i < ds.len() ==> ds[i] >= 0,
    ensures
        forall|i: int, j: int|
            0 <= i <= j < ds.len() ==> running_totals(ds)[i] <= running_totals(ds)[j],
{
    assert forall|i: int, j: int|
        0 <= i <= j < ds.len() implies running_totals(ds)[i] <= running_totals(ds)[j] by {
        lemma_sum_take_mono(ds, i + 1, j + 1);
    }
}

/// Monotonicity law, clipped half, first part: every bucket strictly
/// beyond the current one carries exactly zero, whatever its delta was.
pub proof fn lemma_clipped_future_zero(ds: Seq<int>, keys: Seq<i64>, current: i64)
    requires
        ds.len() == keys.len(),
    ensures
        forall|i: int|
            0 <= i < ds.len() && keys[i] > current ==> clipped_totals(ds, keys, current)[i] == 0,
{
    lemma_clipped_char(ds, keys, current);
}

/// Monotonicity law, clipped half, second part: while the bucket keys do
/// not decrease and stay at or before the current bucket, the clipped
/// series built from non-negative deltas never decreases.
///
/// The key order matters: a bucket sequence that dips at a year boundary
/// can interleave clipped and unclipped buckets, and the series may then
/// rise again after a forced zero.
pub proof fn lemma_clipped_monotone(ds: Seq<int>, keys: Seq<i64>, current: i64)
    requires
        ds.len() == keys.len(),
        forall|i: int| 0 <= i < ds.len() ==> ds[i] >= 0,
        forall|i: int, j: int| 0 <= i <= j < keys.len() ==> keys[i] <= keys[j],
    ensures
        forall|i: int|
            0 <= i && i + 1 < ds.len() && keys[i + 1] <= current ==> #[trigger] clipped_totals(
                ds,
                keys,
                current,
            )[i] <= clipped_totals(ds, keys, current)[i + 1],
{
    lemma_clipped_char(ds, keys, current);
}

} // verus!
