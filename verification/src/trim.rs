use vstd::prelude::*;

use crate::series::{vals, SeriesPoint};

verus! {

/// The length of a value sequence once its trailing zeros are dropped.
pub open spec fn trimmed_len(vs: Seq<int>) -> int
    decreases vs.len(),
{
    if vs.len() == 0 {
        0
    } else if vs.last() != 0 {
        vs.len() as int
    } else {
        trimmed_len(vs.drop_last())
    }
}

/// The series without its trailing zero-valued buckets.
pub open spec fn trimmed(s: Seq<SeriesPoint>) -> Seq<SeriesPoint> {
    s.take(trimmed_len(vals(s)))
}

pub(crate) proof fn lemma_trimmed_len_props(vs: Seq<int>)
    ensures
        0 <= trimmed_len(vs) <= vs.len(),
        trimmed_len(vs) > 0 ==> vs[trimmed_len(vs) - 1] != 0,
        forall|i: int| trimmed_len(vs) <= i < vs.len() ==> vs[i] == 0,
    decreases vs.len(),
{
    if vs.len() > 0 && vs.last() == 0 {
        lemma_trimmed_len_props(vs.drop_last());
        assert(forall|i: int| 0 <= i < vs.len() - 1 ==> vs.drop_last()[i] == vs[i]);
    }
}

/// Drops trailing zero-valued buckets from a cumulative series, scanning
/// from the end and stopping at the first nonzero value.  Leading zeros,
/// which stand for "no progress yet at project start", are preserved; the
/// result is a prefix of the input, possibly empty when every value is
/// zero.
pub fn trim(series: Vec<SeriesPoint>) -> (r: Vec<SeriesPoint>)
    ensures
        r@ == trimmed(series@),
{
    let ghost orig = series@;
    let ghost vs = vals(orig);
    proof {
        assert(forall|j: int| 0 <= j < orig.len() ==> #[trigger] vs[j] == orig[j].value as int);
        assert(vs.take(orig.len() as int) =~= vs);
    }
    let mut out = series;
    let mut n: usize = out.len();
    while n > 0 && out[n - 1].value == 0
        invariant
            n <= orig.len(),
            out@ == orig,
            vs == vals(orig),
            forall|j: int| 0 <= j < orig.len() ==> #[trigger] vs[j] == orig[j].value as int,
            trimmed_len(vs) == trimmed_len(vs.take(n as int)),
        decreases n,
    {
        proof {
            assert(vs.take(n as int).last() == vs[n as int - 1]);
            assert(vs.take(n as int).drop_last() =~= vs.take(n as int - 1));
        }
        n -= 1;
    }
    proof {
        if n == 0 {
            assert(vs.take(0) =~= Seq::<int>::empty());
        } else {
            assert(vs.take(n as int).last() == vs[n as int - 1]);
            assert(vs[n as int - 1] == orig[n as int - 1].value as int);
            assert(trimmed_len(vs.take(n as int)) == n as int);
        }
    }
    out.truncate(n);
    proof {
        assert(out@ =~= trimmed(orig));
    }
    out
}

/// Trim invariant law: the trimmed series is a prefix of the original,
/// every dropped bucket carried exactly zero, and the last kept bucket is
/// nonzero — unless every value was zero and the series trims to empty.
pub proof fn lemma_trim_invariant(s: Seq<SeriesPoint>)
    ensures
        0 <= trimmed(s).len() <= s.len(),
        forall|i: int| 0 <= i < trimmed(s).len() ==> trimmed(s)[i] == s[i],
        trimmed(s).len() > 0 ==> trimmed(s).last().value != 0,
        forall|i: int| trimmed(s).len() <= i < s.len() ==> s[i].value == 0,
        trimmed(s).len() == 0 ==> forall|i: int| 0 <= i < s.len() ==> s[i].value == 0,
{
    lemma_trimmed_len_props(vals(s));
    assert(forall|j: int| 0 <= j < s.len() ==> #[trigger] vals(s)[j] == s[j].value as int);
    assert forall|i: int| trimmed(s).len() <= i < s.len() implies s[i].value == 0 by {
        assert(vals(s)[i] == s[i].value as int);
        assert(vals(s)[i] == 0);
    }
}

} // verus!
