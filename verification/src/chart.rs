use vstd::prelude::*;
use vstd::string::StringExecFns;

use crate::aggregate::{
    aggregate, earned_contribs, earned_deltas, effort_contribs, effort_deltas, first_miss,
    lemma_entry_amounts, lemma_scatter_props, lemma_task_amounts, planned_contribs,
    planned_deltas, total_logged_effort, total_task_effort, TaskRecord, TimesheetEntry,
};
use crate::bucket::{bucket_seq, valid_day, week_buckets};
use crate::cumulative::{clipped_totals, cumulate, cumulate_clipped, running_totals};
use crate::errors::EvError;
use crate::series::{buckets, vals, SeriesPoint};
use crate::trim::{trim, trimmed};

verus! {

/// The character of one decimal digit.
pub open spec fn digit_char(d: int) -> char {
    if d == 0 {
        '0'
    } else if d == 1 {
        '1'
    } else if d == 2 {
        '2'
    } else if d == 3 {
        '3'
    } else if d == 4 {
        '4'
    } else if d == 5 {
        '5'
    } else if d == 6 {
        '6'
    } else if d == 7 {
        '7'
    } else if d == 8 {
        '8'
    } else {
        '9'
    }
}

/// The axis label of a week bucket: a `W` followed by the two digits of
/// the week-number part of the key.
pub open spec fn week_label(key: int) -> Seq<char> {
    seq!['W', digit_char((key % 100) / 10), digit_char((key % 100) % 10)]
}

fn digit_str(d: u64) -> (s: &'static str)
    requires
        d < 10,
    ensures
        s@ == seq![digit_char(d as int)],
{
    if d == 0 {
        proof {
            reveal_strlit("0");
            assert("0"@ =~= seq![digit_char(d as int)]);
        }
        "0"
    } else if d == 1 {
        proof {
            reveal_strlit("1");
            assert("1"@ =~= seq![digit_char(d as int)]);
        }
        "1"
    } else if d == 2 {
        proof {
            reveal_strlit("2");
            assert("2"@ =~= seq![digit_char(d as int)]);
        }
        "2"
    } else if d == 3 {
        proof {
            reveal_strlit("3");
            assert("3"@ =~= seq![digit_char(d as int)]);
        }
        "3"
    } else if d == 4 {
        proof {
            reveal_strlit("4");
            assert("4"@ =~= seq![digit_char(d as int)]);
        }
        "4"
    } else if d == 5 {
        proof {
            reveal_strlit("5");
            assert("5"@ =~= seq![digit_char(d as int)]);
        }
        "5"
    } else if d == 6 {
        proof {
            reveal_strlit("6");
            assert("6"@ =~= seq![digit_char(d as int)]);
        }
        "6"
    } else if d == 7 {
        proof {
            reveal_strlit("7");
            assert("7"@ =~= seq![digit_char(d as int)]);
        }
        "7"
    } else if d == 8 {
        proof {
            reveal_strlit("8");
            assert("8"@ =~= seq![digit_char(d as int)]);
        }
        "8"
    } else {
        proof {
            reveal_strlit("9");
            assert("9"@ =~= seq![digit_char(d as int)]);
        }
        "9"
    }
}

/// Formats the axis label of one week bucket.
pub fn bucket_label(key: i64) -> (label: String)
    requires
        key >= 0,
    ensures
        label@ == week_label(key as int),
{
    let week = key % 100;
    let tens = (week / 10) as u64;
    let ones = (week % 10) as u64;
    let mut label = String::from_str("W");
    proof {
        reveal_strlit("W");
    }
    label.append(digit_str(tens));
    label.append(digit_str(ones));
    proof {
        assert(label@ =~= week_label(key as int));
    }
    label
}

/// Formats the axis labels of a whole bucket sequence.
pub fn bucket_labels(keys: &Vec<i64>) -> (labels: Vec<String>)
    requires
        forall|i: int| 0 <= i < keys@.len() ==> #[trigger] keys@[i] >= 0,
    ensures
        labels@.len() == keys@.len(),
        forall|i: int|
            0 <= i < keys@.len() ==> #[trigger] labels@[i]@ == week_label(keys@[i] as int),
{
    let mut labels: Vec<String> = Vec::new();
    let mut i: usize = 0;
    while i < keys.len()
        invariant
            i <= keys@.len(),
            labels@.len() == i,
            forall|j: int| 0 <= j < keys@.len() ==> #[trigger] keys@[j] >= 0,
            forall|j: int|
                0 <= j < i ==> #[trigger] labels@[j]@ == week_label(keys@[j] as int),
        decreases keys@.len() - i,
    {
        let label = bucket_label(keys[i]);
        labels.push(label);
        i += 1;
    }
    labels
}

/// A series pairing each bucket key of `keys` with the value of `vs` at
/// the same position.
pub open spec fn series_of(keys: Seq<i64>, vs: Seq<int>) -> Seq<SeriesPoint> {
    Seq::new(keys.len(), |i: int| SeriesPoint { bucket: keys[i], value: vs[i] as u64 })
}

/// What the pipeline hands to the chart renderer: axis labels for the full
/// bucket sequence, the three curves, and a display title.  The earned and
/// actual curves may be shorter than the labels after trimming; they share
/// the leading portion of the axis.
#[derive(Debug)]
pub struct ChartData {
    /// One axis label per generated week bucket.
    pub labels: Vec<String>,
    /// The planned-value baseline, cumulative, never clipped nor trimmed.
    pub planned: Vec<SeriesPoint>,
    /// The earned-value curve, clipped at the current bucket and trimmed.
    pub earned: Vec<SeriesPoint>,
    /// The actual-effort curve, clipped at the current bucket and trimmed.
    pub actual: Vec<SeriesPoint>,
    /// Display title of the chart.
    pub title: String,
}

/// Everything the pipeline promises of its result, in one predicate: which
/// error comes on which input, and the exact labels, series, and title on
/// success.
pub open spec fn chart_matches(
    r: Result<ChartData, EvError>,
    start_day: int,
    end_day: int,
    tasks: Seq<TaskRecord>,
    entries: Seq<TimesheetEntry>,
    total_effort: u64,
    current_bucket: i64,
    title: Seq<char>,
) -> bool {
    if end_day < start_day {
        r == Err::<ChartData, EvError>(EvError::InvalidRange)
    } else if total_effort == 0 {
        r == Err::<ChartData, EvError>(EvError::DivisionByZero)
    } else {
        let keys = bucket_seq(start_day, end_day);
        match first_miss(keys, tasks, entries) {
            Some(e) => r == Err::<ChartData, EvError>(e),
            None => match r {
                Ok(c) => {
                    &&& c.labels.deep_view() == Seq::new(
                        keys.len(),
                        |i: int| week_label(keys[i] as int),
                    )
                    &&& c.planned@ == series_of(keys, running_totals(planned_deltas(keys, tasks)))
                    &&& c.earned@ == trimmed(
                        series_of(
                            keys,
                            clipped_totals(earned_deltas(keys, tasks), keys, current_bucket),
                        ),
                    )
                    &&& c.actual@ == trimmed(
                        series_of(
                            keys,
                            clipped_totals(effort_deltas(keys, entries), keys, current_bucket),
                        ),
                    )
                    &&& c.title@ == title
                },
                Err(_) => false,
            },
        }
    }
}

/// Runs the whole pipeline: week-bucket generation, aggregation of tasks
/// and work log into per-bucket deltas, cumulation — with future clipping
/// for the earned-value and actual-effort curves — and trailing-zero
/// trimming of those two curves.  The planned-value baseline is neither
/// clipped nor trimmed.  The current bucket and the title are explicit
/// inputs; the pipeline reads no clock and keeps no state.
pub fn build_chart(
    start_day: i64,
    end_day: i64,
    tasks: &Vec<TaskRecord>,
    entries: &Vec<TimesheetEntry>,
    total_effort: u64,
    current_bucket: i64,
    title: String,
) -> (r: Result<ChartData, EvError>)
    requires
        valid_day(start_day as int),
        valid_day(end_day as int),
        100 * total_task_effort(tasks@) <= u64::MAX,
        100 * total_logged_effort(entries@) <= u64::MAX,
    ensures
        chart_matches(
            r,
            start_day as int,
            end_day as int,
            tasks@,
            entries@,
            total_effort,
            current_bucket,
            title@,
        ),
{
    let keys = match week_buckets(start_day, end_day) {
        Ok(k) => k,
        Err(e) => {
            return Err(e);
        },
    };
    let deltas = match aggregate(&keys, tasks, entries, total_effort) {
        Ok(d) => d,
        Err(e) => {
            return Err(e);
        },
    };
    let labels = bucket_labels(&keys);
    proof {
        lemma_scatter_props(keys@, planned_contribs(tasks@));
        lemma_scatter_props(keys@, earned_contribs(tasks@));
        lemma_scatter_props(keys@, effort_contribs(entries@));
        lemma_task_amounts(tasks@);
        lemma_entry_amounts(entries@);
    }
    let planned = cumulate(&deltas.planned);
    let earned_full = cumulate_clipped(&deltas.earned, current_bucket);
    let actual_full = cumulate_clipped(&deltas.actual, current_bucket);
    let earned = trim(earned_full);
    let actual = trim(actual_full);
    proof {
        let ks = bucket_seq(start_day as int, end_day as int);
        assert(labels.deep_view() =~= Seq::new(ks.len(), |i: int| week_label(ks[i] as int)));
        assert forall|i: int| 0 <= i < ks.len() implies #[trigger] planned@[i] == (SeriesPoint {
            bucket: ks[i],
            value: running_totals(planned_deltas(ks, tasks@))[i] as u64,
        }) by {
            assert(buckets(planned@)[i] == planned@[i].bucket);
            assert(vals(planned@)[i] == planned@[i].value as int);
        }
        assert(planned@ =~= series_of(ks, running_totals(planned_deltas(ks, tasks@))));
        assert forall|i: int| 0 <= i < ks.len() implies #[trigger] earned_full@[i]
            == (SeriesPoint {
            bucket: ks[i],
            value: clipped_totals(earned_deltas(ks, tasks@), ks, current_bucket)[i] as u64,
        }) by {
            assert(buckets(earned_full@)[i] == earned_full@[i].bucket);
            assert(vals(earned_full@)[i] == earned_full@[i].value as int);
        }
        assert(earned_full@ =~= series_of(
            ks,
            clipped_totals(earned_deltas(ks, tasks@), ks, current_bucket),
        ));
        assert forall|i: int| 0 <= i < ks.len() implies #[trigger] actual_full@[i]
            == (SeriesPoint {
            bucket: ks[i],
            value: clipped_totals(effort_deltas(ks, entries@), ks, current_bucket)[i] as u64,
        }) by {
            assert(buckets(actual_full@)[i] == actual_full@[i].bucket);
            assert(vals(actual_full@)[i] == actual_full@[i].value as int);
        }
        assert(actual_full@ =~= series_of(
            ks,
            clipped_totals(effort_deltas(ks, entries@), ks, current_bucket),
        ));
    }
    Ok(ChartData { labels, planned, earned, actual, title })
}

/// Idempotence law: the pipeline's contract pins its outcome as a function
/// of the inputs and the injected current bucket alone, so two runs on
/// identical inputs agree — the same error, or label-for-label and
/// point-for-point identical output.
pub proof fn lemma_pipeline_deterministic(
    r1: Result<ChartData, EvError>,
    r2: Result<ChartData, EvError>,
    start_day: int,
    end_day: int,
    tasks: Seq<TaskRecord>,
    entries: Seq<TimesheetEntry>,
    total_effort: u64,
    current_bucket: i64,
    title: Seq<char>,
)
    requires
        chart_matches(r1, start_day, end_day, tasks, entries, total_effort, current_bucket, title),
        chart_matches(r2, start_day, end_day, tasks, entries, total_effort, current_bucket, title),
    ensures
        match (r1, r2) {
            (Ok(a), Ok(b)) => {
                &&& a.labels.deep_view() == b.labels.deep_view()
                &&& a.planned@ == b.planned@
                &&& a.earned@ == b.earned@
                &&& a.actual@ == b.actual@
                &&& a.title@ == b.title@
            },
            (Err(e1), Err(e2)) => e1 == e2,
            _ => false,
        },
{
}

} // verus!
