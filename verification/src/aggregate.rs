use vstd::prelude::*;

use crate::errors::EvError;
use crate::series::{
    buckets, lemma_sum_bounds, lemma_sum_update, lemma_sum_zeros, sum, vals, zeros, SeriesPoint,
};

verus! {

/// One schedulable task, as the storage layer hands it over.
#[derive(Clone, Copy, Debug, PartialEq, Eq)]
pub struct TaskRecord {
    /// Task identifier, used to name the task in error reports.
    pub id: i64,
    /// Effort units; schedulable tasks have a positive duration.
    pub duration: u64,
    /// Week bucket the task is scheduled to finish in.
    pub planned_finish: i64,
    /// Week bucket the task actually finished in, present once it is done.
    pub actual_finish: Option<i64>,
}

/// One aggregated work-log row: the effort logged in one week bucket.
#[derive(Clone, Copy, Debug, PartialEq, Eq)]
pub struct TimesheetEntry {
    /// Week bucket the effort was logged in.
    pub week_bucket: i64,
    /// Effort units logged that week.
    pub duration: u64,
}

/// The sum of the task durations.
pub open spec fn total_task_effort(tasks: Seq<TaskRecord>) -> int
    decreases tasks.len(),
{
    if tasks.len() == 0 {
        0
    } else {
        total_task_effort(tasks.drop_last()) + tasks.last().duration
    }
}

/// The sum of the logged durations.
pub open spec fn total_logged_effort(entries: Seq<TimesheetEntry>) -> int
    decreases entries.len(),
{
    if entries.len() == 0 {
        0
    } else {
        total_logged_effort(entries.drop_last()) + entries.last().duration
    }
}

/// The first position holding `key`, scanning from the front.
pub open spec fn find_key(keys: Seq<i64>, key: i64) -> Option<int>
    decreases keys.len(),
{
    if keys.len() == 0 {
        None
    } else if keys[0] == key {
        Some(0)
    } else {
        match find_key(keys.drop_first(), key) {
            Some(i) => Some(i + 1),
            None => None,
        }
    }
}

pub(crate) proof fn lemma_find_key(keys: Seq<i64>, key: i64)
    ensures
        match find_key(keys, key) {
            Some(i) => 0 <= i < keys.len() && keys[i] == key && forall|j: int|
                0 <= j < i ==> keys[j] != key,
            None => forall|j: int| 0 <= j < keys.len() ==> keys[j] != key,
        },
    decreases keys.len(),
{
    if keys.len() > 0 && keys[0] != key {
        let tail = keys.drop_first();
        lemma_find_key(tail, key);
        assert(forall|j: int| 0 <= j < tail.len() ==> tail[j] == keys[j + 1]);
        match find_key(tail, key) {
            Some(i) => {
                assert(keys[i + 1] == tail[i]);
                assert forall|j: int| 0 <= j < i + 1 implies keys[j] != key by {
                    if j > 0 {
                        assert(tail[j - 1] == keys[j]);
                    }
                }
            },
            None => {
                assert forall|j: int| 0 <= j < keys.len() implies keys[j] != key by {
                    if j > 0 {
                        assert(tail[j - 1] == keys[j]);
                    }
                }
            },
        }
    }
}

/// Finds the first position of `key` in the bucket sequence, if any.
pub fn find_bucket(keys: &Vec<i64>, key: i64) -> (r: Option<usize>)
    ensures
        match r {
            Some(i) => i < keys@.len() && keys@[i as int] == key && find_key(keys@, key) == Some(
                i as int,
            ),
            None => find_key(keys@, key) is None,
        },
{
    let mut i: usize = 0;
    while i < keys.len()
        invariant
            i <= keys@.len(),
            forall|j: int| 0 <= j < i ==> keys@[j] != key,
        decreases keys@.len() - i,
    {
        if keys[i] == key {
            proof {
                lemma_find_key(keys@, key);
            }
            return Some(i);
        }
        i += 1;
    }
    proof {
        lemma_find_key(keys@, key);
    }
    None
}

/// One contribution to a delta series: the bucket it targets, if any, and
/// the scaled amount it carries.
pub open spec fn amounts(cs: Seq<(Option<i64>, int)>) -> Seq<int> {
    cs.map_values(|c: (Option<i64>, int)| c.1)
}

/// Adds `v` to position `i` of a value sequence.
pub open spec fn bump(vs: Seq<int>, i: int, v: int) -> Seq<int> {
    vs.update(i, vs[i] + v)
}

/// Distributes a list of contributions over the bucket sequence: each
/// contribution with a target bucket that occurs in `keys` adds its amount
/// at the first position of that bucket; the others add nothing.
pub open spec fn scatter(keys: Seq<i64>, cs: Seq<(Option<i64>, int)>) -> Seq<int>
    decreases cs.len(),
{
    if cs.len() == 0 {
        zeros(keys.len())
    } else {
        let prev = scatter(keys, cs.drop_last());
        match cs.last().0 {
            Some(k) => match find_key(keys, k) {
                Some(i) => bump(prev, i, cs.last().1),
                None => prev,
            },
            None => prev,
        }
    }
}

/// The planned-value contributions: every task adds 100 times its duration
/// at its planned finish bucket.
pub open spec fn planned_contribs(tasks: Seq<TaskRecord>) -> Seq<(Option<i64>, int)> {
    tasks.map_values(|t: TaskRecord| (Some(t.planned_finish), 100 * (t.duration as int)))
}

/// The earned-value contributions: only finished tasks add their weight,
/// at the bucket they actually finished in.
pub open spec fn earned_contribs(tasks: Seq<TaskRecord>) -> Seq<(Option<i64>, int)> {
    tasks.map_values(|t: TaskRecord| (t.actual_finish, 100 * (t.duration as int)))
}

/// The actual-effort contributions of the work log.
pub open spec fn effort_contribs(entries: Seq<TimesheetEntry>) -> Seq<(Option<i64>, int)> {
    entries.map_values(|e: TimesheetEntry| (Some(e.week_bucket), 100 * (e.duration as int)))
}

/// The planned-value delta of each bucket.
pub open spec fn planned_deltas(keys: Seq<i64>, tasks: Seq<TaskRecord>) -> Seq<int> {
    scatter(keys, planned_contribs(tasks))
}

/// The earned-value delta of each bucket.
pub open spec fn earned_deltas(keys: Seq<i64>, tasks: Seq<TaskRecord>) -> Seq<int> {
    scatter(keys, earned_contribs(tasks))
}

/// The actual-effort delta of each bucket.
pub open spec fn effort_deltas(keys: Seq<i64>, entries: Seq<TimesheetEntry>) -> Seq<int> {
    scatter(keys, effort_contribs(entries))
}

/// The error a single task provokes, if one of its finish buckets is
/// missing from the bucket sequence; the planned bucket is checked first.
pub open spec fn task_miss(keys: Seq<i64>, t: TaskRecord) -> Option<EvError> {
    if find_key(keys, t.planned_finish) is None {
        Some(EvError::BucketNotFound { task_id: Some(t.id), bucket: t.planned_finish })
    } else {
        match t.actual_finish {
            Some(b) => if find_key(keys, b) is None {
                Some(EvError::BucketNotFound { task_id: Some(t.id), bucket: b })
            } else {
                None
            },
            None => None,
        }
    }
}

/// The error a single work-log entry provokes, if its bucket is missing.
pub open spec fn entry_miss(keys: Seq<i64>, e: TimesheetEntry) -> Option<EvError> {
    if find_key(keys, e.week_bucket) is None {
        Some(EvError::BucketNotFound { task_id: None, bucket: e.week_bucket })
    } else {
        None
    }
}

/// The first `Some` of a sequence of optional errors.
pub open spec fn first_some(ms: Seq<Option<EvError>>) -> Option<EvError>
    decreases ms.len(),
{
    if ms.len() == 0 {
        None
    } else {
        match ms[0] {
            Some(e) => Some(e),
            None => first_some(ms.drop_first()),
        }
    }
}

/// The first bucket-lookup error among the tasks, in order.
pub open spec fn first_task_miss(keys: Seq<i64>, tasks: Seq<TaskRecord>) -> Option<EvError> {
    first_some(tasks.map_values(|t: TaskRecord| task_miss(keys, t)))
}

/// The first bucket-lookup error among the work-log entries, in order.
pub open spec fn first_entry_miss(keys: Seq<i64>, entries: Seq<TimesheetEntry>) -> Option<
    EvError,
> {
    first_some(entries.map_values(|e: TimesheetEntry| entry_miss(keys, e)))
}

/// The first bucket-lookup error of the whole input: tasks before entries.
pub open spec fn first_miss(
    keys: Seq<i64>,
    tasks: Seq<TaskRecord>,
    entries: Seq<TimesheetEntry>,
) -> Option<EvError> {
    match first_task_miss(keys, tasks) {
        Some(e) => Some(e),
        None => first_entry_miss(keys, entries),
    }
}

pub(crate) proof fn lemma_first_some_clean_step(ms: Seq<Option<EvError>>, i: int)
    requires
        0 <= i < ms.len(),
        first_some(ms.take(i)) is None,
        ms[i] is None,
    ensures
        first_some(ms.take(i + 1)) is None,
    decreases i,
{
    assert(ms.take(i + 1)[0] == ms[0]);
    if i == 0 {
        assert(ms.take(1).drop_first() =~= ms.take(0));
        assert(first_some(ms.take(1)) == first_some(ms.take(1).drop_first()));
    } else {
        assert(ms.take(i)[0] == ms[0]);
        assert(ms[0] is None) by {
            if ms[0] is Some {
                assert(first_some(ms.take(i)) == ms.take(i)[0]);
            }
        }
        let tail = ms.drop_first();
        assert(ms.take(i).drop_first() =~= tail.take(i - 1));
        assert(first_some(tail.take(i - 1)) is None);
        assert(tail[i - 1] == ms[i]);
        lemma_first_some_clean_step(tail, i - 1);
        assert(ms.take(i + 1).drop_first() =~= tail.take(i));
        assert(first_some(ms.take(i + 1)) == first_some(tail.take(i)));
    }
}

pub(crate) proof fn lemma_first_some_hit(ms: Seq<Option<EvError>>, i: int)
    requires
        0 <= i < ms.len(),
        first_some(ms.take(i)) is None,
        ms[i] is Some,
    ensures
        first_some(ms) == ms[i],
    decreases i,
{
    if i == 0 {
        assert(first_some(ms) == ms[0]);
    } else {
        assert(ms.take(i)[0] == ms[0]);
        assert(ms[0] is None) by {
            if ms[0] is Some {
                assert(first_some(ms.take(i)) == ms.take(i)[0]);
            }
        }
        let tail = ms.drop_first();
        assert(ms.take(i).drop_first() =~= tail.take(i - 1));
        assert(first_some(tail.take(i - 1)) is None);
        assert(tail[i - 1] == ms[i]);
        lemma_first_some_hit(tail, i - 1);
        assert(first_some(ms) == first_some(tail));
    }
}

pub(crate) proof fn lemma_scatter_props(keys: Seq<i64>, cs: Seq<(Option<i64>, int)>)
    requires
        forall|j: int| 0 <= j < cs.len() ==> (#[trigger] cs[j]).1 >= 0,
    ensures
        scatter(keys, cs).len() == keys.len(),
        forall|i: int| 0 <= i < keys.len() ==> 0 <= #[trigger] scatter(keys, cs)[i],
        sum(scatter(keys, cs)) <= sum(amounts(cs)),
        (forall|j: int|
            0 <= j < cs.len() ==> (#[trigger] cs[j]).0 is Some && find_key(keys, cs[j].0->0)
                is Some) ==> sum(scatter(keys, cs)) == sum(amounts(cs)),
    decreases cs.len(),
{
    if cs.len() == 0 {
        lemma_sum_zeros(keys.len());
        assert(amounts(cs) =~= Seq::<int>::empty());
    } else {
        let prev_cs = cs.drop_last();
        assert(forall|j: int| 0 <= j < prev_cs.len() ==> prev_cs[j] == cs[j]);
        lemma_scatter_props(keys, prev_cs);
        assert(amounts(cs).drop_last() =~= amounts(prev_cs));
        assert(amounts(cs).last() == cs.last().1);
        let prev = scatter(keys, prev_cs);
        match cs.last().0 {
            Some(k) => match find_key(keys, k) {
                Some(i) => {
                    lemma_find_key(keys, k);
                    lemma_sum_update(prev, i, prev[i] + cs.last().1);
                },
                None => {},
            },
            None => {},
        }
    }
}

pub(crate) proof fn lemma_task_amounts(tasks: Seq<TaskRecord>)
    ensures
        sum(amounts(planned_contribs(tasks))) == 100 * total_task_effort(tasks),
        sum(amounts(earned_contribs(tasks))) == 100 * total_task_effort(tasks),
    decreases tasks.len(),
{
    if tasks.len() == 0 {
        assert(amounts(planned_contribs(tasks)) =~= Seq::<int>::empty());
        assert(amounts(earned_contribs(tasks)) =~= Seq::<int>::empty());
    } else {
        lemma_task_amounts(tasks.drop_last());
        assert(amounts(planned_contribs(tasks)).drop_last() =~= amounts(
            planned_contribs(tasks.drop_last()),
        ));
        assert(amounts(earned_contribs(tasks)).drop_last() =~= amounts(
            earned_contribs(tasks.drop_last()),
        ));
        assert(amounts(planned_contribs(tasks)).last() == 100 * (tasks.last().duration as int));
        assert(amounts(earned_contribs(tasks)).last() == 100 * (tasks.last().duration as int));
    }
}

pub(crate) proof fn lemma_entry_amounts(entries: Seq<TimesheetEntry>)
    ensures
        sum(amounts(effort_contribs(entries))) == 100 * total_logged_effort(entries),
    decreases entries.len(),
{
    if entries.len() == 0 {
        assert(amounts(effort_contribs(entries)) =~= Seq::<int>::empty());
    } else {
        lemma_entry_amounts(entries.drop_last());
        assert(amounts(effort_contribs(entries)).drop_last() =~= amounts(
            effort_contribs(entries.drop_last()),
        ));
        assert(amounts(effort_contribs(entries)).last() == 100 * (entries.last().duration as int));
    }
}

pub(crate) proof fn lemma_total_task_effort_nonneg(tasks: Seq<TaskRecord>)
    ensures
        total_task_effort(tasks) >= 0,
    decreases tasks.len(),
{
    if tasks.len() > 0 {
        lemma_total_task_effort_nonneg(tasks.drop_last());
    }
}

pub(crate) proof fn lemma_total_task_effort_take(tasks: Seq<TaskRecord>, i: int)
    requires
        0 <= i <= tasks.len(),
    ensures
        total_task_effort(tasks.take(i)) <= total_task_effort(tasks),
    decreases tasks.len() - i,
{
    if i == tasks.len() {
        assert(tasks.take(i) =~= tasks);
    } else {
        lemma_total_task_effort_take(tasks, i + 1);
        assert(tasks.take(i + 1).drop_last() =~= tasks.take(i));
        assert(tasks.take(i + 1).last() == tasks[i]);
    }
}

pub(crate) proof fn lemma_total_logged_effort_take(entries: Seq<TimesheetEntry>, i: int)
    requires
        0 <= i <= entries.len(),
    ensures
        total_logged_effort(entries.take(i)) <= total_logged_effort(entries),
    decreases entries.len() - i,
{
    if i == entries.len() {
        assert(entries.take(i) =~= entries);
    } else {
        lemma_total_logged_effort_take(entries, i + 1);
        assert(entries.take(i + 1).drop_last() =~= entries.take(i));
        assert(entries.take(i + 1).last() == entries[i]);
    }
}

/// Coverage law: when every task's planned-finish bucket occurs in the
/// bucket sequence, the planned-value deltas distribute the whole total:
/// they sum to 100 times the total task effort, that is, to exactly one
/// hundred percent of it.
pub proof fn lemma_planned_coverage(keys: Seq<i64>, tasks: Seq<TaskRecord>)
    requires
        forall|j: int|
            0 <= j < tasks.len() ==> find_key(keys, (#[trigger] tasks[j]).planned_finish) is Some,
    ensures
        sum(planned_deltas(keys, tasks)) == 100 * total_task_effort(tasks),
{
    let cs = planned_contribs(tasks);
    assert(forall|j: int| 0 <= j < cs.len() ==> (#[trigger] cs[j]).1 >= 0);
    assert(forall|j: int|
        0 <= j < cs.len() ==> (#[trigger] cs[j]).0 is Some && find_key(keys, cs[j].0->0) is Some);
    lemma_scatter_props(keys, cs);
    lemma_task_amounts(tasks);
}

/// The three per-bucket delta series, aligned pointwise to one bucket
/// sequence.
pub struct DeltaSeries {
    /// Planned value scheduled to be finished in each bucket.
    pub planned: Vec<SeriesPoint>,
    /// Earned value actually finished in each bucket.
    pub earned: Vec<SeriesPoint>,
    /// Effort actually logged in each bucket.
    pub actual: Vec<SeriesPoint>,
}

/// Converts task and work-log records into per-bucket weighted deltas.
///
/// Every value is the percent of total effort scaled by the total effort
/// itself: a task of duration `d` contributes `100 * d`, which stands for
/// `100 * d / total_effort` percent.  A finish or log bucket that does not
/// occur in `keys` is a data-consistency error, reported as
/// `BucketNotFound` with the offending task and bucket; a zero total effort
/// is reported as `DivisionByZero`.  Records are examined in order, each
/// task's planned finish before its actual finish, all tasks before the
/// work log, and the first offender is reported.
pub fn aggregate(
    keys: &Vec<i64>,
    tasks: &Vec<TaskRecord>,
    entries: &Vec<TimesheetEntry>,
    total_effort: u64,
) -> (r: Result<DeltaSeries, EvError>)
    requires
        100 * total_task_effort(tasks@) <= u64::MAX,
        100 * total_logged_effort(entries@) <= u64::MAX,
    ensures
        match r {
            Ok(d) => {
                &&& total_effort > 0
                &&& first_miss(keys@, tasks@, entries@) is None
                &&& buckets(d.planned@) == keys@
                &&& buckets(d.earned@) == keys@
                &&& buckets(d.actual@) == keys@
                &&& vals(d.planned@) == planned_deltas(keys@, tasks@)
                &&& vals(d.earned@) == earned_deltas(keys@, tasks@)
                &&& vals(d.actual@) == effort_deltas(keys@, entries@)
            },
            Err(e) => {
                &&& (e == (EvError::DivisionByZero) <==> total_effort == 0)
                &&& total_effort > 0 ==> first_miss(keys@, tasks@, entries@) == Some(e)
            },
        },
{
    if total_effort == 0 {
        return Err(EvError::DivisionByZero);
    }
    let n = keys.len();
    let mut planned: Vec<SeriesPoint> = Vec::new();
    let mut earned: Vec<SeriesPoint> = Vec::new();
    let mut actual: Vec<SeriesPoint> = Vec::new();
    let mut i: usize = 0;
    while i < n
        invariant
            n == keys@.len(),
            i <= n,
            planned@.len() == i,
            earned@.len() == i,
            actual@.len() == i,
            forall|j: int|
                0 <= j < i ==> #[trigger] planned@[j] == (SeriesPoint {
                    bucket: keys@[j],
                    value: 0u64,
                }),
            forall|j: int|
                0 <= j < i ==> #[trigger] earned@[j] == (SeriesPoint {
                    bucket: keys@[j],
                    value: 0u64,
                }),
            forall|j: int|
                0 <= j < i ==> #[trigger] actual@[j] == (SeriesPoint {
                    bucket: keys@[j],
                    value: 0u64,
                }),
        decreases n - i,
    {
        let zero_point = SeriesPoint { bucket: keys[i], value: 0 };
        planned.push(zero_point);
        earned.push(zero_point);
        actual.push(zero_point);
        i += 1;
    }
    proof {
        assert(buckets(planned@) =~= keys@);
        assert(buckets(earned@) =~= keys@);
        assert(buckets(actual@) =~= keys@);
        assert(planned_contribs(tasks@.take(0)) =~= Seq::<(Option<i64>, int)>::empty());
        assert(earned_contribs(tasks@.take(0)) =~= Seq::<(Option<i64>, int)>::empty());
        assert(vals(planned@) =~= zeros(keys@.len()));
        assert(vals(earned@) =~= zeros(keys@.len()));
        assert(vals(actual@) =~= zeros(keys@.len()));
        assert(tasks@.map_values(|t: TaskRecord| task_miss(keys@, t)).take(0) =~= Seq::<
            Option<EvError>,
        >::empty());
    }

    let ghost task_misses = tasks@.map_values(|t: TaskRecord| task_miss(keys@, t));
    let mut ti: usize = 0;
    while ti < tasks.len()
        invariant
            n == keys@.len(),
            ti <= tasks@.len(),
            total_effort > 0,
            100 * total_task_effort(tasks@) <= u64::MAX,
            task_misses == tasks@.map_values(|t: TaskRecord| task_miss(keys@, t)),
            buckets(planned@) == keys@,
            buckets(earned@) == keys@,
            vals(planned@) == planned_deltas(keys@, tasks@.take(ti as int)),
            vals(earned@) == earned_deltas(keys@, tasks@.take(ti as int)),
            first_some(task_misses.take(ti as int)) is None,
        decreases tasks@.len() - ti,
    {
        let ghost prev_tasks = tasks@.take(ti as int);
        let ghost next_tasks = tasks@.take(ti as int + 1);
        let t = tasks[ti];
        proof {
            assert(next_tasks.drop_last() =~= prev_tasks);
            assert(next_tasks.last() == t);
            assert(planned_contribs(next_tasks).drop_last() =~= planned_contribs(prev_tasks));
            assert(earned_contribs(next_tasks).drop_last() =~= earned_contribs(prev_tasks));
            assert(planned_contribs(next_tasks).last() == (
                Some(t.planned_finish),
                100 * (t.duration as int),
            ));
            assert(earned_contribs(next_tasks).last() == (
                t.actual_finish,
                100 * (t.duration as int),
            ));
            assert(task_misses[ti as int] == task_miss(keys@, t));
        }
        match find_bucket(keys, t.planned_finish) {
            None => {
                proof {
                    lemma_first_some_hit(task_misses, ti as int);
                }
                return Err(EvError::BucketNotFound {
                    task_id: Some(t.id),
                    bucket: t.planned_finish,
                });
            },
            Some(idx) => {
                proof {
                    // the new amount and the new cell value stay below the
                    // scaled total effort, hence below u64::MAX
                    lemma_task_amounts(tasks@);
                    lemma_sum_bounds(amounts(planned_contribs(tasks@)));
                    assert(amounts(planned_contribs(tasks@))[ti as int] == 100 * (
                    t.duration as int));
                    lemma_scatter_props(keys@, planned_contribs(next_tasks));
                    lemma_task_amounts(next_tasks);
                    lemma_total_task_effort_take(tasks@, ti as int + 1);
                    lemma_sum_bounds(scatter(keys@, planned_contribs(next_tasks)));
                    assert(planned_deltas(keys@, next_tasks) == bump(
                        planned_deltas(keys@, prev_tasks),
                        idx as int,
                        100 * (t.duration as int),
                    ));
                    assert(vals(planned@)[idx as int] == planned@[idx as int].value as int);
                    assert(planned_deltas(keys@, next_tasks)[idx as int] == planned_deltas(
                        keys@,
                        prev_tasks,
                    )[idx as int] + 100 * (t.duration as int));
                    assert(planned_deltas(keys@, next_tasks)[idx as int] <= sum(
                        planned_deltas(keys@, next_tasks),
                    ));
                    assert(sum(planned_deltas(keys@, next_tasks)) <= 100 * total_task_effort(
                        next_tasks,
                    ));
                    assert(planned@[idx as int].value as int + 100 * (t.duration as int)
                        <= u64::MAX);
                }
                let add = t.duration * 100;
                let p = planned[idx];
                planned[idx] = SeriesPoint { bucket: p.bucket, value: p.value + add };
                proof {
                    assert(buckets(planned@) =~= keys@);
                    assert(vals(planned@) =~= bump(
                        planned_deltas(keys@, prev_tasks),
                        idx as int,
                        100 * (t.duration as int),
                    ));
                }
            },
        }
        match t.actual_finish {
            Some(b) => {
                match find_bucket(keys, b) {
                    None => {
                        proof {
                            lemma_first_some_hit(task_misses, ti as int);
                        }
                        return Err(EvError::BucketNotFound { task_id: Some(t.id), bucket: b });
                    },
                    Some(idx) => {
                        proof {
                            lemma_task_amounts(tasks@);
                            lemma_sum_bounds(amounts(earned_contribs(tasks@)));
                            assert(amounts(earned_contribs(tasks@))[ti as int] == 100 * (
                            t.duration as int));
                            lemma_scatter_props(keys@, earned_contribs(next_tasks));
                            lemma_task_amounts(next_tasks);
                            lemma_total_task_effort_take(tasks@, ti as int + 1);
                            lemma_sum_bounds(scatter(keys@, earned_contribs(next_tasks)));
                            assert(earned_deltas(keys@, next_tasks) == bump(
                                earned_deltas(keys@, prev_tasks),
                                idx as int,
                                100 * (t.duration as int),
                            ));
                            assert(vals(earned@)[idx as int] == earned@[idx as int].value as int);
                            assert(earned_deltas(keys@, next_tasks)[idx as int] == earned_deltas(
                                keys@,
                                prev_tasks,
                            )[idx as int] + 100 * (t.duration as int));
                            assert(earned_deltas(keys@, next_tasks)[idx as int] <= sum(
                                earned_deltas(keys@, next_tasks),
                            ));
                            assert(sum(earned_deltas(keys@, next_tasks)) <= 100
                                * total_task_effort(next_tasks));
                            assert(earned@[idx as int].value as int + 100 * (t.duration as int)
                                <= u64::MAX);
                        }
                        let add = t.duration * 100;
                        let p = earned[idx];
                        earned[idx] = SeriesPoint { bucket: p.bucket, value: p.value + add };
                        proof {
                            assert(buckets(earned@) =~= keys@);
                            assert(vals(earned@) =~= bump(
                                earned_deltas(keys@, prev_tasks),
                                idx as int,
                                100 * (t.duration as int),
                            ));
                        }
                    },
                }
            },
            None => {
                proof {
                    assert(earned_deltas(keys@, next_tasks) == earned_deltas(keys@, prev_tasks));
                }
            },
        }
        proof {
            lemma_first_some_clean_step(task_misses, ti as int);
        }
        ti += 1;
    }
    proof {
        assert(task_misses.take(tasks@.len() as int) =~= task_misses);
        assert(tasks@.take(tasks@.len() as int) =~= tasks@);
        assert(entries@.map_values(|e: TimesheetEntry| entry_miss(keys@, e)).take(0) =~= Seq::<
            Option<EvError>,
        >::empty());
        assert(effort_contribs(entries@.take(0)) =~= Seq::<(Option<i64>, int)>::empty());
    }

    let ghost entry_misses = entries@.map_values(|e: TimesheetEntry| entry_miss(keys@, e));
    let mut ei: usize = 0;
    while ei < entries.len()
        invariant
            n == keys@.len(),
            ei <= entries@.len(),
            total_effort > 0,
            100 * total_logged_effort(entries@) <= u64::MAX,
            entry_misses == entries@.map_values(|e: TimesheetEntry| entry_miss(keys@, e)),
            first_task_miss(keys@, tasks@) is None,
            buckets(actual@) == keys@,
            vals(actual@) == effort_deltas(keys@, entries@.take(ei as int)),
            first_some(entry_misses.take(ei as int)) is None,
        decreases entries@.len() - ei,
    {
        let ghost prev_entries = entries@.take(ei as int);
        let ghost next_entries = entries@.take(ei as int + 1);
        let e = entries[ei];
        proof {
            assert(next_entries.drop_last() =~= prev_entries);
            assert(next_entries.last() == e);
            assert(effort_contribs(next_entries).drop_last() =~= effort_contribs(prev_entries));
            assert(effort_contribs(next_entries).last() == (
                Some(e.week_bucket),
                100 * (e.duration as int),
            ));
            assert(entry_misses[ei as int] == entry_miss(keys@, e));
        }
        match find_bucket(keys, e.week_bucket) {
            None => {
                proof {
                    lemma_first_some_hit(entry_misses, ei as int);
                }
                return Err(EvError::BucketNotFound { task_id: None, bucket: e.week_bucket });
            },
            Some(idx) => {
                proof {
                    lemma_entry_amounts(entries@);
                    lemma_sum_bounds(amounts(effort_contribs(entries@)));
                    assert(amounts(effort_contribs(entries@))[ei as int] == 100 * (
                    e.duration as int));
                    lemma_scatter_props(keys@, effort_contribs(next_entries));
                    lemma_entry_amounts(next_entries);
                    lemma_total_logged_effort_take(entries@, ei as int + 1);
                    lemma_sum_bounds(scatter(keys@, effort_contribs(next_entries)));
                    assert(effort_deltas(keys@, next_entries) == bump(
                        effort_deltas(keys@, prev_entries),
                        idx as int,
                        100 * (e.duration as int),
                    ));
                    assert(vals(actual@)[idx as int] == actual@[idx as int].value as int);
                    assert(effort_deltas(keys@, next_entries)[idx as int] == effort_deltas(
                        keys@,
                        prev_entries,
                    )[idx as int] + 100 * (e.duration as int));
                    assert(effort_deltas(keys@, next_entries)[idx as int] <= sum(
                        effort_deltas(keys@, next_entries),
                    ));
                    assert(sum(effort_deltas(keys@, next_entries)) <= 100 * total_logged_effort(
                        next_entries,
                    ));
                    assert(actual@[idx as int].value as int + 100 * (e.duration as int)
                        <= u64::MAX);
                }
                let add = e.duration * 100;
                let p = actual[idx];
                actual[idx] = SeriesPoint { bucket: p.bucket, value: p.value + add };
                proof {
                    assert(buckets(actual@) =~= keys@);
                    assert(vals(actual@) =~= bump(
                        effort_deltas(keys@, prev_entries),
                        idx as int,
                        100 * (e.duration as int),
                    ));
                }
            },
        }
        proof {
            lemma_first_some_clean_step(entry_misses, ei as int);
        }
        ei += 1;
    }
    proof {
        assert(entry_misses.take(entries@.len() as int) =~= entry_misses);
        assert(entries@.take(entries@.len() as int) =~= entries@);
    }
    Ok(DeltaSeries { planned, earned, actual })
}

} // verus!
