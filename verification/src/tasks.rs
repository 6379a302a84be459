use vstd::prelude::*;

verus! {

/// A task of the schedule, with dates modeled as day numbers in the
/// proleptic Gregorian calendar (day 1 is January 1 of year 1), as
/// `crate::bucket` counts them.
#[derive(Debug)]
pub struct Task {
    /// Task identifier.
    pub id: i64,
    /// Task name.
    pub name: String,
    /// Estimated duration in effort units.
    pub duration: i64,
    /// Total slack in days.
    pub slack: i64,
    /// Identifiers of the predecessor tasks.
    pub predecessors: Vec<i64>,
    /// Planned start date, as a day number.
    pub start_day: i64,
    /// Planned finish date, as a day number.
    pub finish_day: i64,
    /// Names of the resources assigned in the schedule.
    pub resource_names: Vec<String>,
    /// Criticality figure carried over from the schedule.
    pub criticality: i64,
    /// Who the task is assigned to, if anyone.
    pub assignee: Option<String>,
    /// The day the task was finished, once it is done.
    pub finished_day: Option<i64>,
    /// Whether the task is done.
    pub finished: bool,
}

/// The task-status filters of the task listing.
#[derive(Clone, Copy, Debug, PartialEq, Eq)]
pub enum TaskStatus {
    Pending,
    Completed,
    All,
    Assigned,
    Unassigned,
}

/// Does a task pass the given status filter?
pub open spec fn status_matches(status: TaskStatus, t: Task) -> bool {
    match status {
        TaskStatus::All => true,
        TaskStatus::Pending => !t.finished,
        TaskStatus::Completed => t.finished,
        TaskStatus::Assigned => t.assignee is Some && !t.finished,
        TaskStatus::Unassigned => t.assignee is None,
    }
}

/// The subsequence of tasks passing the given status filter, in order.
pub open spec fn filtered_tasks(tasks: Seq<Task>, status: TaskStatus) -> Seq<Task>
    decreases tasks.len(),
{
    if tasks.len() == 0 {
        tasks
    } else {
        let rest = filtered_tasks(tasks.drop_last(), status);
        if status_matches(status, tasks.last()) {
            rest.push(tasks.last())
        } else {
            rest
        }
    }
}

fn matches_status(status: TaskStatus, t: &Task) -> (r: bool)
    ensures
        r == status_matches(status, *t),
{
    match status {
        TaskStatus::All => true,
        TaskStatus::Pending => !t.finished,
        TaskStatus::Completed => t.finished,
        TaskStatus::Assigned => t.assignee.is_some() && !t.finished,
        TaskStatus::Unassigned => t.assignee.is_none(),
    }
}

/// Keeps the tasks that pass the given status filter, in their original
/// order, as the task listing does before rendering.
pub fn filter_by_status(tasks: Vec<Task>, status: TaskStatus) -> (r: Vec<Task>)
    ensures
        r@ == filtered_tasks(tasks@, status),
{
    let ghost orig = tasks@;
    let mut rest = tasks;
    let total = rest.len();
    let mut out: Vec<Task> = Vec::new();
    let mut i: usize = 0;
    while rest.len() > 0
        invariant
            i <= orig.len(),
            orig.len() == total,
            rest@ == orig.skip(i as int),
            out@ == filtered_tasks(orig.take(i as int), status),
        decreases rest@.len(),
    {
        let t = rest.remove(0);
        proof {
            assert(orig.skip(i as int)[0] == orig[i as int]);
            assert(orig.skip(i as int).remove(0) =~= orig.skip(i as int + 1));
            assert(orig.take(i as int + 1).drop_last() =~= orig.take(i as int));
            assert(orig.take(i as int + 1).last() == orig[i as int]);
        }
        if matches_status(status, &t) {
            out.push(t);
        }
        i += 1;
    }
    proof {
        assert(orig.take(i as int) =~= orig);
    }
    out
}

/// Keeps only the first `limit` tasks when a limit is given, and all of
/// them otherwise.
pub fn limit_tasks(tasks: Vec<Task>, limit: Option<usize>) -> (r: Vec<Task>)
    ensures
        r@ == match limit {
            Some(n) => if n <= tasks@.len() {
                tasks@.take(n as int)
            } else {
                tasks@
            },
            None => tasks@,
        },
{
    let ghost orig = tasks@;
    match limit {
        Some(n) => {
            let mut kept = tasks;
            kept.truncate(n);
            proof {
                if n <= orig.len() {
                    assert(kept@ =~= orig.take(n as int));
                }
            }
            kept
        },
        None => tasks,
    }
}

/// Finds the first task with the given identifier, as the interactive
/// selectors do to map a chosen list entry back to its task.
pub fn find_task_index(tasks: &Vec<Task>, id: i64) -> (r: Option<usize>)
    ensures
        match r {
            Some(i) => i < tasks@.len() && tasks@[i as int].id == id && forall|j: int|
                0 <= j < i ==> tasks@[j].id != id,
            None => forall|j: int| 0 <= j < tasks@.len() ==> tasks@[j].id != id,
        },
{
    let mut i: usize = 0;
    while i < tasks.len()
        invariant
            i <= tasks@.len(),
            forall|j: int| 0 <= j < i ==> tasks@[j].id != id,
        decreases tasks@.len() - i,
    {
        if tasks[i].id == id {
            return Some(i);
        }
        i += 1;
    }
    None
}

/// How urgently a task's slack is flagged in the listing.
#[derive(Clone, Copy, Debug, PartialEq, Eq, Structural)]
pub enum SlackLevel {
    /// Ten days of slack or fewer.
    Critical,
    /// More than ten and up to thirty days of slack.
    Tight,
    /// More than thirty days of slack.
    Comfortable,
}

/// Classifies a task's slack for the listing: ten days or fewer is
/// critical, up to thirty is tight, anything above is comfortable.
pub fn slack_level(slack: i64) -> (r: SlackLevel)
    ensures
        r == (if slack <= 10 {
            SlackLevel::Critical
        } else if slack <= 30 {
            SlackLevel::Tight
        } else {
            SlackLevel::Comfortable
        }),
{
    if slack <= 10 {
        SlackLevel::Critical
    } else if slack <= 30 {
        SlackLevel::Tight
    } else {
        SlackLevel::Comfortable
    }
}

} // verus!
