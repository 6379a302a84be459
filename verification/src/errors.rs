use vstd::prelude::*;

verus! {

/// Errors reported by the earned-value pipeline.
///
/// All of them stem from inconsistent input data; none is transient and none
/// is retried.  The pipeline reports the first error it meets and aborts.
#[derive(Debug, Clone, Copy, PartialEq, Eq)]
pub enum EvError {
    /// The requested date range ends before it starts.
    InvalidRange,
    /// There is no effort to normalize against: the total effort is zero.
    DivisionByZero,
    /// A recorded finish week lies outside the generated bucket domain.
    /// `task_id` is `None` when the offending record is a timesheet entry
    /// rather than a task.
    BucketNotFound { task_id: Option<i64>, bucket: i64 },
}

} // verus!
