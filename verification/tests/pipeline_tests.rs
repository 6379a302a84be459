use chrono::Datelike;
use chrono::NaiveDate;

use evtrack::aggregate::{TaskRecord, TimesheetEntry};
use evtrack::chart::{build_chart, ChartData};
use evtrack::errors::EvError;
use evtrack::series::SeriesPoint;

// 2023-01-02 is a Monday in ISO week 1 of 2023; one week later is week 2.
const W1: i64 = 202301;
const W2: i64 = 202302;

fn start_day() -> i64 {
    NaiveDate::from_ymd_opt(2023, 1, 2).unwrap().num_days_from_ce() as i64
}

fn end_day() -> i64 {
    NaiveDate::from_ymd_opt(2023, 1, 9).unwrap().num_days_from_ce() as i64
}

fn two_tasks() -> Vec<TaskRecord> {
    vec![
        TaskRecord { id: 1, duration: 60, planned_finish: W1, actual_finish: Some(W1) },
        TaskRecord { id: 2, duration: 40, planned_finish: W2, actual_finish: None },
    ]
}

fn values(points: &[SeriesPoint]) -> Vec<u64> {
    points.iter().map(|p| p.value).collect()
}

fn chart(tasks: Vec<TaskRecord>, entries: Vec<TimesheetEntry>, current: i64) -> ChartData {
    build_chart(start_day(), end_day(), &tasks, &entries, 100, current, "Demo".to_string())
        .unwrap()
}

#[test]
fn concrete_scenario_with_everything_in_the_past() {
    // Values are percent scaled by the total effort of 100: a stored 6000
    // stands for 60 percent.
    let c = chart(two_tasks(), vec![], W2);
    assert_eq!(c.labels, vec!["W01", "W02"]);
    assert_eq!(values(&c.planned), vec![6000, 10000]);
    assert_eq!(values(&c.earned), vec![6000, 6000]);
    assert_eq!(c.earned[0].bucket, W1);
    assert_eq!(c.earned[1].bucket, W2);
    // no work log: the actual-effort curve trims away entirely
    assert_eq!(c.actual, vec![]);
    assert_eq!(c.title, "Demo");
}

#[test]
fn future_weeks_are_clipped_then_trimmed() {
    // Same records, but W2 has not happened yet: its earned value is
    // forced to zero and then trimmed off.
    let c = chart(two_tasks(), vec![], W1);
    assert_eq!(values(&c.planned), vec![6000, 10000]);
    assert_eq!(values(&c.earned), vec![6000]);
}

#[test]
fn a_current_bucket_before_the_range_clips_everything() {
    let c = chart(two_tasks(), vec![], W1 - 1);
    assert_eq!(values(&c.planned), vec![6000, 10000]);
    assert_eq!(c.earned, vec![]);
}

#[test]
fn work_log_entries_of_one_week_add_up() {
    let entries = vec![
        TimesheetEntry { week_bucket: W1, duration: 10 },
        TimesheetEntry { week_bucket: W1, duration: 20 },
    ];
    let c = chart(two_tasks(), entries, W2);
    assert_eq!(values(&c.actual), vec![3000, 3000]);
}

#[test]
fn planned_value_covers_the_whole_effort() {
    // With every planned-finish bucket inside the range, the baseline ends
    // at exactly one hundred percent: 100 times the total effort of 7.
    let tasks = vec![
        TaskRecord { id: 1, duration: 3, planned_finish: W2, actual_finish: None },
        TaskRecord { id: 2, duration: 4, planned_finish: W1, actual_finish: None },
    ];
    let c = build_chart(start_day(), end_day(), &tasks, &vec![], 7, W2, String::new()).unwrap();
    assert_eq!(values(&c.planned), vec![400, 700]);
    assert_eq!(*c.planned.last().unwrap(), SeriesPoint { bucket: W2, value: 700 });
}

#[test]
fn planned_series_never_decreases() {
    let c = chart(two_tasks(), vec![], W1);
    for pair in c.planned.windows(2) {
        assert!(pair[0].value <= pair[1].value);
    }
}

#[test]
fn running_twice_gives_identical_output() {
    let entries = vec![TimesheetEntry { week_bucket: W1, duration: 25 }];
    let a = chart(two_tasks(), entries.clone(), W1);
    let b = chart(two_tasks(), entries, W1);
    assert_eq!(a.labels, b.labels);
    assert_eq!(a.planned, b.planned);
    assert_eq!(a.earned, b.earned);
    assert_eq!(a.actual, b.actual);
    assert_eq!(a.title, b.title);
}

#[test]
fn zero_total_effort_is_rejected() {
    let r = build_chart(start_day(), end_day(), &two_tasks(), &vec![], 0, W2, String::new());
    assert_eq!(r.unwrap_err(), EvError::DivisionByZero);
}

#[test]
fn reversed_range_is_rejected() {
    let r = build_chart(end_day(), start_day(), &two_tasks(), &vec![], 100, W2, String::new());
    assert_eq!(r.unwrap_err(), EvError::InvalidRange);
}

#[test]
fn a_task_finishing_outside_the_range_is_reported() {
    let tasks = vec![
        TaskRecord { id: 7, duration: 10, planned_finish: 999999, actual_finish: None },
    ];
    let r = build_chart(start_day(), end_day(), &tasks, &vec![], 10, W2, String::new());
    assert_eq!(
        r.unwrap_err(),
        EvError::BucketNotFound { task_id: Some(7), bucket: 999999 },
    );
}

#[test]
fn an_actual_finish_outside_the_range_is_reported() {
    let tasks = vec![
        TaskRecord { id: 3, duration: 10, planned_finish: W1, actual_finish: Some(W2 + 90) },
    ];
    let r = build_chart(start_day(), end_day(), &tasks, &vec![], 10, W2, String::new());
    assert_eq!(
        r.unwrap_err(),
        EvError::BucketNotFound { task_id: Some(3), bucket: W2 + 90 },
    );
}

#[test]
fn a_work_log_week_outside_the_range_is_reported() {
    let entries = vec![TimesheetEntry { week_bucket: W2 + 1, duration: 5 }];
    let r = build_chart(start_day(), end_day(), &two_tasks(), &entries, 100, W2, String::new());
    assert_eq!(
        r.unwrap_err(),
        EvError::BucketNotFound { task_id: None, bucket: W2 + 1 },
    );
}

#[test]
fn the_first_offending_record_wins() {
    // Task records are examined before the work log; task 2's planned
    // finish is the first miss.
    let tasks = vec![
        TaskRecord { id: 1, duration: 10, planned_finish: W1, actual_finish: None },
        TaskRecord { id: 2, duration: 10, planned_finish: 300000, actual_finish: None },
    ];
    let entries = vec![TimesheetEntry { week_bucket: 400000, duration: 5 }];
    let r = build_chart(start_day(), end_day(), &tasks, &entries, 20, W2, String::new());
    assert_eq!(
        r.unwrap_err(),
        EvError::BucketNotFound { task_id: Some(2), bucket: 300000 },
    );
}
