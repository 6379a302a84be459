use evtrack::db::db_url;
use evtrack::parse::parse_days;
use evtrack::tasks::{
    filter_by_status, find_task_index, limit_tasks, slack_level, SlackLevel, Task, TaskStatus,
};

fn task(id: i64, assignee: Option<&str>, finished: bool) -> Task {
    Task {
        id,
        name: format!("task {id}"),
        duration: 5,
        slack: 12,
        predecessors: vec![],
        start_day: 738000,
        finish_day: 738007,
        resource_names: vec![],
        criticality: 0,
        assignee: assignee.map(|s| s.to_string()),
        finished_day: None,
        finished,
    }
}

fn sample() -> Vec<Task> {
    vec![
        task(1, Some("ada"), false),
        task(2, None, false),
        task(3, Some("grace"), true),
        task(4, None, true),
    ]
}

fn ids(tasks: &[Task]) -> Vec<i64> {
    tasks.iter().map(|t| t.id).collect()
}

#[test]
fn filter_keeps_everything_for_all() {
    assert_eq!(ids(&filter_by_status(sample(), TaskStatus::All)), vec![1, 2, 3, 4]);
}

#[test]
fn filter_pending_drops_finished_tasks() {
    assert_eq!(ids(&filter_by_status(sample(), TaskStatus::Pending)), vec![1, 2]);
}

#[test]
fn filter_completed_keeps_finished_tasks() {
    assert_eq!(ids(&filter_by_status(sample(), TaskStatus::Completed)), vec![3, 4]);
}

#[test]
fn filter_assigned_wants_an_assignee_and_open_work() {
    assert_eq!(ids(&filter_by_status(sample(), TaskStatus::Assigned)), vec![1]);
}

#[test]
fn filter_unassigned_wants_no_assignee() {
    assert_eq!(ids(&filter_by_status(sample(), TaskStatus::Unassigned)), vec![2, 4]);
}

#[test]
fn limit_takes_the_leading_tasks() {
    assert_eq!(ids(&limit_tasks(sample(), Some(2))), vec![1, 2]);
    assert_eq!(ids(&limit_tasks(sample(), Some(9))), vec![1, 2, 3, 4]);
    assert_eq!(ids(&limit_tasks(sample(), None)), vec![1, 2, 3, 4]);
    assert_eq!(ids(&limit_tasks(sample(), Some(0))), Vec::<i64>::new());
}

#[test]
fn find_task_index_returns_the_first_match() {
    let mut tasks = sample();
    tasks.push(task(2, Some("second"), true));
    assert_eq!(find_task_index(&tasks, 2), Some(1));
    assert_eq!(find_task_index(&tasks, 3), Some(2));
    assert_eq!(find_task_index(&tasks, 99), None);
}

#[test]
fn slack_thresholds() {
    assert_eq!(slack_level(-3), SlackLevel::Critical);
    assert_eq!(slack_level(10), SlackLevel::Critical);
    assert_eq!(slack_level(11), SlackLevel::Tight);
    assert_eq!(slack_level(30), SlackLevel::Tight);
    assert_eq!(slack_level(31), SlackLevel::Comfortable);
}

#[test]
fn db_url_prefixes_the_file_name() {
    assert_eq!(db_url(&"./db/tasks.db".to_string()), "sqlite:./db/tasks.db");
    assert_eq!(db_url(&String::new()), "sqlite:");
}

#[test]
fn parse_days_reads_the_leading_number() {
    assert_eq!(parse_days("30 days"), Some(30));
    assert_eq!(parse_days("  42\tdays"), Some(42));
    assert_eq!(parse_days("7"), Some(7));
    assert_eq!(parse_days("0 days"), Some(0));
    assert_eq!(parse_days("007 days"), Some(7));
}

#[test]
fn parse_days_accepts_a_sign() {
    assert_eq!(parse_days("-5 days"), Some(-5));
    assert_eq!(parse_days("+9 days"), Some(9));
}

#[test]
fn parse_days_handles_the_32_bit_limits() {
    assert_eq!(parse_days("2147483647"), Some(i32::MAX));
    assert_eq!(parse_days("2147483648"), None);
    assert_eq!(parse_days("-2147483648"), Some(i32::MIN));
    assert_eq!(parse_days("-2147483649"), None);
    assert_eq!(parse_days("99999999999999999999 days"), None);
}

#[test]
fn parse_days_rejects_fields_without_a_number() {
    assert_eq!(parse_days(""), None);
    assert_eq!(parse_days("   "), None);
    assert_eq!(parse_days("days"), None);
    assert_eq!(parse_days("12x days"), None);
    assert_eq!(parse_days("-"), None);
    assert_eq!(parse_days("- 5"), None);
}
