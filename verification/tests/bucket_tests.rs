use chrono::Datelike;
use chrono::NaiveDate;

use evtrack::bucket::{day_bucket, week_buckets};
use evtrack::chart::{bucket_label, bucket_labels};
use evtrack::errors::EvError;

fn day_number(date: NaiveDate) -> i64 {
    date.num_days_from_ce() as i64
}

fn expected_key(date: NaiveDate) -> i64 {
    (date.year() as i64) * 100 + (date.iso_week().week() as i64)
}

#[test]
fn single_day_range_yields_one_bucket() {
    // 2023-10-02 is a Monday in ISO week 40.
    let d = NaiveDate::from_ymd_opt(2023, 10, 2).unwrap();
    let keys = week_buckets(day_number(d), day_number(d)).unwrap();
    assert_eq!(keys, vec![202340]);
}

#[test]
fn day_bucket_matches_calendar_library() {
    let dates = [
        NaiveDate::from_ymd_opt(2023, 1, 2).unwrap(),
        NaiveDate::from_ymd_opt(2023, 10, 2).unwrap(),
        // Late December mapping into ISO week 1 of the following year.
        NaiveDate::from_ymd_opt(2025, 12, 29).unwrap(),
        // Early January mapping into ISO week 53 of the preceding year.
        NaiveDate::from_ymd_opt(2021, 1, 1).unwrap(),
        NaiveDate::from_ymd_opt(1999, 9, 3).unwrap(),
    ];
    for d in dates {
        assert_eq!(day_bucket(day_number(d)), expected_key(d));
    }
}

#[test]
fn year_boundary_keys_pair_calendar_year_with_iso_week() {
    // 2025-12-29 is a Monday that ISO 8601 places in week 1 of 2026; the
    // key keeps the calendar year.
    let d = NaiveDate::from_ymd_opt(2025, 12, 29).unwrap();
    assert_eq!(day_bucket(day_number(d)), 202501);
    // 2021-01-01 falls in ISO week 53 of 2020; the key keeps year 2021.
    let d = NaiveDate::from_ymd_opt(2021, 1, 1).unwrap();
    assert_eq!(day_bucket(day_number(d)), 202153);
}

#[test]
fn week_buckets_step_seven_days_across_years() {
    let start = NaiveDate::from_ymd_opt(2020, 12, 1).unwrap();
    let end = NaiveDate::from_ymd_opt(2021, 2, 1).unwrap();
    let keys = week_buckets(day_number(start), day_number(end)).unwrap();
    let mut expected = Vec::new();
    let mut d = start;
    while d <= end {
        expected.push(expected_key(d));
        d += chrono::Duration::weeks(1);
    }
    assert_eq!(keys, expected);
}

#[test]
fn reversed_range_is_invalid() {
    let start = NaiveDate::from_ymd_opt(2023, 10, 2).unwrap();
    let end = NaiveDate::from_ymd_opt(2023, 9, 2).unwrap();
    let r = week_buckets(day_number(start), day_number(end));
    assert_eq!(r, Err(EvError::InvalidRange));
}

#[test]
fn labels_show_two_digit_week_numbers() {
    assert_eq!(bucket_label(202305), "W05");
    assert_eq!(bucket_label(202342), "W42");
    assert_eq!(bucket_label(202153), "W53");
}

#[test]
fn labels_cover_the_whole_sequence() {
    let keys = vec![202301, 202302, 202310];
    let labels = bucket_labels(&keys);
    assert_eq!(labels, vec!["W01", "W02", "W10"]);
}
