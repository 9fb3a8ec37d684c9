use chrono::{TimeZone, Utc};
use stonkscollect::scheduler::{next_tier, run_record, Tier};

fn at(y: i32, mo: u32, d: u32, h: u32) -> i64 {
    Utc.with_ymd_and_hms(y, mo, d, h, 0, 0).unwrap().timestamp()
}

#[test]
fn tiers_expose_cron_and_label() {
    assert_eq!(Tier::Price.cron(), "0 0 21 * * *");
    assert_eq!(Tier::News.cron(), "0 0 0,6,12,18 * * *");
    assert_eq!(Tier::Fundamentals.cron(), "0 0 6 * * Mon");
    let labels: Vec<_> = Tier::all().iter().map(|t| t.label()).collect();
    assert_eq!(labels, ["price", "news", "fundamentals"]);
}

#[test]
fn next_after_computes_each_tier() {
    // 2024-01-01 is a Monday.
    assert_eq!(Tier::Price.next_after(at(2024, 1, 1, 0)), Some(at(2024, 1, 1, 21)));
    assert_eq!(Tier::News.next_after(at(2024, 1, 1, 0)), Some(at(2024, 1, 1, 6)));
    assert_eq!(Tier::Fundamentals.next_after(at(2024, 1, 1, 0)), Some(at(2024, 1, 1, 6)));
}

#[test]
fn next_after_is_strictly_later() {
    assert_eq!(Tier::Price.next_after(at(2024, 1, 1, 21)), Some(at(2024, 1, 2, 21)));
    assert_eq!(Tier::Fundamentals.next_after(at(2024, 1, 1, 6)), Some(at(2024, 1, 8, 6)));
}

#[test]
fn next_tier_picks_the_earliest_fire_and_the_first_tier_on_a_tie() {
    let monday: i64 = 1_704_067_200; // 2024-01-01T00:00:00Z, a Monday
    // News (06:00) and Fundamentals (Mon 06:00) tie; News comes first in Tier::all().
    assert_eq!(next_tier(monday), Some((Tier::News, monday + 6 * 3600)));
    // At 18:00 the next news run is midnight, but prices fire at 21:00.
    assert_eq!(next_tier(monday + 18 * 3600), Some((Tier::Price, monday + 21 * 3600)));
}

#[test]
fn run_record_marks_success_ok_and_failure_error_with_its_message() {
    assert_eq!(run_record(None), ("ok", None));
    assert_eq!(run_record(Some("boom".to_string())), ("error", Some("boom".to_string())));
}
