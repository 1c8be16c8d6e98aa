use progress_calendar::color::{color_for, day_color};
use progress_calendar::date::{CalendarError, DateRange, Duration, Instant};
use progress_calendar::stats::{day_suffix, Stats};
use progress_calendar::{end, refresh, start, tracked_range};

fn at(year: i32, month: u32, day: u32, hour: u32) -> Instant {
    Instant::new(year, month, day, hour, 0, 0, 0).unwrap()
}

fn percent(s: &Stats) -> f64 {
    s.elapsed.millis as f64 / s.total.millis as f64 * 100.0
}

#[test]
fn at_start_day_one_of_range() {
    let s = Stats::compute(&tracked_range(), &start()).unwrap();
    assert_eq!(s.elapsed.millis, 0);
    assert_eq!(s.day_index, 1);
    assert_eq!(s.total_days, 332);
    assert_eq!(s.days_left, 331);
    assert_eq!(s.countdown(), "7968:00:00.000");
}

#[test]
fn at_end_progress_is_complete() {
    let s = Stats::compute(&tracked_range(), &end()).unwrap();
    assert_eq!(s.remaining.millis, 0);
    assert!((percent(&s) - 100.0).abs() < 1e-9);
    assert_eq!(s.countdown(), "0:00:00.000");
}

#[test]
fn past_end_remaining_is_negative() {
    let s = Stats::compute(&tracked_range(), &at(2025, 6, 20, 0)).unwrap();
    assert!(s.remaining.millis < 0);
    assert!(percent(&s) > 100.0);
    assert_eq!(s.countdown(), "-156:00:00.000");
    assert_eq!(s.days_left, -7);
}

#[test]
fn before_start_percent_is_negative() {
    let s = Stats::compute(&tracked_range(), &at(2024, 7, 15, 12)).unwrap();
    assert!(percent(&s) < 0.0);
    assert_eq!(s.day_index, 0);
}

#[test]
fn countdown_pads_fields() {
    let now = Instant::new(2025, 6, 13, 10, 57, 56, 955).unwrap();
    let s = Stats::compute(&tracked_range(), &now).unwrap();
    assert_eq!(s.remaining.millis, 3_723_045);
    assert_eq!(s.countdown(), "1:02:03.045");
}

#[test]
fn stats_refuse_invalid_range() {
    let r = DateRange { start: end(), end: start() };
    assert_eq!(Stats::compute(&r, &start()), Err(CalendarError::InvalidRange));
    assert!(matches!(refresh(&r, &start()), Err(CalendarError::InvalidRange)));
}

#[test]
fn refresh_gives_calendar_and_stats() {
    let now = at(2024, 12, 25, 0);
    let r = refresh(&tracked_range(), &now).unwrap();
    assert_eq!(r.calendar.len(), 2);
    assert_eq!(r.stats, Stats::compute(&tracked_range(), &now).unwrap());
}

#[test]
fn durations_truncate_toward_zero() {
    assert_eq!(Duration { millis: -1 }.whole_days(), 0);
    assert_eq!(Duration { millis: -86_400_001 }.whole_days(), -1);
    assert_eq!(Duration { millis: 7_199_999 }.whole_hours(), 1);
    assert_eq!(Duration { millis: -61_000 }.whole_minutes(), -1);
    assert_eq!(Duration { millis: 1_999 }.whole_seconds(), 1);
}

#[test]
fn suffixes_follow_last_digit() {
    assert_eq!(day_suffix(1), "st");
    assert_eq!(day_suffix(2), "nd");
    assert_eq!(day_suffix(3), "rd");
    assert_eq!(day_suffix(4), "th");
    assert_eq!(day_suffix(20), "th");
    assert_eq!(day_suffix(21), "st");
}

#[test]
fn day_color_is_stable_within_a_day() {
    let morning = Instant::new(2024, 7, 16, 1, 2, 3, 4).unwrap();
    let evening = Instant::new(2024, 7, 16, 23, 59, 59, 999).unwrap();
    assert_eq!(color_for(&morning), color_for(&morning));
    assert_eq!(day_color(&morning), day_color(&evening));
}

#[test]
fn day_color_differs_between_days() {
    let a = day_color(&at(2024, 7, 16, 0));
    let b = day_color(&at(2024, 7, 17, 0));
    let c = day_color(&at(2025, 7, 16, 0));
    assert_ne!(a, b);
    assert_ne!(a, c);
    assert_eq!(a.len(), 7);
    assert!(a.starts_with('#'));
    assert!(a[1..].chars().all(|ch| ch.is_ascii_digit() || ('A'..='F').contains(&ch)));
}
