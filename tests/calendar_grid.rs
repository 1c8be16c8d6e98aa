use progress_calendar::calendar::{
    calendar, calendar_months, group_by_year, month_layout, next_month, CalendarMonth,
    MonthCompletion, MonthDuration,
};
use progress_calendar::date::{days_in_month, weekday_of, CalendarError, DateRange, Instant};
use progress_calendar::tracked_range;

fn at(year: i32, month: u32, day: u32, hour: u32) -> Instant {
    Instant::new(year, month, day, hour, 0, 0, 0).unwrap()
}

fn months_at(now: Instant) -> Vec<CalendarMonth> {
    calendar_months(&tracked_range(), &now).unwrap()
}

#[test]
fn first_day_of_range_is_partial_zero() {
    let months = months_at(at(2024, 7, 16, 12));
    assert_eq!(months[0].year, 2024);
    assert_eq!(months[0].month, 7);
    assert_eq!(months[0].duration, MonthDuration::StartOffset(16));
    assert_eq!(months[0].completion, MonthCompletion::Partial(0));
}

#[test]
fn christmas_splits_completed_and_not_started() {
    let months = months_at(at(2024, 12, 25, 0));
    for m in &months[0..5] {
        assert_eq!(m.completion, MonthCompletion::Completed);
    }
    assert_eq!((months[5].year, months[5].month), (2024, 12));
    assert_eq!(months[5].completion, MonthCompletion::Partial(24));
    for m in &months[6..] {
        assert_eq!(m.completion, MonthCompletion::NotStarted);
    }
}

#[test]
fn month_count_is_inclusive() {
    let months = months_at(at(2024, 12, 25, 0));
    assert_eq!(months.len(), 12);
    assert_eq!((months[11].year, months[11].month), (2025, 6));
    let long = DateRange::new(at(2023, 11, 5, 0), at(2026, 2, 1, 0)).unwrap();
    assert_eq!(calendar_months(&long, &at(2024, 1, 1, 0)).unwrap().len(), 28);
}

#[test]
fn offsets_only_at_the_ends() {
    let months = months_at(at(2024, 12, 25, 0));
    assert_eq!(months[0].duration, MonthDuration::StartOffset(16));
    assert_eq!(months[11].duration, MonthDuration::EndOffset(13));
    for m in &months[1..11] {
        assert_eq!(m.duration, MonthDuration::Full);
    }
}

#[test]
fn same_month_range_keeps_end_offset() {
    let range = DateRange::new(at(2024, 3, 5, 0), at(2024, 3, 20, 0)).unwrap();
    let months = calendar_months(&range, &at(2024, 3, 10, 0)).unwrap();
    assert_eq!(months.len(), 1);
    assert_eq!(months[0].duration, MonthDuration::EndOffset(20));
    assert_eq!(months[0].completion, MonthCompletion::Partial(9));
}

#[test]
fn before_start_nothing_started_after_end_all_completed() {
    for m in months_at(at(2024, 6, 30, 23)) {
        assert_eq!(m.completion, MonthCompletion::NotStarted);
    }
    for m in months_at(at(2025, 7, 1, 0)) {
        assert_eq!(m.completion, MonthCompletion::Completed);
    }
}

#[test]
fn past_end_within_end_month_is_partial_up_to_end() {
    let months = months_at(at(2025, 6, 20, 0));
    assert_eq!(months[11].completion, MonthCompletion::Partial(13));
}

#[test]
fn layout_days_add_up_every_month() {
    for now in [at(2024, 5, 1, 0), at(2024, 7, 16, 12), at(2024, 12, 25, 0), at(2025, 6, 20, 0)] {
        for m in months_at(now) {
            let layout = month_layout(&m);
            let length = days_in_month(m.year, m.month);
            let counted = match m.duration {
                MonthDuration::Full => length,
                MonthDuration::StartOffset(d) => length - d,
                MonthDuration::EndOffset(d) => d,
            };
            assert_eq!(layout.elapsed_days + layout.remaining_days, counted);
        }
    }
}

#[test]
fn start_month_layout_is_shifted_by_skipped_days() {
    let months = months_at(at(2024, 7, 16, 12));
    let layout = month_layout(&months[0]);
    assert_eq!(layout.leading_blanks, 2);
    assert_eq!(layout.elapsed_days, 0);
    assert_eq!(layout.remaining_days, 15);
}

#[test]
fn february_lengths_follow_leap_years() {
    assert_eq!(days_in_month(2024, 2), 29);
    assert_eq!(days_in_month(2025, 2), 28);
    assert_eq!(days_in_month(1900, 2), 28);
    assert_eq!(days_in_month(2000, 2), 29);
    let range = DateRange::new(at(2024, 1, 10, 0), at(2025, 3, 1, 0)).unwrap();
    let months = calendar_months(&range, &at(2024, 1, 10, 0)).unwrap();
    let feb24 = month_layout(&months[1]);
    assert_eq!(months[1].duration, MonthDuration::Full);
    assert_eq!(feb24.elapsed_days + feb24.remaining_days, 29);
    let feb25 = month_layout(&months[13]);
    assert_eq!((months[13].year, months[13].month), (2025, 2));
    assert_eq!(feb25.elapsed_days + feb25.remaining_days, 28);
}

#[test]
fn weekdays_count_from_monday() {
    assert_eq!(weekday_of(2024, 7, 1), 0);
    assert_eq!(weekday_of(1970, 1, 1), 3);
    assert_eq!(weekday_of(2025, 6, 1), 6);
    assert_eq!(weekday_of(1, 1, 1), 0);
}

#[test]
fn years_group_months_in_order() {
    let years = calendar(&tracked_range(), &at(2024, 12, 25, 0)).unwrap();
    assert_eq!(years.len(), 2);
    assert_eq!(years[0].year, 2024);
    assert_eq!(years[0].months.len(), 6);
    assert_eq!(years[1].year, 2025);
    assert_eq!(years[1].months.len(), 6);
    assert_eq!(years[1].months[0].month, 1);
}

#[test]
fn grouping_empty_gives_no_years() {
    assert!(group_by_year(Vec::new()).is_empty());
}

#[test]
fn invalid_ranges_are_refused() {
    let a = at(2024, 7, 16, 12);
    assert_eq!(DateRange::new(a, a), Err(CalendarError::InvalidRange));
    let back = DateRange { start: at(2025, 1, 1, 0), end: a };
    assert_eq!(calendar(&back, &a), Err(CalendarError::InvalidRange));
    assert_eq!(calendar_months(&back, &a), Err(CalendarError::InvalidRange));
}

#[test]
fn next_month_rolls_over_december() {
    assert_eq!(next_month(2024, 12), Ok((2025, 1)));
    assert_eq!(next_month(2024, 2), Ok((2024, 3)));
    assert_eq!(next_month(2024, 13), Err(CalendarError::InvalidMonth));
    assert_eq!(next_month(2024, 0), Err(CalendarError::InvalidMonth));
}

#[test]
fn instants_must_be_valid() {
    assert!(Instant::new(2025, 2, 29, 0, 0, 0, 0).is_none());
    assert!(Instant::new(2024, 2, 29, 0, 0, 0, 0).is_some());
    assert!(Instant::new(2024, 4, 31, 0, 0, 0, 0).is_none());
    assert!(Instant::new(2024, 4, 30, 24, 0, 0, 0).is_none());
    assert!(Instant::new(2024, 13, 1, 0, 0, 0, 0).is_none());
}
