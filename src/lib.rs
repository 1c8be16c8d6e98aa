//! Progress tracking over a fixed span of calendar dates: a month-by-month
//! calendar annotated with completion, a countdown, and a colour for each day.
use vstd::prelude::*;

pub mod calendar;
pub mod color;
pub mod date;
pub mod stats;
pub mod text;

use crate::calendar::{calendar, calendar_model, flatten, grouped_by_year, CalendarYear};
use crate::date::{CalendarError, DateRange, Instant};
use crate::stats::Stats;

verus! {

/// The tracked span starts on 16 July 2024 at noon.
pub fn start() -> (r: Instant)
    ensures
        r == (Instant { year: 2024, month: 7, day: 16, hour: 12, minute: 0, second: 0, millisecond: 0 }),
        r.wf(),
{
    Instant { year: 2024, month: 7, day: 16, hour: 12, minute: 0, second: 0, millisecond: 0 }
}

/// The tracked span ends on 13 June 2025 at noon.
pub fn end() -> (r: Instant)
    ensures
        r == (Instant { year: 2025, month: 6, day: 13, hour: 12, minute: 0, second: 0, millisecond: 0 }),
        r.wf(),
{
    Instant { year: 2025, month: 6, day: 13, hour: 12, minute: 0, second: 0, millisecond: 0 }
}

/// The tracked span, from `start()` to `end()`.
pub fn tracked_range() -> (r: DateRange)
    ensures
        r.start == (Instant { year: 2024, month: 7, day: 16, hour: 12, minute: 0, second: 0, millisecond: 0 }),
        r.end == (Instant { year: 2025, month: 6, day: 13, hour: 12, minute: 0, second: 0, millisecond: 0 }),
        r.wf(),
{
    proof {
        reveal_with_fuel(crate::date::days_before_month, 12);
    }
    DateRange { start: start(), end: end() }
}

/// Everything a tick redraws.
#[derive(Clone, Debug)]
pub struct Refresh {
    pub calendar: Vec<CalendarYear>,
    pub stats: Stats,
}

/// The calendar and the progress figures of the range at `now`; both fail
/// alike, with `InvalidRange`, exactly when the range's end is not after its
/// start.
pub fn refresh(range: &DateRange, now: &Instant) -> (r: Result<Refresh, CalendarError>)
    requires
        range.fields_wf(),
        now.wf(),
    ensures
        r is Ok <==> range.wf(),
        r is Err ==> r->Err_0 == CalendarError::InvalidRange,
        r is Ok ==> flatten(r->Ok_0.calendar@) == calendar_model(*range, *now),
        r is Ok ==> grouped_by_year(r->Ok_0.calendar@),
        r is Ok ==> r->Ok_0.stats.describes(*range, *now),
{
    let years = calendar(range, now)?;
    let stats = Stats::compute(range, now)?;
    Ok(Refresh { calendar: years, stats })
}

} // verus!
