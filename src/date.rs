//! Instants, durations and date ranges, with the Gregorian calendar arithmetic
//! they rest on.
use vstd::prelude::*;

verus! {

/// Smallest year that the date arithmetic accepts.
pub const MIN_YEAR: i32 = -262143;

/// Largest year that the date arithmetic accepts.
pub const MAX_YEAR: i32 = 262142;

pub const MILLIS_PER_DAY: i64 = 86400000;

pub open spec fn is_leap_year(y: int) -> bool {
    (y % 4 == 0 && y % 100 != 0) || y % 400 == 0
}

pub open spec fn month_length(y: int, m: int) -> int {
    if m == 2 {
        if is_leap_year(y) { 29 } else { 28 }
    } else if m == 4 || m == 6 || m == 9 || m == 11 {
        30
    } else {
        31
    }
}

pub open spec fn year_in_range(y: int) -> bool {
    MIN_YEAR <= y <= MAX_YEAR
}

pub open spec fn valid_date(y: int, m: int, d: int) -> bool {
    year_in_range(y) && 1 <= m <= 12 && 1 <= d <= month_length(y, m)
}

/// Days from 1 January of year 1 to 1 January of year `y`.
pub open spec fn days_before_year(y: int) -> int {
    365 * (y - 1) + (y - 1) / 4 - (y - 1) / 100 + (y - 1) / 400
}

/// Days of year `y` that come before the first of month `m`.
pub open spec fn days_before_month(y: int, m: int) -> int
    decreases m,
{
    if m <= 1 {
        0
    } else {
        days_before_month(y, m - 1) + month_length(y, m - 1)
    }
}

/// Number of a day in the proleptic Gregorian calendar, 1 January of year 1
/// being day 1.
pub open spec fn day_number(y: int, m: int, d: int) -> int {
    days_before_year(y) + days_before_month(y, m) + d
}

/// Days since the preceding Monday (0 to 6); 1 January of year 1 was a Monday.
pub open spec fn weekday_from_monday(y: int, m: int, d: int) -> int {
    (day_number(y, m, d) - 1) % 7
}

/// Relies on chrono's `NaiveDate::from_ymd_opt`, which accepts exactly the
/// valid dates of its year range, and on `Datelike::num_days_from_ce`, which
/// numbers days from 1 January of year 1 as day 1.
#[verifier::external_body]
fn day_number_of(year: i32, month: u32, day: u32) -> (r: Option<i32>)
    ensures
        r is Some <==> valid_date(year as int, month as int, day as int),
        r is Some ==> r->0 as int == day_number(year as int, month as int, day as int),
{
    match chrono::NaiveDate::from_ymd_opt(year, month, day) {
        Some(d) => Some(chrono::Datelike::num_days_from_ce(&d)),
        None => None,
    }
}

/// Relies on chrono's `Month::try_from(u8)`, which accepts 1 to 12, and on
/// `Month::num_days`, the month's length in a year (February looks the year
/// up as a date, so that one year must be in range).
#[verifier::external_body]
fn month_days_of(year: i32, month: u8) -> (r: Option<u8>)
    ensures
        r is Some <==> (1 <= month <= 12 && (month != 2 || year_in_range(year as int))),
        r is Some ==> r->0 as int == month_length(year as int, month as int),
{
    match chrono::Month::try_from(month) {
        Ok(m) => m.num_days(year),
        Err(_) => None,
    }
}

/// Length in days of a month of a year in range.
pub fn days_in_month(year: i32, month: u32) -> (r: u32)
    requires
        year_in_range(year as int),
        1 <= month <= 12,
    ensures
        r as int == month_length(year as int, month as int),
{
    match month_days_of(year, month as u8) {
        Some(n) => n as u32,
        None => 0,
    }
}

/// Day of the week of a valid date, counted from Monday (0) to Sunday (6).
pub fn weekday_of(year: i32, month: u32, day: u32) -> (r: u32)
    requires
        valid_date(year as int, month as int, day as int),
    ensures
        r as int == weekday_from_monday(year as int, month as int, day as int),
        r < 7,
{
    match day_number_of(year, month, day) {
        Some(n) => {
            let k: i64 = n as i64 - 1;
            let w: i64 = if k >= 0 {
                k % 7
            } else {
                let q: i64 = (-k) % 7;
                if q == 0 { 0 } else { 7 - q }
            };
            assert(w as int == (k as int) % 7);
            w as u32
        },
        None => 0,
    }
}


/// The two ways a range or a month computation can fail.
#[derive(Clone, Copy, Debug, PartialEq, Eq, Structural)]
pub enum CalendarError {
    /// The range's end is not strictly after its start.
    InvalidRange,
    /// Month arithmetic produced a month outside 1 to 12.
    InvalidMonth,
}

/// A point in time in one fixed zone, held by its calendar fields.
#[derive(Clone, Copy, Debug, PartialEq, Eq, Structural)]
pub struct Instant {
    pub year: i32,
    pub month: u32,
    pub day: u32,
    pub hour: u32,
    pub minute: u32,
    pub second: u32,
    pub millisecond: u32,
}

impl Instant {
    pub open spec fn wf(&self) -> bool {
        &&& valid_date(self.year as int, self.month as int, self.day as int)
        &&& self.hour < 24
        &&& self.minute < 60
        &&& self.second < 60
        &&& self.millisecond < 1000
    }

    pub open spec fn day_number(&self) -> int {
        day_number(self.year as int, self.month as int, self.day as int)
    }

    /// Milliseconds from the start of day 0 of the calendar.
    pub open spec fn millis(&self) -> int {
        self.day_number() * 86400000 + self.hour * 3600000 + self.minute * 60000 + self.second
            * 1000 + self.millisecond
    }

    /// Months counted from January of year 0.
    pub open spec fn month_index(&self) -> int {
        month_index(self.year as int, self.month as int)
    }

    /// The instant with the given fields, if they name a valid date and time.
    pub fn new(
        year: i32,
        month: u32,
        day: u32,
        hour: u32,
        minute: u32,
        second: u32,
        millisecond: u32,
    ) -> (r: Option<Instant>)
        ensures
            r is Some <==> (Instant { year, month, day, hour, minute, second, millisecond }).wf(),
            r is Some ==> r->0 == (Instant { year, month, day, hour, minute, second, millisecond }),
    {
        if hour >= 24 || minute >= 60 || second >= 60 || millisecond >= 1000 {
            return None;
        }
        match day_number_of(year, month, day) {
            Some(_) => Some(Instant { year, month, day, hour, minute, second, millisecond }),
            None => None,
        }
    }

    /// Milliseconds from the start of day 0 of the calendar.
    pub fn to_millis(&self) -> (r: i64)
        requires
            self.wf(),
        ensures
            r as int == self.millis(),
    {
        match day_number_of(self.year, self.month, self.day) {
            Some(n) => {
                let ms: i64 = self.hour as i64 * 3600000 + self.minute as i64 * 60000
                    + self.second as i64 * 1000 + self.millisecond as i64;
                assert(-2147483648 * 86400000 <= n as i64 * 86400000 <= 2147483647 * 86400000)
                    by (nonlinear_arith)
                    requires
                        -2147483648 <= n <= 2147483647,
                ;
                n as i64 * MILLIS_PER_DAY + ms
            },
            None => 0,
        }
    }
}


proof fn lemma_days_before_month_bounds(y: int, m: int)
    requires
        1 <= m <= 13,
    ensures
        0 <= days_before_month(y, m) <= 31 * (m - 1),
    decreases m,
{
    if m > 1 {
        lemma_days_before_month_bounds(y, m - 1);
    }
}

/// A valid instant lies within 10^16 milliseconds of day 0.
pub proof fn lemma_millis_bounds(i: Instant)
    requires
        i.wf(),
    ensures
        -10000000000000000 <= i.millis() <= 10000000000000000,
{
    lemma_days_before_month_bounds(i.year as int, i.month as int);
    let n = i.day_number();
    assert(-100000000 <= n <= 100000000);
    assert(-100000000 * 86400000 <= n * 86400000 <= 100000000 * 86400000) by (nonlinear_arith)
        requires
            -100000000 <= n <= 100000000,
    ;
}

/// Months counted from January of year 0: month `m` of year `y` is `12 * y + m - 1`.
pub open spec fn month_index(y: int, m: int) -> int {
    y * 12 + m - 1
}

/// Integer division that truncates toward zero.
pub open spec fn trunc_div(a: int, b: int) -> int {
    if a >= 0 {
        a / b
    } else {
        -((-a) / b)
    }
}

/// A signed span of time in milliseconds.
#[derive(Clone, Copy, Debug, PartialEq, Eq, Structural)]
pub struct Duration {
    pub millis: i64,
}

/// Largest magnitude of a duration between two instants of the accepted range.
pub const MAX_SPAN_MILLIS: i64 = 200000000000000000;

impl Duration {
    pub open spec fn wf(&self) -> bool {
        -MAX_SPAN_MILLIS <= self.millis <= MAX_SPAN_MILLIS
    }

    /// The span from `a` to `b`, that is `b - a`.
    pub fn between(a: &Instant, b: &Instant) -> (r: Duration)
        requires
            a.wf(),
            b.wf(),
        ensures
            r.millis == b.millis() - a.millis(),
            r.wf(),
    {
        proof {
            lemma_millis_bounds(*a);
            lemma_millis_bounds(*b);
        }
        Duration { millis: b.to_millis() - a.to_millis() }
    }

    /// Truncates toward zero by the given unit.
    fn in_units(&self, unit: i64) -> (r: i64)
        requires
            self.wf(),
            unit > 0,
        ensures
            r as int == trunc_div(self.millis as int, unit as int),
    {
        if self.millis >= 0 {
            self.millis / unit
        } else {
            -((-self.millis) / unit)
        }
    }

    /// Whole days, truncated toward zero.
    pub fn whole_days(&self) -> (r: i64)
        requires
            self.wf(),
        ensures
            r as int == trunc_div(self.millis as int, 86400000),
    {
        self.in_units(MILLIS_PER_DAY)
    }

    /// Whole hours, truncated toward zero.
    pub fn whole_hours(&self) -> (r: i64)
        requires
            self.wf(),
        ensures
            r as int == trunc_div(self.millis as int, 3600000),
    {
        self.in_units(3600000)
    }

    /// Whole minutes, truncated toward zero.
    pub fn whole_minutes(&self) -> (r: i64)
        requires
            self.wf(),
        ensures
            r as int == trunc_div(self.millis as int, 60000),
    {
        self.in_units(60000)
    }

    /// Whole seconds, truncated toward zero.
    pub fn whole_seconds(&self) -> (r: i64)
        requires
            self.wf(),
        ensures
            r as int == trunc_div(self.millis as int, 1000),
    {
        self.in_units(1000)
    }
}

/// The tracked span, from `start` to `end`.
#[derive(Clone, Copy, Debug, PartialEq, Eq, Structural)]
pub struct DateRange {
    pub start: Instant,
    pub end: Instant,
}

impl DateRange {
    /// Both ends are valid instants; whether `start < end` is checked separately.
    pub open spec fn fields_wf(&self) -> bool {
        self.start.wf() && self.end.wf()
    }

    pub open spec fn wf(&self) -> bool {
        self.fields_wf() && self.start.millis() < self.end.millis()
    }

    /// Fails with `InvalidRange` exactly when `end` is not after `start`.
    pub fn check(&self) -> (r: Result<(), CalendarError>)
        requires
            self.fields_wf(),
        ensures
            r is Ok <==> self.wf(),
            r is Err ==> r->Err_0 == CalendarError::InvalidRange,
    {
        if self.start.to_millis() < self.end.to_millis() {
            Ok(())
        } else {
            Err(CalendarError::InvalidRange)
        }
    }

    /// The range from `start` to `end`, if `end` is strictly after `start`.
    pub fn new(start: Instant, end: Instant) -> (r: Result<DateRange, CalendarError>)
        requires
            start.wf(),
            end.wf(),
        ensures
            r is Ok <==> start.millis() < end.millis(),
            r is Ok ==> r->Ok_0 == (DateRange { start, end }),
            r is Err ==> r->Err_0 == CalendarError::InvalidRange,
    {
        let range = DateRange { start, end };
        match range.check() {
            Ok(()) => Ok(range),
            Err(e) => Err(e),
        }
    }
}

} // verus!
