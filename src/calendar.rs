//! The calendar grid: every month that the range touches, grouped by year and
//! annotated with how much of it the range covers and how much has passed.
use vstd::prelude::*;
use crate::date::{
    day_number, days_before_month, days_before_year, days_in_month, is_leap_year, month_index,
    month_length, weekday_from_monday, weekday_of, year_in_range, CalendarError, DateRange,
    Instant,
};

verus! {

/// How much of a month lies before the current instant.
#[derive(Clone, Copy, Debug, PartialEq, Eq, Structural)]
pub enum MonthCompletion {
    Completed,
    NotStarted,
    /// The month holds the current instant; this many of its counted days
    /// have passed.
    Partial(u32),
}

/// Which days of a month the range counts.
#[derive(Clone, Copy, Debug, PartialEq, Eq, Structural)]
pub enum MonthDuration {
    Full,
    /// The first `d` days are left out.
    StartOffset(u32),
    /// Only the first `d` days are counted.
    EndOffset(u32),
}

#[derive(Clone, Copy, Debug, PartialEq, Eq, Structural)]
pub struct CalendarMonth {
    pub year: i32,
    pub month: u32,
    pub completion: MonthCompletion,
    pub duration: MonthDuration,
}

#[derive(Clone, Debug, PartialEq, Eq)]
pub struct CalendarYear {
    pub year: i32,
    pub months: Vec<CalendarMonth>,
}

pub open spec fn index_year(k: int) -> int {
    k / 12
}

pub open spec fn index_month(k: int) -> int {
    k % 12 + 1
}

/// Days of a month of length `len` that the duration counts.
pub open spec fn counted_days(duration: MonthDuration, len: int) -> int {
    match duration {
        MonthDuration::Full => len,
        MonthDuration::StartOffset(d) => len - d,
        MonthDuration::EndOffset(d) => d as int,
    }
}

/// Counted days of a month that come before day `day` of it.
pub open spec fn counted_before(duration: MonthDuration, day: int) -> int {
    match duration {
        MonthDuration::Full => day - 1,
        MonthDuration::StartOffset(d) => if day - 1 > d { day - 1 - d } else { 0 },
        MonthDuration::EndOffset(d) => if day - 1 < d { day - 1 } else { d as int },
    }
}

/// The duration of month `k` of the range; where start and end share a month,
/// the end's offset is the one kept.
pub open spec fn duration_at(range: DateRange, k: int) -> MonthDuration {
    if k == range.end.month_index() {
        MonthDuration::EndOffset(range.end.day)
    } else if k == range.start.month_index() {
        MonthDuration::StartOffset(range.start.day)
    } else {
        MonthDuration::Full
    }
}

pub open spec fn completion_at(range: DateRange, now: Instant, k: int) -> MonthCompletion {
    if now.month_index() > k {
        MonthCompletion::Completed
    } else if now.month_index() == k {
        MonthCompletion::Partial(counted_before(duration_at(range, k), now.day as int) as u32)
    } else {
        MonthCompletion::NotStarted
    }
}

pub open spec fn month_at(range: DateRange, now: Instant, k: int) -> CalendarMonth {
    CalendarMonth {
        year: index_year(k) as i32,
        month: index_month(k) as u32,
        completion: completion_at(range, now, k),
        duration: duration_at(range, k),
    }
}

/// Number of months from the start's month to the end's, both included.
pub open spec fn month_count(range: DateRange) -> int {
    range.end.month_index() - range.start.month_index() + 1
}

/// Every month that the range touches, in order.
pub open spec fn calendar_model(range: DateRange, now: Instant) -> Seq<CalendarMonth> {
    Seq::new(
        month_count(range) as nat,
        |i: int| month_at(range, now, range.start.month_index() + i),
    )
}

/// The months of a sequence of years, in order.
pub open spec fn flatten(years: Seq<CalendarYear>) -> Seq<CalendarMonth>
    decreases years.len(),
{
    if years.len() == 0 {
        Seq::empty()
    } else {
        flatten(years.drop_last()) + years.last().months@
    }
}

/// Each year holds at least one month, all of its own year, and years ascend.
pub open spec fn grouped_by_year(years: Seq<CalendarYear>) -> bool {
    &&& forall|i: int| 0 <= i < years.len() ==> #[trigger] years[i].months@.len() > 0
    &&& forall|i: int, j: int|
        0 <= i < years.len() && 0 <= j < years[i].months@.len() ==> #[trigger] years[i].months@[j].year
            == years[i].year
    &&& forall|i: int, j: int| 0 <= i < j < years.len() ==> years[i].year < years[j].year
}

impl CalendarMonth {
    /// Days of this month that the range counts.
    pub open spec fn counted(&self) -> int {
        counted_days(self.duration, month_length(self.year as int, self.month as int))
    }

    /// Counted days that have passed.
    pub open spec fn elapsed(&self) -> int {
        match self.completion {
            MonthCompletion::Completed => self.counted(),
            MonthCompletion::NotStarted => 0,
            MonthCompletion::Partial(d) => d as int,
        }
    }

    /// Counted days still to come.
    pub open spec fn remaining(&self) -> int {
        self.counted() - self.elapsed()
    }

    /// A month of the accepted years whose offsets fit in it and whose
    /// elapsed days fit in its counted days.
    pub open spec fn wf(&self) -> bool {
        &&& year_in_range(self.year as int)
        &&& 1 <= self.month <= 12
        &&& match self.duration {
            MonthDuration::Full => true,
            MonthDuration::StartOffset(d) => d <= month_length(self.year as int, self.month as int),
            MonthDuration::EndOffset(d) => d <= month_length(self.year as int, self.month as int),
        }
        &&& 0 <= self.elapsed() <= self.counted()
    }
}

/// The month after month `month` of `year`; `InvalidMonth` when `month` is
/// not between 1 and 12.
pub fn next_month(year: i32, month: u32) -> (r: Result<(i32, u32), CalendarError>)
    requires
        year < i32::MAX,
    ensures
        (1 <= month <= 12) <==> r is Ok,
        r is Ok ==> month_index(r->Ok_0.0 as int, r->Ok_0.1 as int) == month_index(
            year as int,
            month as int,
        ) + 1,
        r is Ok ==> 1 <= r->Ok_0.1 <= 12,
        r is Err ==> r->Err_0 == CalendarError::InvalidMonth,
{
    if month < 1 || month > 12 {
        Err(CalendarError::InvalidMonth)
    } else if month == 12 {
        Ok((year + 1, 1))
    } else {
        Ok((year, month + 1))
    }
}

proof fn lemma_index_parts(y: int, m: int)
    requires
        1 <= m <= 12,
    ensures
        index_year(month_index(y, m)) == y,
        index_month(month_index(y, m)) == m,
{
    assert((y * 12 + (m - 1)) / 12 == y && (y * 12 + (m - 1)) % 12 == m - 1) by {
        vstd::arithmetic::div_mod::lemma_fundamental_div_mod_converse(
            y * 12 + (m - 1),
            12,
            y,
            m - 1,
        );
    }
}

/// Counted days of a month of the given duration that come before day `day`.
fn counted_before_exec(duration: MonthDuration, day: u32) -> (r: u32)
    requires
        1 <= day,
    ensures
        r as int == counted_before(duration, day as int),
{
    match duration {
        MonthDuration::Full => day - 1,
        MonthDuration::StartOffset(d) => if day - 1 > d { day - 1 - d } else { 0 },
        MonthDuration::EndOffset(d) => if day - 1 < d { day - 1 } else { d },
    }
}

/// The months that the range touches, in order, without the grouping by year.
pub fn calendar_months(range: &DateRange, now: &Instant) -> (r: Result<Vec<CalendarMonth>, CalendarError>)
    requires
        range.fields_wf(),
        now.wf(),
    ensures
        r is Ok <==> range.wf(),
        r is Ok ==> r->Ok_0@ == calendar_model(*range, *now),
        r is Err ==> r->Err_0 == CalendarError::InvalidRange,
{
    range.check()?;
    let start = range.start;
    let end = range.end;
    proof {
        crate::date::lemma_millis_bounds(start);
        crate::date::lemma_millis_bounds(end);
        lemma_start_month_not_after_end(*range);
    }
    let start_idx: i64 = start.year as i64 * 12 + start.month as i64 - 1;
    let end_idx: i64 = end.year as i64 * 12 + end.month as i64 - 1;
    let now_idx: i64 = now.year as i64 * 12 + now.month as i64 - 1;
    let mut months: Vec<CalendarMonth> = Vec::new();
    let mut year: i32 = start.year;
    let mut month: u32 = start.month;
    let mut idx: i64 = start_idx;
    while idx <= end_idx
        invariant
            range.wf(),
            now.wf(),
            start == range.start,
            end == range.end,
            start_idx == start.month_index(),
            end_idx == end.month_index(),
            now_idx == now.month_index(),
            start_idx <= idx <= end_idx + 1,
            idx == month_index(year as int, month as int),
            1 <= month <= 12,
            year <= end.year + 1,
            year_in_range(start.year as int),
            year_in_range(end.year as int),
            months@ =~= calendar_model(*range, *now).take(idx - start_idx),
        decreases end_idx + 1 - idx,
    {
        proof {
            lemma_index_parts(year as int, month as int);
        }
        let duration = if idx == end_idx {
            MonthDuration::EndOffset(end.day)
        } else if idx == start_idx {
            MonthDuration::StartOffset(start.day)
        } else {
            MonthDuration::Full
        };
        let completion = if now_idx > idx {
            MonthCompletion::Completed
        } else if now_idx == idx {
            MonthCompletion::Partial(counted_before_exec(duration, now.day))
        } else {
            MonthCompletion::NotStarted
        };
        let entry = CalendarMonth { year, month, completion, duration };
        assert(entry == month_at(*range, *now, idx as int));
        months.push(entry);
        let next = next_month(year, month)?;
        year = next.0;
        month = next.1;
        idx = idx + 1;
    }
    assert(calendar_model(*range, *now).take(end_idx - start_idx + 1) =~= calendar_model(*range, *now));
    Ok(months)
}


/// Years of a sequence of months never decrease.
pub open spec fn years_ascending(months: Seq<CalendarMonth>) -> bool {
    forall|i: int, j: int| 0 <= i < j < months.len() ==> months[i].year <= months[j].year
}

proof fn lemma_flatten_push(years: Seq<CalendarYear>, y: CalendarYear)
    ensures
        flatten(years.push(y)) == flatten(years) + y.months@,
{
    assert(years.push(y).drop_last() =~= years);
}

/// Groups months, given in order of year, into one entry per year.
pub fn group_by_year(months: Vec<CalendarMonth>) -> (r: Vec<CalendarYear>)
    requires
        years_ascending(months@),
    ensures
        flatten(r@) == months@,
        grouped_by_year(r@),
{
    let mut years: Vec<CalendarYear> = Vec::new();
    let mut current: Vec<CalendarMonth> = Vec::new();
    let mut current_year: i32 = 0;
    let n = months.len();
    let mut i: usize = 0;
    while i < n
        invariant
            n == months@.len(),
            i <= n,
            years_ascending(months@),
            flatten(years@) + current@ =~= months@.take(i as int),
            grouped_by_year(years@),
            i > 0 ==> current@.len() > 0,
            i == 0 ==> current@.len() == 0 && years@.len() == 0,
            forall|j: int| 0 <= j < current@.len() ==> #[trigger] current@[j].year == current_year,
            forall|j: int| 0 <= j < years@.len() ==> #[trigger] years@[j].year < current_year,
            i > 0 ==> months@[i - 1].year == current_year,
        decreases n - i,
    {
        let m = months[i];
        if i > 0 && m.year != current_year {
            let finished = CalendarYear { year: current_year, months: current };
            proof {
                lemma_flatten_push(years@, finished);
            }
            years.push(finished);
            current = Vec::new();
        }
        current_year = m.year;
        current.push(m);
        assert(months@.take(i as int + 1) =~= months@.take(i as int).push(m));
        i = i + 1;
    }
    if n > 0 {
        let finished = CalendarYear { year: current_year, months: current };
        proof {
            lemma_flatten_push(years@, finished);
        }
        years.push(finished);
    }
    assert(months@.take(n as int) =~= months@);
    years
}

/// The calendar of the range as seen at `now`: one entry per year, each
/// holding its months in order. Fails with `InvalidRange` exactly when the
/// range's end is not after its start.
pub fn calendar(range: &DateRange, now: &Instant) -> (r: Result<Vec<CalendarYear>, CalendarError>)
    requires
        range.fields_wf(),
        now.wf(),
    ensures
        r is Ok <==> range.wf(),
        r is Ok ==> flatten(r->Ok_0@) == calendar_model(*range, *now),
        r is Ok ==> grouped_by_year(r->Ok_0@),
        r is Err ==> r->Err_0 == CalendarError::InvalidRange,
{
    let months = calendar_months(range, now)?;
    proof {
        assert forall|i: int, j: int| 0 <= i < j < months@.len() implies months@[i].year
            <= months@[j].year by {
            let si = range.start.month_index();
            let ei = range.end.month_index();
            lemma_start_month_not_after_end(*range);
            lemma_index_parts(range.start.year as int, range.start.month as int);
            lemma_index_parts(range.end.year as int, range.end.month as int);
            lemma_model_year_monotone(si, si + i);
            lemma_model_year_monotone(si + i, si + j);
            lemma_model_year_monotone(si + j, ei);
        }
    }
    Ok(group_by_year(months))
}

proof fn lemma_model_year_monotone(a: int, b: int)
    requires
        a <= b,
    ensures
        index_year(a) <= index_year(b),
{
    vstd::arithmetic::div_mod::lemma_div_is_ordered(a, b, 12);
}


/// Facts about one month of the model: it lies between the range's years,
/// its fields are the parts of its index, and it is well formed.
proof fn lemma_model_entry(range: DateRange, now: Instant, i: int)
    requires
        range.wf(),
        now.wf(),
        0 <= i < month_count(range),
    ensures
        ({
            let k = range.start.month_index() + i;
            let m = calendar_model(range, now)[i];
            &&& m == month_at(range, now, k)
            &&& m.year as int == index_year(k)
            &&& m.month as int == index_month(k)
            &&& month_index(m.year as int, m.month as int) == k
            &&& m.wf()
        }),
{
    let si = range.start.month_index();
    let ei = range.end.month_index();
    let k = si + i;
    lemma_start_month_not_after_end(range);
    lemma_index_parts(range.start.year as int, range.start.month as int);
    lemma_index_parts(range.end.year as int, range.end.month as int);
    lemma_index_parts(now.year as int, now.month as int);
    lemma_model_year_monotone(si, k);
    lemma_model_year_monotone(k, ei);
    vstd::arithmetic::div_mod::lemma_fundamental_div_mod(k, 12);
    let y = index_year(k);
    let mo = index_month(k);
    lemma_index_parts(y, mo);
    if k == now.month_index() {
        assert(now.year as int == y && now.month as int == mo);
    }
}

/// The calendar holds one month for each month from the start's to the
/// end's, both included: at least one.
pub proof fn lemma_month_count(range: DateRange, now: Instant)
    requires
        range.wf(),
        now.wf(),
    ensures
        calendar_model(range, now).len() == range.end.month_index() - range.start.month_index() + 1,
        calendar_model(range, now).len() >= 1,
{
    lemma_start_month_not_after_end(range);
}

/// Every month strictly between the first and the last is counted in full.
pub proof fn lemma_inner_months_full(range: DateRange, now: Instant)
    requires
        range.wf(),
        now.wf(),
    ensures
        forall|i: int|
            0 < i < calendar_model(range, now).len() - 1 ==> #[trigger] calendar_model(
                range,
                now,
            )[i].duration == MonthDuration::Full,
{
    lemma_start_month_not_after_end(range);
}

/// Only the first month has a start offset, and only when the range spans
/// more than one month; only the last month has an end offset (it keeps it
/// where start and end share a month).
pub proof fn lemma_offsets_at_ends(range: DateRange, now: Instant)
    requires
        range.wf(),
        now.wf(),
    ensures
        forall|i: int|
            0 <= i < calendar_model(range, now).len() ==> ((#[trigger] calendar_model(
                range,
                now,
            )[i].duration is StartOffset) <==> (i == 0 && calendar_model(range, now).len() > 1)),
        forall|i: int|
            0 <= i < calendar_model(range, now).len() ==> ((#[trigger] calendar_model(
                range,
                now,
            )[i].duration is EndOffset) <==> i == calendar_model(range, now).len() - 1),
        calendar_model(range, now)[0].duration == (if calendar_model(range, now).len() > 1 {
            MonthDuration::StartOffset(range.start.day)
        } else {
            MonthDuration::EndOffset(range.end.day)
        }),
        calendar_model(range, now).last().duration == MonthDuration::EndOffset(range.end.day),
{
    lemma_start_month_not_after_end(range);
}

/// Months before the current instant's month are completed, the month that
/// holds it is partial, and months after it have not started. So before the
/// start's month every month is not started, and after the end's month every
/// month is completed.
pub proof fn lemma_completion_follows_now(range: DateRange, now: Instant)
    requires
        range.wf(),
        now.wf(),
    ensures
        forall|i: int|
            0 <= i < calendar_model(range, now).len() ==> {
                let k = range.start.month_index() + i;
                let c = (#[trigger] calendar_model(range, now)[i]).completion;
                &&& k < now.month_index() ==> c == MonthCompletion::Completed
                &&& k == now.month_index() ==> c is Partial
                &&& k > now.month_index() ==> c == MonthCompletion::NotStarted
            },
        now.month_index() < range.start.month_index() ==> forall|i: int|
            0 <= i < calendar_model(range, now).len() ==> #[trigger] calendar_model(
                range,
                now,
            )[i].completion == MonthCompletion::NotStarted,
        now.month_index() > range.end.month_index() ==> forall|i: int|
            0 <= i < calendar_model(range, now).len() ==> #[trigger] calendar_model(
                range,
                now,
            )[i].completion == MonthCompletion::Completed,
        forall|i: int, j: int|
            0 <= i < calendar_model(range, now).len() && 0 <= j < calendar_model(range, now).len()
                && (#[trigger] calendar_model(range, now)[i]).completion is Partial && (
            #[trigger] calendar_model(range, now)[j]).completion is Partial ==> i == j,
{
    lemma_start_month_not_after_end(range);
}

/// In every month, elapsed and remaining counted days add up to the counted
/// days, and neither is negative.
pub proof fn lemma_days_add_up(range: DateRange, now: Instant)
    requires
        range.wf(),
        now.wf(),
    ensures
        forall|i: int|
            0 <= i < calendar_model(range, now).len() ==> {
                let m = #[trigger] calendar_model(range, now)[i];
                &&& m.wf()
                &&& 0 <= m.elapsed() <= m.counted()
                &&& 0 <= m.remaining()
                &&& m.elapsed() + m.remaining() == m.counted()
            },
{
    assert forall|i: int| 0 <= i < calendar_model(range, now).len() implies {
        let m = #[trigger] calendar_model(range, now)[i];
        &&& m.wf()
        &&& 0 <= m.elapsed() <= m.counted()
        &&& 0 <= m.remaining()
        &&& m.elapsed() + m.remaining() == m.counted()
    } by {
        lemma_start_month_not_after_end(range);
        lemma_model_entry(range, now, i);
    }
}


/// What the grid shows of one month: blank cells before the first counted
/// day, then the elapsed days, then the remaining ones.
#[derive(Clone, Copy, Debug, PartialEq, Eq, Structural)]
pub struct MonthLayout {
    pub leading_blanks: u32,
    pub elapsed_days: u32,
    pub remaining_days: u32,
}

/// Days that a start offset skips at the head of the month.
pub open spec fn skipped_days(duration: MonthDuration) -> int {
    match duration {
        MonthDuration::StartOffset(d) => d as int,
        _ => 0,
    }
}

/// Lays out a month of the grid; weeks start on Monday.
pub fn month_layout(m: &CalendarMonth) -> (r: MonthLayout)
    requires
        m.wf(),
    ensures
        r.leading_blanks as int == (weekday_from_monday(m.year as int, m.month as int, 1)
            + skipped_days(m.duration)) % 7,
        r.elapsed_days as int == m.elapsed(),
        r.remaining_days as int == m.remaining(),
{
    let offset = weekday_of(m.year, m.month, 1);
    let length = days_in_month(m.year, m.month);
    let (skip, counted) = match m.duration {
        MonthDuration::Full => (0, length),
        MonthDuration::StartOffset(d) => (d, length - d),
        MonthDuration::EndOffset(d) => (0, d),
    };
    let elapsed = match m.completion {
        MonthCompletion::Completed => counted,
        MonthCompletion::NotStarted => 0,
        MonthCompletion::Partial(d) => d,
    };
    MonthLayout {
        leading_blanks: (offset + skip) % 7,
        elapsed_days: elapsed,
        remaining_days: counted - elapsed,
    }
}

proof fn lemma_months_of_year(y: int)
    ensures
        days_before_month(y, 13) == 365 + (if is_leap_year(y) { 1int } else { 0 }),
{
    reveal_with_fuel(days_before_month, 13);
    assert(days_before_month(y, 3) == 59 + (if is_leap_year(y) { 1int } else { 0 }));
}

proof fn lemma_full_year(y: int)
    ensures
        days_before_month(y, 13) == 365 + (if is_leap_year(y) { 1int } else { 0 }),
        days_before_year(y + 1) == days_before_year(y) + days_before_month(y, 13),
{
    lemma_months_of_year(y);
    vstd::arithmetic::div_mod::lemma_fundamental_div_mod(y, 4);
    vstd::arithmetic::div_mod::lemma_fundamental_div_mod(y - 1, 4);
    vstd::arithmetic::div_mod::lemma_fundamental_div_mod(y, 100);
    vstd::arithmetic::div_mod::lemma_fundamental_div_mod(y - 1, 100);
    vstd::arithmetic::div_mod::lemma_fundamental_div_mod(y, 400);
    vstd::arithmetic::div_mod::lemma_fundamental_div_mod(y - 1, 400);
}

/// Day number of the first day of month `k`.
pub open spec fn first_day(k: int) -> int {
    day_number(index_year(k), index_month(k), 1)
}

proof fn lemma_first_day_step(k: int)
    ensures
        first_day(k + 1) == first_day(k) + month_length(index_year(k), index_month(k)),
{
    let y = index_year(k);
    let m = index_month(k);
    assert(k == month_index(y, m) && 1 <= m <= 12) by {
        vstd::arithmetic::div_mod::lemma_fundamental_div_mod(k, 12);
    }
    if m < 12 {
        lemma_index_parts(y, m + 1);
    } else {
        lemma_index_parts(y + 1, 1);
        lemma_full_year(y);
    }
}

proof fn lemma_first_day_monotone(i: int, j: int)
    requires
        i <= j,
    ensures
        first_day(i) <= first_day(j),
        i < j ==> first_day(i) + month_length(index_year(i), index_month(i)) <= first_day(j),
    decreases j - i,
{
    if i < j {
        lemma_first_day_monotone(i + 1, j);
        lemma_first_day_step(i);
    }
}

/// An instant of a later month is later: a valid range never ends in a month
/// before the one it starts in.
pub proof fn lemma_start_month_not_after_end(range: DateRange)
    requires
        range.wf(),
    ensures
        range.start.month_index() <= range.end.month_index(),
{
    let s = range.start;
    let e = range.end;
    let si = s.month_index();
    let ei = e.month_index();
    if ei < si {
        lemma_index_parts(s.year as int, s.month as int);
        lemma_index_parts(e.year as int, e.month as int);
        lemma_first_day_monotone(ei, si);
        assert(e.day_number() < s.day_number());
        let a = e.day_number();
        let b = s.day_number();
        assert(a * 86400000 + 86400000 <= b * 86400000) by (nonlinear_arith)
            requires
                a < b,
        ;
    }
}

} // verus!
