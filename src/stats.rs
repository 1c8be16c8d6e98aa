//! Progress through the range at a given instant: elapsed and remaining
//! time, day counts, and a countdown.
use vstd::prelude::*;
use crate::date::{CalendarError, DateRange, Duration, Instant, trunc_div};
use crate::text::{decimal, pad2, pad3, push_char, push_decimal, push_pad2, push_pad3};

verus! {

/// Progress through a range, as seen at one instant.
#[derive(Clone, Copy, Debug, PartialEq, Eq, Structural)]
pub struct Stats {
    /// The instant the figures are taken at.
    pub current: Instant,
    /// From the range's start to `current`; negative before the start.
    pub elapsed: Duration,
    /// From `current` to the range's end; negative past the end.
    pub remaining: Duration,
    /// From the range's start to its end.
    pub total: Duration,
    /// The day of the range that `current` falls on, the first being 1.
    pub day_index: i64,
    /// Whole days in the range.
    pub total_days: i64,
    /// Whole days left after the current one.
    pub days_left: i64,
}

/// `H:MM:SS.mmm` for a span of `ms` milliseconds, with hours unbounded and a
/// leading `-` when the span is negative.
pub open spec fn countdown_text(ms: int) -> Seq<char> {
    let a = if ms < 0 { -ms } else { ms };
    let sign = if ms < 0 { seq!['-'] } else { Seq::<char>::empty() };
    sign + decimal((a / 3600000) as nat) + seq![':'] + pad2(((a / 60000) % 60) as nat) + seq![':']
        + pad2(((a / 1000) % 60) as nat) + seq!['.'] + pad3((a % 1000) as nat)
}

impl Stats {
    /// These are the figures of `range` at `now`.
    pub open spec fn describes(&self, range: DateRange, now: Instant) -> bool {
        &&& self.current == now
        &&& self.total.millis == range.end.millis() - range.start.millis()
        &&& self.elapsed.millis == now.millis() - range.start.millis()
        &&& self.remaining.millis == self.total.millis - self.elapsed.millis
        &&& self.day_index == trunc_div(self.elapsed.millis as int, 86400000) + 1
        &&& self.total_days == trunc_div(self.total.millis as int, 86400000)
        &&& self.days_left == trunc_div(self.remaining.millis as int, 86400000) - 1
        &&& self.remaining.wf()
    }

    /// The progress figures at `now`; `InvalidRange` exactly when the range's
    /// end is not after its start.
    pub fn compute(range: &DateRange, now: &Instant) -> (r: Result<Stats, CalendarError>)
        requires
            range.fields_wf(),
            now.wf(),
        ensures
            r is Ok <==> range.wf(),
            r is Err ==> r->Err_0 == CalendarError::InvalidRange,
            r is Ok ==> r->Ok_0.describes(*range, *now),
    {
        range.check()?;
        let total = Duration::between(&range.start, &range.end);
        let elapsed = Duration::between(&range.start, now);
        let remaining = Duration::between(now, &range.end);
        let day_index = elapsed.whole_days() + 1;
        let total_days = total.whole_days();
        let days_left = remaining.whole_days() - 1;
        Ok(Stats { current: *now, elapsed, remaining, total, day_index, total_days, days_left })
    }

    /// The time remaining as `H:MM:SS.mmm`, with a leading `-` once the
    /// range has ended.
    pub fn countdown(&self) -> (r: String)
        requires
            self.remaining.wf(),
        ensures
            r@ == countdown_text(self.remaining.millis as int),
    {
        let ms = self.remaining.millis;
        let a: u64 = if ms < 0 { (-ms) as u64 } else { ms as u64 };
        let mut s = String::new();
        if ms < 0 {
            push_char(&mut s, '-');
        }
        push_decimal(&mut s, a / 3600000);
        push_char(&mut s, ':');
        push_pad2(&mut s, (a / 60000) % 60);
        push_char(&mut s, ':');
        push_pad2(&mut s, (a / 1000) % 60);
        push_char(&mut s, '.');
        push_pad3(&mut s, a % 1000);
        s
    }
}

/// English ordinal suffix shown after a day of the month, chosen by its
/// last digit.
pub open spec fn suffix_of(day: int) -> Seq<char> {
    if day % 10 == 1 {
        seq!['s', 't']
    } else if day % 10 == 2 {
        seq!['n', 'd']
    } else if day % 10 == 3 {
        seq!['r', 'd']
    } else {
        seq!['t', 'h']
    }
}

/// The ordinal suffix for a day of the month, by its last digit.
pub fn day_suffix(day: u32) -> (r: String)
    ensures
        r@ == suffix_of(day as int),
{
    let mut s = String::new();
    let last = day % 10;
    if last == 1 {
        push_char(&mut s, 's');
        push_char(&mut s, 't');
    } else if last == 2 {
        push_char(&mut s, 'n');
        push_char(&mut s, 'd');
    } else if last == 3 {
        push_char(&mut s, 'r');
        push_char(&mut s, 'd');
    } else {
        push_char(&mut s, 't');
        push_char(&mut s, 'h');
    }
    s
}

} // verus!
