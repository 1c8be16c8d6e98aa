//! A colour for each calendar day, drawn from a generator seeded by the date.
use vstd::prelude::*;
use crate::date::Instant;
use crate::text::{digit, digit_char, push_char};

verus! {

#[derive(Clone, Copy, Debug, PartialEq, Eq, Structural)]
pub struct Color {
    pub red: u8,
    pub green: u8,
    pub blue: u8,
}

/// Three bytes drawn, in order, from rand's `StdRng` seeded with `seed`.
pub uninterp spec fn seeded_rgb(seed: u64) -> (u8, u8, u8);

/// Relies on rand's `SeedableRng::seed_from_u64` for `StdRng` and on
/// `Rng::random::<u8>`: the generator is deterministic, so the three bytes
/// depend on the seed alone.
#[verifier::external_body]
fn draw_rgb(seed: u64) -> (r: (u8, u8, u8))
    ensures
        r == seeded_rgb(seed),
{
    let mut rng = <rand::rngs::StdRng as rand::SeedableRng>::seed_from_u64(seed);
    let red = rand::Rng::random::<u8>(&mut rng);
    let green = rand::Rng::random::<u8>(&mut rng);
    let blue = rand::Rng::random::<u8>(&mut rng);
    (red, green, blue)
}

/// `year * 10000 + month * 100 + day`, as a 64-bit word (two's complement
/// for years before year 0).
pub open spec fn seed_value(year: int, month: int, day: int) -> int {
    let v = year * 10000 + month * 100 + day;
    if v >= 0 {
        v
    } else {
        v + 0x1_0000_0000_0000_0000
    }
}

pub open spec fn date_seed(date: Instant) -> u64 {
    seed_value(date.year as int, date.month as int, date.day as int) as u64
}

/// The seed of a date; the time of day plays no part.
pub fn seed_of(date: &Instant) -> (r: u64)
    requires
        date.wf(),
    ensures
        r == date_seed(*date),
{
    let v: i64 = date.year as i64 * 10000 + date.month as i64 * 100 + date.day as i64;
    if v >= 0 {
        v as u64
    } else {
        let magnitude: u64 = (-v) as u64;
        (u64::MAX - magnitude) + 1
    }
}

/// The colour of the date's day.
pub fn color_for(date: &Instant) -> (r: Color)
    requires
        date.wf(),
    ensures
        (r.red, r.green, r.blue) == seeded_rgb(date_seed(*date)),
{
    let (red, green, blue) = draw_rgb(seed_of(date));
    Color { red, green, blue }
}

/// `#RRGGBB` in upper-case hexadecimal.
pub open spec fn hex_text(c: Color) -> Seq<char> {
    seq![
        '#',
        digit_char(c.red as int / 16),
        digit_char(c.red as int % 16),
        digit_char(c.green as int / 16),
        digit_char(c.green as int % 16),
        digit_char(c.blue as int / 16),
        digit_char(c.blue as int % 16),
    ]
}

impl Color {
    /// The colour as `#RRGGBB`.
    pub fn to_hex(&self) -> (r: String)
        ensures
            r@ == hex_text(*self),
    {
        let mut s = String::new();
        push_char(&mut s, '#');
        push_char(&mut s, digit(self.red as u64 / 16));
        push_char(&mut s, digit(self.red as u64 % 16));
        push_char(&mut s, digit(self.green as u64 / 16));
        push_char(&mut s, digit(self.green as u64 % 16));
        push_char(&mut s, digit(self.blue as u64 / 16));
        push_char(&mut s, digit(self.blue as u64 % 16));
        assert(s@ =~= hex_text(*self));
        s
    }
}

/// The colour of the date's day as `#RRGGBB`.
pub fn day_color(date: &Instant) -> (r: String)
    requires
        date.wf(),
    ensures
        ({
            let (red, green, blue) = seeded_rgb(date_seed(*date));
            r@ == hex_text(Color { red, green, blue })
        }),
{
    color_for(date).to_hex()
}

/// A date's colour depends on its day alone: two instants of the same day
/// get the same seed, hence the same colour, and instants of different days
/// get different seeds.
pub proof fn lemma_seed_identifies_day(a: Instant, b: Instant)
    requires
        a.wf(),
        b.wf(),
    ensures
        (date_seed(a) == date_seed(b)) <==> (a.year == b.year && a.month == b.month && a.day
            == b.day),
        (a.year == b.year && a.month == b.month && a.day == b.day) ==> seeded_rgb(date_seed(a))
            == seeded_rgb(date_seed(b)),
{
    let va = a.year * 10000 + a.month * 100 + a.day;
    let vb = b.year * 10000 + b.month * 100 + b.day;
    if va == vb {
        assert(a.year == b.year) by (nonlinear_arith)
            requires
                va == a.year * 10000 + a.month * 100 + a.day,
                vb == b.year * 10000 + b.month * 100 + b.day,
                va == vb,
                1 <= a.month <= 12,
                1 <= b.month <= 12,
                1 <= a.day <= 31,
                1 <= b.day <= 31,
        ;
    }
}

} // verus!
