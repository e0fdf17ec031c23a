//! The domain normalizer's arithmetic: coordinate, altitude, speed and
//! rate conversions as exact scaled integers, and timestamp resolution
//! against a reference date.
//!
//! No value here is floating point.  Each quantity carries a fixed
//! denominator: coordinates are numerators over `DEGREES_SCALE`,
//! lengths are micrometres, speeds micrometres per second, turn rates
//! microradians per second.

use vstd::prelude::*;

use vstd::arithmetic::div_mod::lemma_fundamental_div_mod;

use crate::parser::position::ParsedDegrees;
use crate::parser::position::ParsedDirection;
use crate::parser::time::ParsedTime;
use crate::parser::util::pow10;
use crate::parser::util::pow10_u64;
use crate::parser::util::Decimal;
use crate::parser::util::DECIMAL_MANTISSA_LIMIT;

verus! {

/// Denominator of decimal-degree numerators: a coordinate's value in
/// degrees is its numerator divided by this.
pub const DEGREES_SCALE: i64 = 3600000;

/// Micrometres in one foot: 0.3048 m exactly.
pub const FOOT_MICRO_M: u64 = 304800;

/// Micrometres per second gained per foot-per-minute: 0.3048/60 m/s
/// exactly.
pub const FPM_MICRO_M_S: i64 = 5080;

/// The circle constant times ten to the twelfth, rounded to the
/// nearest integer.
pub const PI_E12: u64 = 3141592653590;

/// The degree-numerator a coordinate denotes once `extra` thousandths
/// of a minute of sub-hundredth precision are merged in: degrees plus
/// minutes over sixty plus fractional minutes over thirty-six hundred,
/// negated for south and west, all over `DEGREES_SCALE`.
pub open spec fn degrees_num_with_extra(d: ParsedDegrees, extra: int) -> int {
    let mag = d.degrees * 3600000 + d.minutes * 60000 + d.seconds_hundredths * 10 + extra;
    if d.direction is South || d.direction is West {
        -mag
    } else {
        mag
    }
}

/// The degree-numerator of a coordinate as parsed, with no extra
/// precision.
pub open spec fn spec_degrees_num(d: ParsedDegrees) -> int {
    degrees_num_with_extra(d, 0)
}

/// Converts degree/minute/hundredths form to a decimal-degree
/// numerator over `DEGREES_SCALE`: north and east positive, south and
/// west negative.
pub fn parsed_degrees_to_decimal(parsed: &ParsedDegrees) -> (r: i64)
    requires
        parsed.wf(),
    ensures
        r == spec_degrees_num(*parsed),
        -3699590 * 1000 <= r <= 3699590 * 1000,
{
    let mag: i64 = parsed.degrees as i64 * 3600000 + parsed.minutes as i64 * 60000
        + parsed.seconds_hundredths as i64 * 10;
    match parsed.direction {
        ParsedDirection::South => -mag,
        ParsedDirection::West => -mag,
        ParsedDirection::North => mag,
        ParsedDirection::East => mag,
    }
}

/// Conversion to decimal degrees is sign-correct: for one magnitude,
/// a north or east reading and a south or west reading convert to
/// exact opposites, the first nonnegative.
pub proof fn lemma_degrees_to_decimal_sign_correct(a: ParsedDegrees, b: ParsedDegrees, extra: int)
    requires
        a.degrees == b.degrees,
        a.minutes == b.minutes,
        a.seconds_hundredths == b.seconds_hundredths,
        a.direction is North || a.direction is East,
        b.direction is South || b.direction is West,
        extra >= 0,
    ensures
        degrees_num_with_extra(a, extra) >= 0,
        degrees_num_with_extra(b, extra) == -degrees_num_with_extra(a, extra),
{
}

/// Converts feet to micrometres, exactly.
pub fn feet_to_m(feet: u32) -> (r: u64)
    ensures
        r == feet * FOOT_MICRO_M,
{
    feet as u64 * FOOT_MICRO_M
}

/// Converts feet per minute to micrometres per second, exactly.
pub fn fpm_to_m_s(fpm: i64) -> (r: i64)
    requires
        -1000000000000 < fpm < 1000000000000,
    ensures
        r == fpm * FPM_MICRO_M_S,
{
    fpm * FPM_MICRO_M_S
}

/// The knots conversion: micrometres per second, rounded to nearest.
pub open spec fn spec_knots_micro_m_s(knots: u32) -> int {
    (knots * 463000000 + 450) / 900
}

/// Converts knots to micrometres per second: 463/900 m/s per knot,
/// rounded to the nearest micrometre per second.
pub fn knots_to_m_s(knots: u32) -> (r: u64)
    ensures
        r == spec_knots_micro_m_s(knots),
{
    (knots as u64 * 463000000 + 450) / 900
}

/// The knots conversion is the fixed 463/900 multiplier to within half
/// a micrometre per second: 900 times the result stays within 450 of
/// the exact product.
pub proof fn lemma_knots_conversion_tight(knots: u32)
    ensures
        -450 < 900 * spec_knots_micro_m_s(knots) - knots * 463000000 <= 450,
{
    lemma_fundamental_div_mod(knots * 463000000 + 450, 900);
}

/// The turn-rate conversion: microradians per second, rounded to
/// nearest, of a half-turns-per-minute reading.
pub open spec fn spec_turn_micro_rad_s(turn: Decimal) -> int {
    let num: int = turn.mantissa * PI_E12;
    let den: int = 6 * (pow10((7 + turn.scale) as nat) as int);
    let mag: int = (num + den / 2) / den;
    if turn.neg {
        -mag
    } else {
        mag
    }
}

/// Converts half-turns per minute to microradians per second: the
/// value times the circle constant over sixty, carried out against
/// `PI_E12` and rounded to the nearest microradian per second.
pub fn turn_rate_to_rad_s(turn: &Decimal) -> (r: i64)
    requires
        turn.wf(),
    ensures
        r == spec_turn_micro_rad_s(*turn),
{
    proof {
        crate::parser::util::lemma_pow10_bounds();
    }
    let p = pow10_u64(7 + turn.scale);
    let num: u128 = turn.mantissa as u128 * PI_E12 as u128;
    let den: u128 = 6u128 * p as u128;
    let mag128: u128 = (num + den / 2) / den;
    proof {
        let x: int = (num + den / 2) as int;
        let d: int = den as int;
        assert(d >= 60000000);
        lemma_fundamental_div_mod(x, d);
        vstd::arithmetic::div_mod::lemma_mod_division_less_than_divisor(x, d);
        assert(mag128 == x / d);
        assert(d * (x / d) <= x);
        assert(mag128 * 60000000 <= mag128 * den) by (nonlinear_arith)
            requires
                den >= 60000000,
                mag128 >= 0,
        ;
        assert(mag128 * den == d * (x / d)) by (nonlinear_arith)
            requires
                mag128 == x / d,
                d == den,
        ;
        assert(num < 1000000000000u128 * 3141592653590u128);
    }
    let mag = mag128 as i64;
    if turn.neg {
        -mag
    } else {
        mag
    }
}

/// The turn-rate conversion is the fixed `PI_E12`-over-sixty
/// multiplier to within half a microradian per second: the scaled
/// result stays within half a denominator of the exact product.
pub proof fn lemma_turn_conversion_tight(turn: Decimal)
    requires
        turn.wf(),
        !turn.neg,
    ensures
        ({
            let den: int = 6 * (pow10((7 + turn.scale) as nat) as int);
            let exact: int = turn.mantissa * PI_E12;
            -(den / 2) <= den * spec_turn_micro_rad_s(turn) - exact <= den / 2
        }),
{
    crate::parser::util::lemma_pow10_bounds();
    let den: int = 6 * (pow10((7 + turn.scale) as nat) as int);
    let exact: int = turn.mantissa * PI_E12;
    lemma_fundamental_div_mod(exact + den / 2, den);
    vstd::arithmetic::div_mod::lemma_mod_division_less_than_divisor(exact + den / 2, den);
}

/// A reference civil date, UTC.
#[derive(Debug, PartialEq, Eq, Structural, Clone, Copy)]
pub struct UtcDate {
    pub year: i32,
    pub month: u32,
    pub day: u32,
}

/// A year of the Gregorian calendar has an extra day in February.
pub open spec fn is_leap_year(y: int) -> bool {
    y % 4 == 0 && (y % 100 != 0 || y % 400 == 0)
}

/// Days in a month of the Gregorian calendar.
pub open spec fn days_in_month(y: int, m: int) -> int {
    if m == 2 {
        if is_leap_year(y) {
            29
        } else {
            28
        }
    } else if m == 4 || m == 6 || m == 9 || m == 11 {
        30
    } else {
        31
    }
}

impl UtcDate {
    /// The date names a real day of the calendar.
    pub open spec fn wf(self) -> bool {
        1 <= self.month <= 12 && 1 <= self.day <= days_in_month(
            self.year as int,
            self.month as int,
        )
    }
}

/// An absolute timestamp: a civil date and a time of day, UTC.
#[derive(Debug, PartialEq, Eq, Structural, Clone, Copy)]
pub struct UtcTimestamp {
    pub year: i32,
    pub month: u32,
    pub day: u32,
    pub hour: u32,
    pub minute: u32,
    pub second: u32,
}

impl UtcTimestamp {
    /// The timestamp names a real day and a real time of day.
    pub open spec fn wf(self) -> bool {
        1 <= self.month <= 12 && 1 <= self.day <= days_in_month(
            self.year as int,
            self.month as int,
        ) && self.hour <= 23 && self.minute <= 59 && self.second <= 59
    }
}

/// Relies on chrono's `Utc::now` read through `Datelike`: the current
/// civil date in UTC.  chrono only hands out calendar-valid month and
/// day fields, whatever the clock says.
#[verifier::external_body]
fn current_utc_date() -> (r: UtcDate)
    ensures
        1 <= r.month <= 12,
        1 <= r.day <= days_in_month(r.year as int, r.month as int),
{
    let now = chrono::Utc::now();
    UtcDate {
        year: chrono::Datelike::year(&now),
        month: chrono::Datelike::month(&now),
        day: chrono::Datelike::day(&now),
    }
}

/// Resolves a parsed time of day against a reference date, or against
/// the current UTC date when none is supplied.  A message timed just
/// before midnight but resolved just after it lands on the wrong day;
/// that limitation is accepted, not corrected.
pub fn parsed_time_to_datetime(parsed_time: &ParsedTime, date: Option<UtcDate>) -> (r:
    UtcTimestamp)
    requires
        parsed_time.elements.0 <= 23,
        parsed_time.elements.1 <= 59,
        parsed_time.elements.2 <= 59,
        date matches Some(d) ==> d.wf(),
    ensures
        r.hour == parsed_time.elements.0,
        r.minute == parsed_time.elements.1,
        r.second == parsed_time.elements.2,
        match date {
            Some(d) => r.year == d.year && r.month == d.month && r.day == d.day,
            None => true,
        },
        r.wf(),
{
    let d = match date {
        Some(d) => d,
        None => current_utc_date(),
    };
    UtcTimestamp {
        year: d.year,
        month: d.month,
        day: d.day,
        hour: parsed_time.elements.0,
        minute: parsed_time.elements.1,
        second: parsed_time.elements.2,
    }
}

/// Days from the start of 1970 to the start of year `y`.
pub open spec fn days_before_year(y: int) -> int
    decreases y - 1970,
    when y >= 1970
{
    if y <= 1970 {
        0
    } else {
        days_before_year(y - 1) + if is_leap_year(y - 1) {
            366int
        } else {
            365int
        }
    }
}

/// Days from the start of year `y` to the start of its month `m`.
pub open spec fn days_before_month(y: int, m: int) -> int
    decreases m,
    when m >= 1
{
    if m <= 1 {
        0
    } else {
        days_before_month(y, m - 1) + days_in_month(y, m - 1)
    }
}

/// The timestamp as seconds since the start of 1970, UTC.
pub open spec fn spec_unix_seconds(t: UtcTimestamp) -> int {
    (days_before_year(t.year as int) + days_before_month(t.year as int, t.month as int) + t.day
        - 1) * 86400 + t.hour * 3600 + t.minute * 60 + t.second
}

/// Whether the year has an extra day.
fn is_leap_year_exec(y: i32) -> (r: bool)
    requires
        y >= 0,
    ensures
        r == is_leap_year(y as int),
{
    y % 4 == 0 && (y % 100 != 0 || y % 400 == 0)
}

/// Days in a month, executable.
fn days_in_month_exec(y: i32, m: u32) -> (r: u32)
    requires
        y >= 0,
    ensures
        r == days_in_month(y as int, m as int),
{
    if m == 2 {
        if is_leap_year_exec(y) {
            29
        } else {
            28
        }
    } else if m == 4 || m == 6 || m == 9 || m == 11 {
        30
    } else {
        31
    }
}

impl UtcTimestamp {
    /// Seconds since the start of 1970, UTC: whole days before the
    /// timestamp's day times 86400, plus the time of day.
    #[verifier::loop_isolation(false)]
    pub fn unix_seconds(&self) -> (r: i64)
        requires
            self.wf(),
            1970 <= self.year <= 9999,
        ensures
            r == spec_unix_seconds(*self),
    {
        let mut y: i32 = 1970;
        let mut days: i64 = 0;
        while y < self.year
            invariant
                1970 <= y <= self.year,
                days == days_before_year(y as int),
                0 <= days <= (y - 1970) * 366,
            decreases self.year - y,
        {
            proof {
                assert(days_before_year(y + 1) == days_before_year(y as int) + if is_leap_year(
                    y as int,
                ) {
                    366int
                } else {
                    365int
                });
            }
            days = days + if is_leap_year_exec(y) {
                366
            } else {
                365
            };
            y = y + 1;
        }
        let mut m: u32 = 1;
        while m < self.month
            invariant
                1 <= m <= self.month,
                days == days_before_year(self.year as int) + days_before_month(
                    self.year as int,
                    m as int,
                ),
                0 <= days <= (self.year - 1970) * 366 + (m - 1) * 31,
            decreases self.month - m,
        {
            days = days + days_in_month_exec(self.year, m) as i64;
            m = m + 1;
        }
        days = days + self.day as i64 - 1;
        assert(0 <= days < 3000000);
        days * 86400 + self.hour as i64 * 3600 + self.minute as i64 * 60 + self.second as i64
    }
}

} // verus!
