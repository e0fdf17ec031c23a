//! Position grammar: latitude, longitude, the symbol pair, heading,
//! speed, and altitude.

use vstd::prelude::*;

use crate::parser::parse::ParseError;
use crate::parser::util::fixed_digits_ok;
use crate::parser::util::fixed_digits_value;
use crate::parser::util::hundredths_ok;
use crate::parser::util::hundredths_value;
use crate::parser::util::lemma_digits_value_bound;
use crate::parser::util::lemma_pow10_bounds;
use crate::parser::util::slash_num_ok;
use crate::parser::util::three_digit_number;
use crate::parser::util::three_digit_number_slash_terminated;
use crate::parser::util::two_digit_decimal;
use crate::parser::util::two_digit_number;
use crate::parser::util::six_digit_number;

verus! {

/// A compass hemisphere.
#[derive(Debug, PartialEq, Eq, Structural, Clone, Copy)]
pub enum ParsedDirection {
    North,
    East,
    South,
    West,
}

/// A coordinate in degree/minute/hundredths form.  The fraction is the
/// sub-minute part in hundredths of a minute, so it is always below one
/// whole minute.
#[derive(Debug, PartialEq, Eq, Structural, Clone, Copy)]
pub struct ParsedDegrees {
    pub degrees: u32,
    pub minutes: u32,
    pub seconds_hundredths: u8,
    pub direction: ParsedDirection,
}

/// The two mandatory position fields plus heading, ground speed and
/// altitude, all as read from their fixed-width fields.
#[derive(Debug, PartialEq, Eq, Structural, Clone, Copy)]
pub struct ParsedPosition {
    pub latitude: ParsedDegrees,
    pub longitude: ParsedDegrees,
    pub heading: u32,
    pub speed: u32,
    pub altitude: u32,
}

/// The two symbol bytes flanking the longitude.
pub type ParsedSymbol = (u8, u8);

impl ParsedDegrees {
    /// Field bounds that the fixed-width grammar guarantees.
    pub open spec fn wf(self) -> bool {
        self.degrees <= 999 && self.minutes <= 99 && self.seconds_hundredths < 100
    }
}

impl ParsedPosition {
    /// Field bounds that the fixed-width grammar guarantees.
    pub open spec fn wf(self) -> bool {
        self.latitude.wf() && self.longitude.wf() && self.heading <= 999 && self.speed <= 999
            && self.altitude <= 999999
    }
}

/// A latitude stands at `p`: two degree digits, two minute digits, the
/// hundredths fraction, and a hemisphere from `{'N', 'S'}`.
pub open spec fn lat_ok(s: Seq<u8>, p: int) -> bool {
    fixed_digits_ok(s, p, 2) && fixed_digits_ok(s, p + 2, 2) && hundredths_ok(s, p + 4) && p + 8
        <= s.len() && (s[p + 7] == 78 || s[p + 7] == 83)
}

/// The latitude the text at `p` denotes.
pub open spec fn spec_latitude(s: Seq<u8>, p: int) -> ParsedDegrees {
    ParsedDegrees {
        degrees: fixed_digits_value(s, p, 2) as u32,
        minutes: fixed_digits_value(s, p + 2, 2) as u32,
        seconds_hundredths: hundredths_value(s, p + 4) as u8,
        direction: if s[p + 7] == 78 {
            ParsedDirection::North
        } else {
            ParsedDirection::South
        },
    }
}

/// A longitude stands at `p`: three degree digits, two minute digits,
/// the hundredths fraction, and a hemisphere from `{'W', 'E'}`.
pub open spec fn lon_ok(s: Seq<u8>, p: int) -> bool {
    fixed_digits_ok(s, p, 3) && fixed_digits_ok(s, p + 3, 2) && hundredths_ok(s, p + 5) && p + 9
        <= s.len() && (s[p + 8] == 87 || s[p + 8] == 69)
}

/// The longitude the text at `p` denotes.
pub open spec fn spec_longitude(s: Seq<u8>, p: int) -> ParsedDegrees {
    ParsedDegrees {
        degrees: fixed_digits_value(s, p, 3) as u32,
        minutes: fixed_digits_value(s, p + 3, 2) as u32,
        seconds_hundredths: hundredths_value(s, p + 5) as u8,
        direction: if s[p + 8] == 87 {
            ParsedDirection::West
        } else {
            ParsedDirection::East
        },
    }
}

/// Reads a latitude; any hemisphere byte outside `{'N', 'S'}` fails.
pub fn parse_latitude(i: &[u8], pos: usize) -> (r: Option<(usize, ParsedDegrees)>)
    requires
        pos <= i@.len(),
    ensures
        lat_ok(i@, pos as int) ==> r == Some(((pos + 8) as usize, spec_latitude(i@, pos as int))),
        !lat_ok(i@, pos as int) ==> r is None,
        r matches Some((p, d)) ==> pos < p <= i@.len() && d.wf(),
{
    if i.len() - pos < 8 {
        return None;
    }
    let (p1, deg) = match two_digit_number(i, pos) {
        Some(x) => x,
        None => {
            return None;
        },
    };
    let (p2, min) = match two_digit_number(i, p1) {
        Some(x) => x,
        None => {
            return None;
        },
    };
    let (p3, cents) = match two_digit_decimal(i, p2) {
        Some(x) => x,
        None => {
            return None;
        },
    };
    if i[p3] == 78 || i[p3] == 83 {
        proof {
            lemma_pow10_bounds();
            lemma_digits_value_bound(i@.subrange(pos as int, pos + 2));
            lemma_digits_value_bound(i@.subrange(pos + 2, pos + 4));
        }
        let direction = if i[p3] == 78 {
            ParsedDirection::North
        } else {
            ParsedDirection::South
        };
        Some((p3 + 1, ParsedDegrees { degrees: deg, minutes: min, seconds_hundredths: cents, direction }))
    } else {
        None
    }
}

/// Reads a longitude; any hemisphere byte outside `{'W', 'E'}` fails.
pub fn parse_longitude(i: &[u8], pos: usize) -> (r: Option<(usize, ParsedDegrees)>)
    requires
        pos <= i@.len(),
    ensures
        lon_ok(i@, pos as int) ==> r == Some(((pos + 9) as usize, spec_longitude(i@, pos as int))),
        !lon_ok(i@, pos as int) ==> r is None,
        r matches Some((p, d)) ==> pos < p <= i@.len() && d.wf(),
{
    if i.len() - pos < 9 {
        return None;
    }
    let (p1, deg) = match three_digit_number(i, pos) {
        Some(x) => x,
        None => {
            return None;
        },
    };
    let (p2, min) = match two_digit_number(i, p1) {
        Some(x) => x,
        None => {
            return None;
        },
    };
    let (p3, cents) = match two_digit_decimal(i, p2) {
        Some(x) => x,
        None => {
            return None;
        },
    };
    if i[p3] == 87 || i[p3] == 69 {
        proof {
            lemma_pow10_bounds();
            lemma_digits_value_bound(i@.subrange(pos as int, pos + 3));
            lemma_digits_value_bound(i@.subrange(pos + 3, pos + 5));
        }
        let direction = if i[p3] == 87 {
            ParsedDirection::West
        } else {
            ParsedDirection::East
        };
        Some((p3 + 1, ParsedDegrees { degrees: deg, minutes: min, seconds_hundredths: cents, direction }))
    } else {
        None
    }
}

/// End of the run of escape bytes (`\`) starting at `p`.
pub open spec fn esc_end(s: Seq<u8>, p: int) -> int
    decreases s.len() - p,
{
    if 0 <= p < s.len() && s[p] == 92 {
        esc_end(s, p + 1)
    } else {
        p
    }
}

pub proof fn lemma_esc_end_bounds(s: Seq<u8>, p: int)
    requires
        0 <= p <= s.len(),
    ensures
        p <= esc_end(s, p) <= s.len(),
    decreases s.len() - p,
{
    if p < s.len() && s[p] == 92 {
        lemma_esc_end_bounds(s, p + 1);
    }
}

/// Skips the run of stray escape bytes at `pos`.
#[verifier::loop_isolation(false)]
fn skip_escapes(i: &[u8], pos: usize) -> (r: usize)
    requires
        pos <= i@.len(),
    ensures
        r == esc_end(i@, pos as int),
        pos <= r <= i@.len(),
{
    proof {
        lemma_esc_end_bounds(i@, pos as int);
    }
    let mut k: usize = pos;
    while k < i.len() && i[k] == 92
        invariant
            pos <= k <= i@.len(),
            esc_end(i@, pos as int) == esc_end(i@, k as int),
        decreases i@.len() - k,
    {
        k = k + 1;
    }
    k
}

/// An altitude field stands at `q`: the literal `A=` and six digits.
pub open spec fn alt_ok(s: Seq<u8>, q: int) -> bool {
    0 <= q && q + 2 <= s.len() && s[q] == 65 && s[q + 1] == 61 && fixed_digits_ok(s, q + 2, 6)
}

/// What reading the position block at `p` yields: the cursor past the
/// altitude plus the position and symbol pair, or the first failure.
/// Latitude, longitude, heading, speed and altitude failures are
/// position errors; a missing symbol byte is a symbol error; each error
/// carries the offset of the field that failed.
pub open spec fn position_and_type_outcome(s: Seq<u8>, p: int) -> Result<
    (usize, (ParsedPosition, ParsedSymbol)),
    ParseError,
> {
    if !lat_ok(s, p) {
        Err(ParseError::MalformedPosition(p as usize))
    } else if p + 9 > s.len() {
        Err(ParseError::MalformedSymbol((p + 8) as usize))
    } else {
        let q1 = esc_end(s, p + 9);
        if !lon_ok(s, q1) {
            Err(ParseError::MalformedPosition(q1 as usize))
        } else {
            let q2 = esc_end(s, q1 + 9);
            if q2 >= s.len() {
                Err(ParseError::MalformedSymbol(q2 as usize))
            } else if !slash_num_ok(s, q2 + 1) {
                Err(ParseError::MalformedPosition((q2 + 1) as usize))
            } else if !slash_num_ok(s, q2 + 5) {
                Err(ParseError::MalformedPosition((q2 + 5) as usize))
            } else if !alt_ok(s, q2 + 9) {
                Err(ParseError::MalformedPosition((q2 + 9) as usize))
            } else {
                Ok(
                    (
                        (q2 + 17) as usize,
                        (
                            ParsedPosition {
                                latitude: spec_latitude(s, p),
                                longitude: spec_longitude(s, q1),
                                heading: fixed_digits_value(s, q2 + 1, 3) as u32,
                                speed: fixed_digits_value(s, q2 + 5, 3) as u32,
                                altitude: fixed_digits_value(s, q2 + 11, 6) as u32,
                            },
                            (s[p + 8], s[q2]),
                        ),
                    ),
                )
            }
        }
    }
}

/// Reads the whole position block: latitude, first symbol byte, stray
/// escapes, longitude, stray escapes, second symbol byte, heading and
/// speed (each `/`-terminated), and the `A=`-prefixed altitude.
pub fn parse_position_and_type(i: &[u8], pos: usize) -> (r: Result<
    (usize, (ParsedPosition, ParsedSymbol)),
    ParseError,
>)
    requires
        pos <= i@.len(),
    ensures
        r == position_and_type_outcome(i@, pos as int),
        r matches Ok((p, x)) ==> pos < p <= i@.len() && x.0.wf(),
{
    proof {
        lemma_pow10_bounds();
    }
    let n = i.len();
    let (p1, lat) = match parse_latitude(i, pos) {
        Some(x) => x,
        None => {
            return Err(ParseError::MalformedPosition(pos));
        },
    };
    if p1 >= n {
        return Err(ParseError::MalformedSymbol(p1));
    }
    let sym1 = i[p1];
    let q1 = skip_escapes(i, p1 + 1);
    let (p2, lon) = match parse_longitude(i, q1) {
        Some(x) => x,
        None => {
            return Err(ParseError::MalformedPosition(q1));
        },
    };
    let q2 = skip_escapes(i, p2);
    if q2 >= n {
        return Err(ParseError::MalformedSymbol(q2));
    }
    let sym2 = i[q2];
    let (p3, heading) = match three_digit_number_slash_terminated(i, q2 + 1) {
        Some(x) => x,
        None => {
            return Err(ParseError::MalformedPosition(q2 + 1));
        },
    };
    let (p4, speed) = match three_digit_number_slash_terminated(i, p3) {
        Some(x) => x,
        None => {
            return Err(ParseError::MalformedPosition(p3));
        },
    };
    if n - p4 < 2 || i[p4] != 65 || i[p4 + 1] != 61 {
        return Err(ParseError::MalformedPosition(p4));
    }
    let (p5, altitude) = match six_digit_number(i, p4 + 2) {
        Some(x) => x,
        None => {
            return Err(ParseError::MalformedPosition(p4));
        },
    };
    proof {
        lemma_digits_value_bound(i@.subrange(q2 + 1, q2 + 4));
        lemma_digits_value_bound(i@.subrange(q2 + 5, q2 + 8));
        lemma_digits_value_bound(i@.subrange(q2 + 11, q2 + 17));
    }
    Ok(
        (
            p5,
            (
                ParsedPosition {
                    latitude: lat,
                    longitude: lon,
                    heading,
                    speed,
                    altitude,
                },
                (sym1, sym2),
            ),
        ),
    )
}

} // verus!
