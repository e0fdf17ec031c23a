//! Extension grammar: the unordered, whitespace-separated tail of
//! optional tagged fields after the position block.
//!
//! The tail is consumed token by token.  Each whitespace-delimited token
//! is held against the known shapes in a fixed priority order; the first
//! shape that matches the whole token decodes it, and a token no shape
//! matches is recorded verbatim as "unknown" rather than rejected, so
//! the stage as a whole never fails.

use vstd::prelude::*;

use crate::parser::util::all_digits;
use crate::parser::util::dec_digits;
use crate::parser::util::dec_end;
use crate::parser::util::dec_fits;
use crate::parser::util::dec_has_frac;
use crate::parser::util::dec_int_end;
use crate::parser::util::dec_matches;
use crate::parser::util::dec_neg;
use crate::parser::util::dec_scale;
use crate::parser::util::dec_sign_len;
use crate::parser::util::dec_value;
use crate::parser::util::digit_run_end;
use crate::parser::util::digit_val;
use crate::parser::util::digits_value;
use crate::parser::util::find_token_end;
use crate::parser::util::is_digit;
use crate::parser::util::lemma_digit_run_end_bounds;
use crate::parser::util::n_digit_number;
use crate::parser::util::skip_multispace;
use crate::parser::util::token_end;
use crate::parser::util::ws_end;
use crate::parser::util::Decimal;
use crate::util::bytes_as_chars;
use crate::util::bytes_to_string;

verus! {

/// Sub-hundredth position precision: one extra fractional-minute digit
/// for latitude and one for longitude, each in thousandths of a minute.
#[derive(Debug, PartialEq, Eq, Structural, Clone, Copy)]
pub struct ParsedPositionPrecision {
    pub latitude: u8,
    pub longitude: u8,
}

/// Aircraft metadata: the packed metadata byte and the six-character
/// identifier that follows it.
#[derive(Debug, PartialEq, Eq, Clone)]
pub struct ParsedAircraftID {
    pub meta: u8,
    pub id: String,
}

/// GPS resolution: the horizontal/vertical meters-class pair.
#[derive(Debug, PartialEq, Eq, Structural, Clone, Copy)]
pub struct ParsedGPSResolution {
    pub horizontal: u32,
    pub vertical: u32,
}

/// The decoded extension tail: every known field independently optional,
/// plus the unmatched tokens in input order.
#[derive(Debug, PartialEq, Clone)]
pub struct ParsedExtensions {
    pub position_precision: Option<ParsedPositionPrecision>,
    pub aircraft_id: Option<ParsedAircraftID>,
    pub altitude_rate: Option<i64>,
    pub rotation_rate: Option<Decimal>,
    pub reception: Option<Decimal>,
    pub bit_errors: Option<u32>,
    pub frequency_offset: Option<Decimal>,
    pub gps_resolution: Option<ParsedGPSResolution>,
    pub unknown: Vec<String>,
}

/// Which shape a token has, named by the field it decodes into.
#[derive(Debug, PartialEq, Eq, Structural, Clone, Copy)]
pub enum ExtKind {
    Precision,
    AircraftId,
    AltitudeRate,
    RotationRate,
    Reception,
    BitErrors,
    FrequencyOffset,
    GpsResolution,
    Unknown,
}

/// A hexadecimal digit byte.
pub open spec fn is_hex_digit(b: u8) -> bool {
    (48 <= b && b <= 57) || (97 <= b && b <= 102) || (65 <= b && b <= 70)
}

/// The value of one hexadecimal digit byte.
pub open spec fn hex_val(b: u8) -> nat {
    if 48 <= b && b <= 57 {
        (b - 48) as nat
    } else if 97 <= b && b <= 102 {
        (b - 87) as nat
    } else {
        (b - 55) as nat
    }
}

/// The token is a position-precision field: `!W`, two digits, `!`.
pub open spec fn prec_token_ok(t: Seq<u8>) -> bool {
    t.len() == 5 && t[0] == 33 && t[1] == 87 && is_digit(t[2]) && is_digit(t[3]) && t[4] == 33
}

/// The precision pair a precision token denotes.
pub open spec fn prec_token_value(t: Seq<u8>) -> ParsedPositionPrecision {
    ParsedPositionPrecision { latitude: digit_val(t[2]) as u8, longitude: digit_val(t[3]) as u8 }
}

/// The token is an aircraft-metadata field: `id`, two hex digits, six
/// further bytes.
pub open spec fn id_token_ok(t: Seq<u8>) -> bool {
    t.len() == 10 && t[0] == 105 && t[1] == 100 && is_hex_digit(t[2]) && is_hex_digit(t[3])
}

/// The metadata byte an aircraft-metadata token denotes.
pub open spec fn id_token_meta(t: Seq<u8>) -> u8 {
    (hex_val(t[2]) * 16 + hex_val(t[3])) as u8
}

/// The six identifier bytes of an aircraft-metadata token.
pub open spec fn id_token_bytes(t: Seq<u8>) -> Seq<u8> {
    t.subrange(4, 10)
}

/// The token ends in the given suffix, with a whole in-bounds signed
/// decimal before it.
pub open spec fn dec_suffix_token_ok(t: Seq<u8>, suffix: Seq<u8>) -> bool {
    t.len() > suffix.len() && t.subrange(t.len() - suffix.len(), t.len() as int) == suffix
        && dec_matches(t, 0) && dec_fits(t, 0) && dec_end(t, 0) == t.len() - suffix.len()
}

/// The token is a vertical-rate field: a signed decimal and `fpm`.
pub open spec fn rate_token_ok(t: Seq<u8>) -> bool {
    dec_suffix_token_ok(t, seq![102u8, 112u8, 109u8])
}

/// The vertical rate a rate token denotes, rounded to whole feet/minute.
pub open spec fn rate_token_value(t: Seq<u8>) -> i64 {
    dec_value(t, 0).spec_round() as i64
}

/// The token is a turn-rate field: a signed decimal and `rot`.
pub open spec fn rot_token_ok(t: Seq<u8>) -> bool {
    dec_suffix_token_ok(t, seq![114u8, 111u8, 116u8])
}

/// The token is a signal-strength field: a signed decimal and `dB`.
pub open spec fn reception_token_ok(t: Seq<u8>) -> bool {
    dec_suffix_token_ok(t, seq![100u8, 66u8])
}

/// The token is a frequency-offset field: a signed decimal and `kHz`.
pub open spec fn freq_token_ok(t: Seq<u8>) -> bool {
    dec_suffix_token_ok(t, seq![107u8, 72u8, 122u8])
}

/// The decimal a decimal-suffixed token carries.
pub open spec fn dec_token_value(t: Seq<u8>) -> Decimal {
    dec_value(t, 0)
}

/// The token is a bit-error count: digits and a final `e`.
pub open spec fn errors_token_ok(t: Seq<u8>) -> bool {
    t.len() >= 2 && t.last() == 101 && all_digits(t.subrange(0, t.len() - 1)) && digits_value(
        t.subrange(0, t.len() - 1),
    ) <= u32::MAX
}

/// The count an error token denotes.
pub open spec fn errors_token_value(t: Seq<u8>) -> u32 {
    digits_value(t.subrange(0, t.len() - 1)) as u32
}

/// The token is a GPS-resolution field: `gps`, digits, `x`, digits.
pub open spec fn gps_token_ok(t: Seq<u8>) -> bool {
    t.len() >= 3 && t[0] == 103 && t[1] == 112 && t[2] == 115 && ({
        let d1 = digit_run_end(t, 3);
        d1 > 3 && d1 < t.len() && t[d1] == 120 && digit_run_end(t, d1 + 1) == t.len()
            && digit_run_end(t, d1 + 1) > d1 + 1 && digits_value(t.subrange(3, d1)) <= u32::MAX
            && digits_value(t.subrange(d1 + 1, t.len() as int)) <= u32::MAX
    })
}

/// The resolution pair a GPS token denotes.
pub open spec fn gps_token_value(t: Seq<u8>) -> ParsedGPSResolution {
    let d1 = digit_run_end(t, 3);
    ParsedGPSResolution {
        horizontal: digits_value(t.subrange(3, d1)) as u32,
        vertical: digits_value(t.subrange(d1 + 1, t.len() as int)) as u32,
    }
}

/// The shape of a token: the first matching shape in the fixed priority
/// order, or `Unknown` when none matches.
pub open spec fn token_kind(t: Seq<u8>) -> ExtKind {
    if prec_token_ok(t) {
        ExtKind::Precision
    } else if id_token_ok(t) {
        ExtKind::AircraftId
    } else if rate_token_ok(t) {
        ExtKind::AltitudeRate
    } else if rot_token_ok(t) {
        ExtKind::RotationRate
    } else if reception_token_ok(t) {
        ExtKind::Reception
    } else if errors_token_ok(t) {
        ExtKind::BitErrors
    } else if freq_token_ok(t) {
        ExtKind::FrequencyOffset
    } else if gps_token_ok(t) {
        ExtKind::GpsResolution
    } else {
        ExtKind::Unknown
    }
}

/// The whitespace-separated tokens of the tail at `p`: while whitespace
/// follows, skip it and take everything up to the next space byte as one
/// token.  Without leading whitespace, or at the end, the tail is done.
pub open spec fn ext_tokens(s: Seq<u8>, p: int) -> Seq<Seq<u8>>
    decreases s.len() - p,
    when 0 <= p <= s.len()
    via ext_tokens_decreases
{
    let q = ws_end(s, p);
    if q == p || q == s.len() {
        Seq::empty()
    } else {
        seq![s.subrange(q, token_end(s, q))] + ext_tokens(s, token_end(s, q))
    }
}

#[via_fn]
proof fn ext_tokens_decreases(s: Seq<u8>, p: int) {
    crate::parser::util::lemma_ws_end_bounds(s, p);
    crate::parser::util::lemma_token_end_bounds(s, ws_end(s, p));
}

/// Where the extension stage stops: after the last token it consumes.
pub open spec fn ext_rest(s: Seq<u8>, p: int) -> int
    decreases s.len() - p,
    when 0 <= p <= s.len()
    via ext_rest_decreases
{
    let q = ws_end(s, p);
    if q == p || q == s.len() {
        p
    } else {
        ext_rest(s, token_end(s, q))
    }
}

#[via_fn]
proof fn ext_rest_decreases(s: Seq<u8>, p: int) {
    crate::parser::util::lemma_ws_end_bounds(s, p);
    crate::parser::util::lemma_token_end_bounds(s, ws_end(s, p));
}

/// What `last_of_kind` hands back really has the shape asked for.
pub proof fn lemma_last_of_kind_is_kind(ts: Seq<Seq<u8>>, k: ExtKind)
    ensures
        last_of_kind(ts, k) matches Some(t) ==> token_kind(t) == k,
    decreases ts.len(),
{
    if ts.len() > 0 && token_kind(ts.last()) != k {
        lemma_last_of_kind_is_kind(ts.drop_last(), k);
    }
}

/// The last token of the given shape, if any: later tokens of a shape
/// overwrite earlier ones.
pub open spec fn last_of_kind(ts: Seq<Seq<u8>>, k: ExtKind) -> Option<Seq<u8>>
    decreases ts.len(),
{
    if ts.len() == 0 {
        None
    } else if token_kind(ts.last()) == k {
        Some(ts.last())
    } else {
        last_of_kind(ts.drop_last(), k)
    }
}

/// The precision field a token list decodes to.
pub open spec fn tokens_precision(ts: Seq<Seq<u8>>) -> Option<ParsedPositionPrecision> {
    match last_of_kind(ts, ExtKind::Precision) {
        Some(t) => Some(prec_token_value(t)),
        None => None,
    }
}

/// The metadata byte and identifier bytes a token list decodes to.
pub open spec fn tokens_aircraft_id(ts: Seq<Seq<u8>>) -> Option<(u8, Seq<u8>)> {
    match last_of_kind(ts, ExtKind::AircraftId) {
        Some(t) => Some((id_token_meta(t), id_token_bytes(t))),
        None => None,
    }
}

/// The vertical rate a token list decodes to.
pub open spec fn tokens_altitude_rate(ts: Seq<Seq<u8>>) -> Option<i64> {
    match last_of_kind(ts, ExtKind::AltitudeRate) {
        Some(t) => Some(rate_token_value(t)),
        None => None,
    }
}

/// The turn rate a token list decodes to.
pub open spec fn tokens_rotation_rate(ts: Seq<Seq<u8>>) -> Option<Decimal> {
    match last_of_kind(ts, ExtKind::RotationRate) {
        Some(t) => Some(dec_token_value(t)),
        None => None,
    }
}

/// The signal strength a token list decodes to.
pub open spec fn tokens_reception(ts: Seq<Seq<u8>>) -> Option<Decimal> {
    match last_of_kind(ts, ExtKind::Reception) {
        Some(t) => Some(dec_token_value(t)),
        None => None,
    }
}

/// The bit-error count a token list decodes to.
pub open spec fn tokens_bit_errors(ts: Seq<Seq<u8>>) -> Option<u32> {
    match last_of_kind(ts, ExtKind::BitErrors) {
        Some(t) => Some(errors_token_value(t)),
        None => None,
    }
}

/// The frequency offset a token list decodes to.
pub open spec fn tokens_frequency_offset(ts: Seq<Seq<u8>>) -> Option<Decimal> {
    match last_of_kind(ts, ExtKind::FrequencyOffset) {
        Some(t) => Some(dec_token_value(t)),
        None => None,
    }
}

/// The GPS resolution a token list decodes to.
pub open spec fn tokens_gps_resolution(ts: Seq<Seq<u8>>) -> Option<ParsedGPSResolution> {
    match last_of_kind(ts, ExtKind::GpsResolution) {
        Some(t) => Some(gps_token_value(t)),
        None => None,
    }
}

/// The unmatched tokens of a token list, in order.
pub open spec fn tokens_unknown(ts: Seq<Seq<u8>>) -> Seq<Seq<u8>>
    decreases ts.len(),
{
    if ts.len() == 0 {
        Seq::empty()
    } else if token_kind(ts.last()) is Unknown {
        tokens_unknown(ts.drop_last()).push(ts.last())
    } else {
        tokens_unknown(ts.drop_last())
    }
}

/// A digit run inside a space-terminated window reads the same whether
/// the window is scanned in place or as its own sequence.
pub proof fn lemma_run_local(s: Seq<u8>, q: int, e: int, x: int)
    requires
        0 <= q <= x <= e <= s.len(),
        e == s.len() || !is_digit(s[e]),
    ensures
        digit_run_end(s, x) == q + digit_run_end(s.subrange(q, e), x - q),
    decreases e - x,
{
    let t = s.subrange(q, e);
    if x < e {
        assert(t[x - q] == s[x]);
        if is_digit(s[x]) {
            lemma_run_local(s, q, e, x + 1);
        }
    }
}

/// A signed decimal inside a space-terminated window reads the same
/// whether the window is scanned in place or as its own sequence.
pub proof fn lemma_dec_local(s: Seq<u8>, q: int, e: int)
    requires
        0 <= q <= e <= s.len(),
        e == s.len() || s[e] == 32,
    ensures
        ({
            let t = s.subrange(q, e);
            &&& dec_matches(s, q) == dec_matches(t, 0)
            &&& (dec_matches(s, q) ==> {
                &&& dec_int_end(s, q) == q + dec_int_end(t, 0)
                &&& dec_has_frac(s, q) == dec_has_frac(t, 0)
                &&& dec_end(s, q) == q + dec_end(t, 0)
                &&& dec_end(t, 0) <= t.len()
                &&& dec_digits(s, q) == dec_digits(t, 0)
                &&& dec_scale(s, q) == dec_scale(t, 0)
                &&& dec_neg(s, q) == dec_neg(t, 0)
                &&& dec_fits(s, q) == dec_fits(t, 0)
                &&& dec_value(s, q) == dec_value(t, 0)
            })
        }),
{
    let t = s.subrange(q, e);
    assert(dec_sign_len(s, q) == dec_sign_len(t, 0)) by {
        if q < e {
            assert(t[0] == s[q]);
        }
    }
    let sl = dec_sign_len(s, q);
    if sl == 1 && q == e {
        assert(false);
    }
    lemma_run_local(s, q, e, q + sl);
    let e1 = digit_run_end(s, q + sl);
    crate::parser::util::lemma_digit_run_end_bounds(t, sl);
    if dec_matches(s, q) {
        assert(e1 - q == dec_int_end(t, 0));
        assert(dec_has_frac(s, q) == dec_has_frac(t, 0)) by {
            if e1 < e {
                assert(t[e1 - q] == s[e1]);
                if s[e1] == 46 {
                    lemma_run_local(s, q, e, e1 + 1);
                }
            }
        }
        if dec_has_frac(s, q) {
            lemma_run_local(s, q, e, e1 + 1);
            let e2 = digit_run_end(s, e1 + 1);
            assert(dec_end(s, q) == q + dec_end(t, 0));
            crate::parser::util::lemma_digit_run_end_bounds(t, e1 - q + 1);
            assert(s.subrange(q + sl, e1) =~= t.subrange(sl, e1 - q));
            assert(s.subrange(e1 + 1, e2) =~= t.subrange(e1 - q + 1, e2 - q));
            assert(dec_digits(s, q) == dec_digits(t, 0));
        } else {
            assert(s.subrange(q + sl, e1) =~= t.subrange(sl, e1 - q));
            assert(dec_digits(s, q) == dec_digits(t, 0));
        }
        assert(dec_neg(s, q) == dec_neg(t, 0)) by {
            if q < e {
                assert(t[0] == s[q]);
            } else {
                assert(sl == 0);
            }
        }
    }
}

/// The value of one hexadecimal digit byte.
fn hex_value(b: u8) -> (r: u8)
    requires
        is_hex_digit(b),
    ensures
        r == hex_val(b),
        r < 16,
{
    if 48 <= b && b <= 57 {
        b - 48
    } else if 97 <= b && b <= 102 {
        b - 87
    } else {
        b - 55
    }
}

/// Reads one whitespace-led token shaped as a signed decimal followed by
/// the given suffix of two or three bytes.
fn match_dec_suffix(i: &[u8], pos: usize, b0: u8, b1: u8, b2: u8, sl: usize) -> (r: Option<
    (usize, Decimal),
>)
    requires
        pos <= i@.len(),
        2 <= sl <= 3,
    ensures
        ({
            let q = ws_end(i@, pos as int);
            let t = i@.subrange(q, token_end(i@, q));
            let suffix = if sl == 2 {
                seq![b0, b1]
            } else {
                seq![b0, b1, b2]
            };
            if q > pos && dec_suffix_token_ok(t, suffix) {
                r == Some((token_end(i@, q) as usize, dec_value(t, 0)))
            } else {
                r is None
            }
        }),
        r matches Some((p2, d)) ==> pos < p2 <= i@.len() && d.wf(),
{
    let ghost suffix: Seq<u8> = if sl == 2 {
        seq![b0, b1]
    } else {
        seq![b0, b1, b2]
    };
    let q = skip_multispace(i, pos);
    let e = find_token_end(i, q);
    let ghost t = i@.subrange(q as int, e as int);
    proof {
        crate::parser::util::lemma_token_end_bounds(i@, q as int);
        lemma_dec_local(i@, q as int, e as int);
    }
    if q == pos {
        return None;
    }
    if e - q <= sl {
        return None;
    }
    let sfx_at = e - sl;
    let sfx_ok = if sl == 2 {
        i[sfx_at] == b0 && i[sfx_at + 1] == b1
    } else {
        i[sfx_at] == b0 && i[sfx_at + 1] == b1 && i[sfx_at + 2] == b2
    };
    proof {
        assert forall|k: int| 0 <= k < t.len() implies t[k] == i@[q + k] by {}
    }
    if !sfx_ok {
        assert(!dec_suffix_token_ok(t, suffix)) by {
            if t.subrange(t.len() - sl, t.len() as int) == suffix {
                assert(t.subrange(t.len() - sl, t.len() as int)[0] == t[t.len() - sl]);
                assert(t.subrange(t.len() - sl, t.len() as int)[1] == t[t.len() - sl + 1]);
                if sl == 3 {
                    assert(t.subrange(t.len() - sl, t.len() as int)[2] == t[t.len() - sl + 2]);
                }
            }
        }
        return None;
    }
    proof {
        assert(t.subrange(t.len() - sl, t.len() as int) =~= suffix);
    }
    match crate::parser::util::float(i, q) {
        Some((pf, d)) => {
            if pf == sfx_at {
                Some((e, d))
            } else {
                None
            }
        },
        None => None,
    }
}

/// Reads a whitespace-led position-precision token: `!W`, one digit for
/// latitude and one for longitude, then `!`.
pub fn parse_ext_position_precision(i: &[u8], pos: usize) -> (r: Option<
    (usize, ParsedPositionPrecision),
>)
    requires
        pos <= i@.len(),
    ensures
        ({
            let q = ws_end(i@, pos as int);
            let t = i@.subrange(q, token_end(i@, q));
            if q > pos && prec_token_ok(t) {
                r == Some((token_end(i@, q) as usize, prec_token_value(t)))
            } else {
                r is None
            }
        }),
        r matches Some((p2, _)) ==> pos < p2 <= i@.len(),
{
    let q = skip_multispace(i, pos);
    let e = find_token_end(i, q);
    let ghost t = i@.subrange(q as int, e as int);
    proof {
        assert forall|k: int| 0 <= k < t.len() implies t[k] == i@[q + k] by {}
    }
    if q == pos || e - q != 5 {
        return None;
    }
    if i[q] == 33 && i[q + 1] == 87 && 48 <= i[q + 2] && i[q + 2] <= 57 && 48 <= i[q + 3] && i[q
        + 3] <= 57 && i[q + 4] == 33 {
        Some(
            (
                e,
                ParsedPositionPrecision {
                    latitude: i[q + 2] - 48,
                    longitude: i[q + 3] - 48,
                },
            ),
        )
    } else {
        None
    }
}

/// Reads a whitespace-led aircraft-metadata token: `id`, the metadata
/// byte as two hex digits, and the six-character identifier.
pub fn parse_ext_aircraft_id(i: &[u8], pos: usize) -> (r: Option<(usize, ParsedAircraftID)>)
    requires
        pos <= i@.len(),
    ensures
        ({
            let q = ws_end(i@, pos as int);
            let t = i@.subrange(q, token_end(i@, q));
            if q > pos && id_token_ok(t) {
                r matches Some((p2, a)) && p2 == token_end(i@, q) && a.meta == id_token_meta(t)
                    && a.id@ == bytes_as_chars(id_token_bytes(t))
            } else {
                r is None
            }
        }),
        r matches Some((p2, _)) ==> pos < p2 <= i@.len(),
{
    let q = skip_multispace(i, pos);
    let e = find_token_end(i, q);
    let ghost t = i@.subrange(q as int, e as int);
    proof {
        assert forall|k: int| 0 <= k < t.len() implies t[k] == i@[q + k] by {}
    }
    if q == pos || e - q != 10 {
        return None;
    }
    if i[q] == 105 && i[q + 1] == 100 {
        let h1 = i[q + 2];
        let h2 = i[q + 3];
        let hex1 = (48 <= h1 && h1 <= 57) || (97 <= h1 && h1 <= 102) || (65 <= h1 && h1 <= 70);
        let hex2 = (48 <= h2 && h2 <= 57) || (97 <= h2 && h2 <= 102) || (65 <= h2 && h2 <= 70);
        if hex1 && hex2 {
            let meta = hex_value(h1) * 16 + hex_value(h2);
            let id = bytes_to_string(&i[q + 4..q + 10]);
            proof {
                assert(id_token_bytes(t) =~= i@.subrange(q + 4, q + 10));
            }
            Some((e, ParsedAircraftID { meta, id }))
        } else {
            None
        }
    } else {
        None
    }
}

/// Reads a whitespace-led vertical-rate token: a signed decimal and
/// `fpm`, rounded to the nearest whole foot per minute.
pub fn parse_ext_altitude_rate(i: &[u8], pos: usize) -> (r: Option<(usize, i64)>)
    requires
        pos <= i@.len(),
    ensures
        ({
            let q = ws_end(i@, pos as int);
            let t = i@.subrange(q, token_end(i@, q));
            if q > pos && rate_token_ok(t) {
                r == Some((token_end(i@, q) as usize, rate_token_value(t)))
            } else {
                r is None
            }
        }),
        r matches Some((p2, _)) ==> pos < p2 <= i@.len(),
{
    match match_dec_suffix(i, pos, 102, 112, 109, 3) {
        Some((p2, d)) => Some((p2, d.round_to_int())),
        None => None,
    }
}

/// Reads a whitespace-led turn-rate token: a signed decimal and `rot`,
/// in half-turns per minute.
pub fn parse_ext_rotation_rate(i: &[u8], pos: usize) -> (r: Option<(usize, Decimal)>)
    requires
        pos <= i@.len(),
    ensures
        ({
            let q = ws_end(i@, pos as int);
            let t = i@.subrange(q, token_end(i@, q));
            if q > pos && rot_token_ok(t) {
                r == Some((token_end(i@, q) as usize, dec_token_value(t)))
            } else {
                r is None
            }
        }),
        r matches Some((p2, d)) ==> pos < p2 <= i@.len() && d.wf(),
{
    match_dec_suffix(i, pos, 114, 111, 116, 3)
}

/// Reads a whitespace-led signal-strength token: a signed decimal and
/// `dB`.
pub fn parse_ext_reception(i: &[u8], pos: usize) -> (r: Option<(usize, Decimal)>)
    requires
        pos <= i@.len(),
    ensures
        ({
            let q = ws_end(i@, pos as int);
            let t = i@.subrange(q, token_end(i@, q));
            if q > pos && reception_token_ok(t) {
                r == Some((token_end(i@, q) as usize, dec_token_value(t)))
            } else {
                r is None
            }
        }),
        r matches Some((p2, d)) ==> pos < p2 <= i@.len() && d.wf(),
{
    match_dec_suffix(i, pos, 100, 66, 0, 2)
}

/// Reads a whitespace-led frequency-offset token: a signed decimal and
/// `kHz`.
pub fn parse_ext_frequency_offset(i: &[u8], pos: usize) -> (r: Option<(usize, Decimal)>)
    requires
        pos <= i@.len(),
    ensures
        ({
            let q = ws_end(i@, pos as int);
            let t = i@.subrange(q, token_end(i@, q));
            if q > pos && freq_token_ok(t) {
                r == Some((token_end(i@, q) as usize, dec_token_value(t)))
            } else {
                r is None
            }
        }),
        r matches Some((p2, d)) ==> pos < p2 <= i@.len() && d.wf(),
{
    match_dec_suffix(i, pos, 107, 72, 122, 3)
}

/// Reads a whitespace-led bit-error token: an unsigned digit run and
/// `e`.
pub fn parse_ext_bit_errors(i: &[u8], pos: usize) -> (r: Option<(usize, u32)>)
    requires
        pos <= i@.len(),
    ensures
        ({
            let q = ws_end(i@, pos as int);
            let t = i@.subrange(q, token_end(i@, q));
            if q > pos && errors_token_ok(t) {
                r == Some((token_end(i@, q) as usize, errors_token_value(t)))
            } else {
                r is None
            }
        }),
        r matches Some((p2, _)) ==> pos < p2 <= i@.len(),
{
    let q = skip_multispace(i, pos);
    let e = find_token_end(i, q);
    let ghost t = i@.subrange(q as int, e as int);
    proof {
        assert forall|k: int| 0 <= k < t.len() implies t[k] == i@[q + k] by {}
        crate::parser::util::lemma_token_end_bounds(i@, q as int);
        lemma_run_local(i@, q as int, e as int, q as int);
        if errors_token_ok(t) {
            crate::parser::util::lemma_run_end_min(t, 0, t.len() - 1);
            crate::parser::util::lemma_digit_run_end_bounds(t, 0);
            if digit_run_end(t, 0) == t.len() {
                assert(t.subrange(0, t.len() as int)[t.len() - 1] == t[t.len() - 1]);
            }
            assert(digit_run_end(t, 0) == t.len() - 1);
            assert(t.subrange(0, t.len() - 1) =~= i@.subrange(q as int, e - 1));
        }
    }
    if q == pos || e - q < 2 {
        return None;
    }
    match n_digit_number(i, q) {
        Some((pe, v)) => {
            if pe == e - 1 && i[pe] == 101 {
                proof {
                    crate::parser::util::lemma_digit_run_end_bounds(i@, q as int);
                    assert(all_digits(t.subrange(0, t.len() - 1))) by {
                        assert forall|k: int| 0 <= k < t.len() - 1 implies is_digit(
                            #[trigger] t.subrange(0, t.len() - 1)[k],
                        ) by {
                            assert(t.subrange(0, t.len() - 1)[k] == i@[q + k]);
                            assert(i@.subrange(q as int, pe as int)[k] == i@[q + k]);
                        }
                    }
                    assert(t.subrange(0, t.len() - 1) =~= i@.subrange(q as int, pe as int));
                    assert(t.last() == i@[e - 1]);
                }
                Some((e, v))
            } else {
                None
            }
        },
        None => None,
    }
}

/// Reads a whitespace-led GPS-resolution token: `gps`, the horizontal
/// meters class, `x`, and the vertical meters class.
pub fn parse_ext_gps_resolution(i: &[u8], pos: usize) -> (r: Option<(usize, ParsedGPSResolution)>)
    requires
        pos <= i@.len(),
    ensures
        ({
            let q = ws_end(i@, pos as int);
            let t = i@.subrange(q, token_end(i@, q));
            if q > pos && gps_token_ok(t) {
                r == Some((token_end(i@, q) as usize, gps_token_value(t)))
            } else {
                r is None
            }
        }),
        r matches Some((p2, _)) ==> pos < p2 <= i@.len(),
{
    let q = skip_multispace(i, pos);
    let e = find_token_end(i, q);
    let ghost t = i@.subrange(q as int, e as int);
    proof {
        assert forall|k: int| 0 <= k < t.len() implies t[k] == i@[q + k] by {}
    }
    if q == pos || e - q < 3 {
        return None;
    }
    if !(i[q] == 103 && i[q + 1] == 112 && i[q + 2] == 115) {
        return None;
    }
    proof {
        crate::parser::util::lemma_token_end_bounds(i@, q as int);
        lemma_run_local(i@, q as int, e as int, q + 3);
        crate::parser::util::lemma_digit_run_end_bounds(t, 3);
        assert(i@.subrange(q + 3, q + digit_run_end(t, 3)) =~= t.subrange(3, digit_run_end(t, 3)));
    }
    let (d1, horizontal) = match n_digit_number(i, q + 3) {
        Some(x) => x,
        None => {
            return None;
        },
    };
    proof {
        assert(d1 - q == digit_run_end(t, 3));
    }
    if d1 >= e || i[d1] != 120 {
        return None;
    }
    proof {
        lemma_run_local(i@, q as int, e as int, d1 + 1);
        crate::parser::util::lemma_digit_run_end_bounds(t, d1 - q + 1);
        assert(i@.subrange(d1 + 1, q + digit_run_end(t, d1 - q + 1)) =~= t.subrange(
            d1 - q + 1,
            digit_run_end(t, d1 - q + 1),
        ));
    }
    let (d2, vertical) = match n_digit_number(i, d1 + 1) {
        Some(x) => x,
        None => {
            return None;
        },
    };
    if d2 != e {
        return None;
    }
    proof {
        assert(t.subrange(d1 - q + 1, t.len() as int) =~= i@.subrange(d1 + 1, e as int));
    }
    Some((e, ParsedGPSResolution { horizontal, vertical }))
}

/// One tokenization step: with whitespace and then a token at `p`, the
/// tail's tokens are that token followed by the tokens after it.
proof fn lemma_ext_step(s: Seq<u8>, p: int)
    requires
        0 <= p <= s.len(),
        ws_end(s, p) > p,
        ws_end(s, p) < s.len(),
    ensures
        ({
            let q = ws_end(s, p);
            let e = token_end(s, q);
            let t = s.subrange(q, e);
            &&& ext_tokens(s, p) == seq![t] + ext_tokens(s, e)
            &&& ext_rest(s, p) == ext_rest(s, e)
            &&& p < e <= s.len()
        }),
{
    let q = ws_end(s, p);
    crate::parser::util::lemma_ws_end_bounds(s, p);
    crate::parser::util::lemma_token_end_bounds(s, q);
    assert(s[q] != 32);
    assert(token_end(s, q) == token_end(s, q + 1));
}

/// Appending a token updates the decoded fields the way the loop does:
/// the token's own shape takes the new value, every other shape keeps
/// its old one, and only an unmatched token joins the unknown list.
proof fn lemma_decode_push(done: Seq<Seq<u8>>, t: Seq<u8>)
    ensures
        last_of_kind(done.push(t), token_kind(t)) == Some(t),
        forall|k: ExtKind|
            k != token_kind(t) ==> #[trigger] last_of_kind(done.push(t), k) == last_of_kind(
                done,
                k,
            ),
        token_kind(t) is Unknown ==> tokens_unknown(done.push(t)) == tokens_unknown(done).push(t),
        !(token_kind(t) is Unknown) ==> tokens_unknown(done.push(t)) == tokens_unknown(done),
{
    assert(done.push(t).drop_last() =~= done);
    assert(done.push(t).last() == t);
}

/// The decoded record holds exactly what the token list denotes: every
/// field is its shape's last token decoded, and the unknown list spells
/// the unmatched tokens in order.
pub open spec fn ext_fields_match(ext: ParsedExtensions, ts: Seq<Seq<u8>>) -> bool {
    &&& ext.position_precision == tokens_precision(ts)
    &&& match (ext.aircraft_id, tokens_aircraft_id(ts)) {
        (Some(a), Some((m, b))) => a.meta == m && a.id@ == bytes_as_chars(b),
        (None, None) => true,
        _ => false,
    }
    &&& ext.altitude_rate == tokens_altitude_rate(ts)
    &&& ext.rotation_rate == tokens_rotation_rate(ts)
    &&& ext.reception == tokens_reception(ts)
    &&& ext.bit_errors == tokens_bit_errors(ts)
    &&& ext.frequency_offset == tokens_frequency_offset(ts)
    &&& ext.gps_resolution == tokens_gps_resolution(ts)
    &&& ext.unknown@.len() == tokens_unknown(ts).len()
    &&& forall|k: int|
        0 <= k < tokens_unknown(ts).len() ==> #[trigger] ext.unknown@[k]@ == bytes_as_chars(
            tokens_unknown(ts)[k],
        )
}

/// Reads the whole extension tail.  Tokens of a known shape fill their
/// fields, later tokens of a shape overwriting earlier ones; unmatched
/// tokens are recorded verbatim in input order; the stage never fails.
/// Consumption stops before trailing whitespace or at the first text
/// not led by whitespace.
#[verifier::loop_isolation(false)]
pub fn parse_extensions(i: &[u8], pos: usize) -> (r: (usize, ParsedExtensions))
    requires
        pos <= i@.len(),
    ensures
        r.0 == ext_rest(i@, pos as int),
        pos <= r.0 <= i@.len(),
        ext_fields_match(r.1, ext_tokens(i@, pos as int)),
{
    let mut ext = ParsedExtensions {
        position_precision: None,
        aircraft_id: None,
        altitude_rate: None,
        rotation_rate: None,
        reception: None,
        bit_errors: None,
        frequency_offset: None,
        gps_resolution: None,
        unknown: Vec::new(),
    };
    let n = i.len();
    let mut cur: usize = pos;
    let ghost mut done: Seq<Seq<u8>> = Seq::empty();
    loop
        invariant
            pos <= cur <= i@.len(),
            ext_tokens(i@, pos as int) == done + ext_tokens(i@, cur as int),
            ext_rest(i@, pos as int) == ext_rest(i@, cur as int),
            ext.position_precision == tokens_precision(done),
            match (ext.aircraft_id, tokens_aircraft_id(done)) {
                (Some(a), Some((m, b))) => a.meta == m && a.id@ == bytes_as_chars(b),
                (None, None) => true,
                _ => false,
            },
            ext.altitude_rate == tokens_altitude_rate(done),
            ext.rotation_rate == tokens_rotation_rate(done),
            ext.reception == tokens_reception(done),
            ext.bit_errors == tokens_bit_errors(done),
            ext.frequency_offset == tokens_frequency_offset(done),
            ext.gps_resolution == tokens_gps_resolution(done),
            ext.unknown@.len() == tokens_unknown(done).len(),
            forall|k: int|
                0 <= k < tokens_unknown(done).len() ==> #[trigger] ext.unknown@[k]@
                    == bytes_as_chars(tokens_unknown(done)[k]),
        decreases i@.len() - cur,
    {
        proof {
            crate::parser::util::lemma_ws_end_bounds(i@, cur as int);
        }
        let ghost q = ws_end(i@, cur as int);
        let ghost e = token_end(i@, q);
        let ghost t = i@.subrange(q, e);
        proof {
            crate::parser::util::lemma_token_end_bounds(i@, q);
        }
        if let Some((p2, v)) = parse_ext_position_precision(i, cur) {
            ext.position_precision = Some(v);
            proof {
                lemma_ext_step(i@, cur as int);
                assert(done + ext_tokens(i@, cur as int) =~= done.push(t) + ext_tokens(i@, e));
                lemma_decode_push(done, t);
                done = done.push(t);
            }
            cur = p2;
        } else if let Some((p2, v)) = parse_ext_aircraft_id(i, cur) {
            ext.aircraft_id = Some(v);
            proof {
                lemma_ext_step(i@, cur as int);
                assert(done + ext_tokens(i@, cur as int) =~= done.push(t) + ext_tokens(i@, e));
                lemma_decode_push(done, t);
                done = done.push(t);
            }
            cur = p2;
        } else if let Some((p2, v)) = parse_ext_altitude_rate(i, cur) {
            ext.altitude_rate = Some(v);
            proof {
                lemma_ext_step(i@, cur as int);
                assert(done + ext_tokens(i@, cur as int) =~= done.push(t) + ext_tokens(i@, e));
                lemma_decode_push(done, t);
                done = done.push(t);
            }
            cur = p2;
        } else if let Some((p2, v)) = parse_ext_rotation_rate(i, cur) {
            ext.rotation_rate = Some(v);
            proof {
                lemma_ext_step(i@, cur as int);
                assert(done + ext_tokens(i@, cur as int) =~= done.push(t) + ext_tokens(i@, e));
                lemma_decode_push(done, t);
                done = done.push(t);
            }
            cur = p2;
        } else if let Some((p2, v)) = parse_ext_reception(i, cur) {
            ext.reception = Some(v);
            proof {
                lemma_ext_step(i@, cur as int);
                assert(done + ext_tokens(i@, cur as int) =~= done.push(t) + ext_tokens(i@, e));
                lemma_decode_push(done, t);
                done = done.push(t);
            }
            cur = p2;
        } else if let Some((p2, v)) = parse_ext_bit_errors(i, cur) {
            ext.bit_errors = Some(v);
            proof {
                lemma_ext_step(i@, cur as int);
                assert(done + ext_tokens(i@, cur as int) =~= done.push(t) + ext_tokens(i@, e));
                lemma_decode_push(done, t);
                done = done.push(t);
            }
            cur = p2;
        } else if let Some((p2, v)) = parse_ext_frequency_offset(i, cur) {
            ext.frequency_offset = Some(v);
            proof {
                lemma_ext_step(i@, cur as int);
                assert(done + ext_tokens(i@, cur as int) =~= done.push(t) + ext_tokens(i@, e));
                lemma_decode_push(done, t);
                done = done.push(t);
            }
            cur = p2;
        } else if let Some((p2, v)) = parse_ext_gps_resolution(i, cur) {
            ext.gps_resolution = Some(v);
            proof {
                lemma_ext_step(i@, cur as int);
                assert(done + ext_tokens(i@, cur as int) =~= done.push(t) + ext_tokens(i@, e));
                lemma_decode_push(done, t);
                done = done.push(t);
            }
            cur = p2;
        } else {
            let qx = skip_multispace(i, cur);
            if qx == cur || qx >= n {
                proof {
                    assert(ext_tokens(i@, cur as int) =~= Seq::<Seq<u8>>::empty());
                    assert(done + ext_tokens(i@, cur as int) =~= done);
                }
                return (cur, ext);
            }
            let ex = find_token_end(i, qx);
            let tok = bytes_to_string(&i[qx..ex]);
            assert(token_kind(t) is Unknown);
            ext.unknown.push(tok);
            proof {
                lemma_ext_step(i@, cur as int);
                assert(done + ext_tokens(i@, cur as int) =~= done.push(t) + ext_tokens(i@, e));
                lemma_decode_push(done, t);
                done = done.push(t);
            }
            cur = ex;
        }
    }
}


/// The last token of a shape is the shape's only token, when every
/// token of that shape in the list is the same.
proof fn lemma_last_of_kind_unique(ts: Seq<Seq<u8>>, k: ExtKind, x: Seq<u8>)
    requires
        ts.contains(x),
        token_kind(x) == k,
        forall|y: Seq<u8>| ts.contains(y) && #[trigger] token_kind(y) == k ==> y == x,
    ensures
        last_of_kind(ts, k) == Some(x),
    decreases ts.len(),
{
    assert(ts.len() > 0);
    if token_kind(ts.last()) == k {
        assert(ts.contains(ts.last())) by {
            assert(ts[ts.len() - 1] == ts.last());
        }
    } else {
        let j = choose|j: int| 0 <= j < ts.len() && ts[j] == x;
        assert(j < ts.len() - 1);
        assert(ts.drop_last().contains(x)) by {
            assert(ts.drop_last()[j] == x);
        }
        assert forall|y: Seq<u8>|
            ts.drop_last().contains(y) && #[trigger] token_kind(y) == k implies y == x by {
            let m = choose|m: int| 0 <= m < ts.drop_last().len() && ts.drop_last()[m] == y;
            assert(ts[m] == y);
        }
        lemma_last_of_kind_unique(ts.drop_last(), k, x);
    }
}

/// A shape with no token in the list decodes to nothing.
proof fn lemma_last_of_kind_none(ts: Seq<Seq<u8>>, k: ExtKind)
    requires
        forall|j: int| 0 <= j < ts.len() ==> #[trigger] token_kind(ts[j]) != k,
    ensures
        last_of_kind(ts, k) is None,
    decreases ts.len(),
{
    if ts.len() > 0 {
        assert(token_kind(ts[ts.len() - 1]) != k);
        lemma_last_of_kind_none(ts.drop_last(), k);
    }
}

/// Two token lists with the same members decode a shape alike, when no
/// two distinct tokens of that shape exist.
proof fn lemma_last_of_kind_permuted(t1: Seq<Seq<u8>>, t2: Seq<Seq<u8>>, k: ExtKind)
    requires
        forall|y: Seq<u8>| t1.contains(y) <==> #[trigger] t2.contains(y),
        forall|x: Seq<u8>, y: Seq<u8>|
            t1.contains(x) && t1.contains(y) && #[trigger] token_kind(x) == k
                && #[trigger] token_kind(y) == k ==> x == y,
    ensures
        last_of_kind(t1, k) == last_of_kind(t2, k),
{
    if exists|j: int| 0 <= j < t1.len() && token_kind(t1[j]) == k {
        let j = choose|j: int| 0 <= j < t1.len() && token_kind(t1[j]) == k;
        let x = t1[j];
        assert(t1.contains(x));
        lemma_last_of_kind_unique(t1, k, x);
        assert forall|y: Seq<u8>|
            t2.contains(y) && #[trigger] token_kind(y) == k implies y == x by {
            assert(t1.contains(y));
        }
        lemma_last_of_kind_unique(t2, k, x);
    } else {
        assert forall|j: int| 0 <= j < t2.len() implies #[trigger] token_kind(t2[j]) != k by {
            assert(t2.contains(t2[j]));
            assert(t1.contains(t2[j]));
            let m = choose|m: int| 0 <= m < t1.len() && t1[m] == t2[j];
        }
        lemma_last_of_kind_none(t2, k);
        assert forall|j: int| 0 <= j < t1.len() implies #[trigger] token_kind(t1[j]) != k by {}
        lemma_last_of_kind_none(t1, k);
    }
}

/// Extension decoding is order-independent: two tails made of the same
/// tokens, in any order, decode to the same field set, provided no two
/// distinct tokens share a known shape.  Each tail's unknown tokens
/// keep that tail's own input order.
pub proof fn lemma_extensions_order_independent(t1: Seq<Seq<u8>>, t2: Seq<Seq<u8>>)
    requires
        t1.to_multiset() == t2.to_multiset(),
        forall|x: Seq<u8>, y: Seq<u8>|
            t1.contains(x) && t1.contains(y) && #[trigger] token_kind(x) == #[trigger] token_kind(
                y,
            ) && !(token_kind(x) is Unknown) ==> x == y,
    ensures
        tokens_precision(t1) == tokens_precision(t2),
        tokens_aircraft_id(t1) == tokens_aircraft_id(t2),
        tokens_altitude_rate(t1) == tokens_altitude_rate(t2),
        tokens_rotation_rate(t1) == tokens_rotation_rate(t2),
        tokens_reception(t1) == tokens_reception(t2),
        tokens_bit_errors(t1) == tokens_bit_errors(t2),
        tokens_frequency_offset(t1) == tokens_frequency_offset(t2),
        tokens_gps_resolution(t1) == tokens_gps_resolution(t2),
{
    assert forall|y: Seq<u8>| t1.contains(y) <==> #[trigger] t2.contains(y) by {
        t1.to_multiset_ensures();
        t2.to_multiset_ensures();
        assert(t1.contains(y) <==> t1.to_multiset().count(y) > 0);
        assert(t2.contains(y) <==> t2.to_multiset().count(y) > 0);
    }
    lemma_last_of_kind_permuted(t1, t2, ExtKind::Precision);
    lemma_last_of_kind_permuted(t1, t2, ExtKind::AircraftId);
    lemma_last_of_kind_permuted(t1, t2, ExtKind::AltitudeRate);
    lemma_last_of_kind_permuted(t1, t2, ExtKind::RotationRate);
    lemma_last_of_kind_permuted(t1, t2, ExtKind::Reception);
    lemma_last_of_kind_permuted(t1, t2, ExtKind::BitErrors);
    lemma_last_of_kind_permuted(t1, t2, ExtKind::FrequencyOffset);
    lemma_last_of_kind_permuted(t1, t2, ExtKind::GpsResolution);
}

/// Inserting a token of another shape does not change what a shape
/// decodes to.
proof fn lemma_last_of_kind_insert_skip(a: Seq<Seq<u8>>, b: Seq<Seq<u8>>, u: Seq<u8>, k: ExtKind)
    requires
        token_kind(u) != k,
    ensures
        last_of_kind(a + seq![u] + b, k) == last_of_kind(a + b, k),
    decreases b.len(),
{
    if b.len() == 0 {
        assert(a + seq![u] + b =~= a.push(u));
        assert(a + b =~= a);
        assert(a.push(u).drop_last() =~= a);
    } else {
        assert((a + seq![u] + b).last() == b.last());
        assert((a + b).last() == b.last());
        assert((a + seq![u] + b).drop_last() =~= a + seq![u] + b.drop_last());
        assert((a + b).drop_last() =~= a + b.drop_last());
        lemma_last_of_kind_insert_skip(a, b.drop_last(), u, k);
    }
}

/// Unknown tokens of a concatenation: each side's, in order.
proof fn lemma_tokens_unknown_concat(a: Seq<Seq<u8>>, b: Seq<Seq<u8>>)
    ensures
        tokens_unknown(a + b) == tokens_unknown(a) + tokens_unknown(b),
    decreases b.len(),
{
    if b.len() == 0 {
        assert(a + b =~= a);
        assert(tokens_unknown(a) + tokens_unknown(b) =~= tokens_unknown(a));
    } else {
        assert((a + b).last() == b.last());
        assert((a + b).drop_last() =~= a + b.drop_last());
        lemma_tokens_unknown_concat(a, b.drop_last());
        if token_kind(b.last()) is Unknown {
            assert(tokens_unknown(a) + tokens_unknown(b) =~= (tokens_unknown(a) + tokens_unknown(
                b.drop_last(),
            )).push(b.last()));
        }
    }
}

/// An unmatched token never aborts decoding and never changes a field:
/// a tail with one bogus token inserted decodes every known field as
/// the tail without it does, and records just that token, in place, as
/// one more unknown entry.
pub proof fn lemma_unknown_token_transparent(a: Seq<Seq<u8>>, b: Seq<Seq<u8>>, u: Seq<u8>)
    requires
        token_kind(u) is Unknown,
    ensures
        tokens_precision(a + seq![u] + b) == tokens_precision(a + b),
        tokens_aircraft_id(a + seq![u] + b) == tokens_aircraft_id(a + b),
        tokens_altitude_rate(a + seq![u] + b) == tokens_altitude_rate(a + b),
        tokens_rotation_rate(a + seq![u] + b) == tokens_rotation_rate(a + b),
        tokens_reception(a + seq![u] + b) == tokens_reception(a + b),
        tokens_bit_errors(a + seq![u] + b) == tokens_bit_errors(a + b),
        tokens_frequency_offset(a + seq![u] + b) == tokens_frequency_offset(a + b),
        tokens_gps_resolution(a + seq![u] + b) == tokens_gps_resolution(a + b),
        tokens_unknown(a + seq![u] + b) == tokens_unknown(a) + seq![u] + tokens_unknown(b),
        tokens_unknown(a + b) == tokens_unknown(a) + tokens_unknown(b),
{
    lemma_last_of_kind_insert_skip(a, b, u, ExtKind::Precision);
    lemma_last_of_kind_insert_skip(a, b, u, ExtKind::AircraftId);
    lemma_last_of_kind_insert_skip(a, b, u, ExtKind::AltitudeRate);
    lemma_last_of_kind_insert_skip(a, b, u, ExtKind::RotationRate);
    lemma_last_of_kind_insert_skip(a, b, u, ExtKind::Reception);
    lemma_last_of_kind_insert_skip(a, b, u, ExtKind::BitErrors);
    lemma_last_of_kind_insert_skip(a, b, u, ExtKind::FrequencyOffset);
    lemma_last_of_kind_insert_skip(a, b, u, ExtKind::GpsResolution);
    lemma_tokens_unknown_concat(a, b);
    lemma_tokens_unknown_concat(a + seq![u], b);
    assert(tokens_unknown(a + seq![u]) =~= tokens_unknown(a).push(u)) by {
        assert((a + seq![u]).drop_last() =~= a);
        assert((a + seq![u]).last() == u);
    }
    assert(tokens_unknown(a) + seq![u] + tokens_unknown(b) =~= tokens_unknown(a).push(u)
        + tokens_unknown(b));
}

} // verus!
