//! Primitive readers: fixed-width unsigned integers, digit runs, the
//! implied-decimal-point fraction, and signed decimals.
//!
//! Every reader takes the input line as bytes together with a cursor and
//! returns the new cursor plus the value read, or `None` when the text at
//! the cursor is not well-formed for that reader.

use vstd::prelude::*;

verus! {

/// Largest mantissa a signed decimal may carry; larger numbers do not match.
pub const DECIMAL_MANTISSA_LIMIT: u64 = 1000000000000;

/// Most fractional digits a signed decimal may carry; longer fractions do
/// not match.
pub const DECIMAL_SCALE_LIMIT: u32 = 9;

/// An ASCII decimal digit.
pub open spec fn is_digit(b: u8) -> bool {
    48 <= b && b <= 57
}

/// The value of one digit byte.
pub open spec fn digit_val(b: u8) -> nat {
    (b - 48) as nat
}

/// Every byte of `s` is a decimal digit.
pub open spec fn all_digits(s: Seq<u8>) -> bool {
    forall|k: int| 0 <= k < s.len() ==> is_digit(s[k])
}

/// The number a digit string denotes in base ten.
pub open spec fn digits_value(s: Seq<u8>) -> nat
    decreases s.len(),
{
    if s.len() == 0 {
        0
    } else {
        digits_value(s.drop_last()) * 10 + digit_val(s.last())
    }
}

/// Ten to the `e`.
pub open spec fn pow10(e: nat) -> nat
    decreases e,
{
    if e == 0 {
        1
    } else {
        10 * pow10((e - 1) as nat)
    }
}

/// `n` digits stand at `p` in `s`.
pub open spec fn fixed_digits_ok(s: Seq<u8>, p: int, n: int) -> bool {
    0 <= p && p + n <= s.len() && all_digits(s.subrange(p, p + n))
}

/// The value of the `n` digits at `p`.
pub open spec fn fixed_digits_value(s: Seq<u8>, p: int, n: int) -> nat {
    digits_value(s.subrange(p, p + n))
}

/// End of the digit run starting at `p`: the first index at or after `p`
/// holding no digit.
pub open spec fn digit_run_end(s: Seq<u8>, p: int) -> int
    decreases s.len() - p,
{
    if 0 <= p < s.len() && is_digit(s[p]) {
        digit_run_end(s, p + 1)
    } else {
        p
    }
}

pub proof fn lemma_digit_run_end_bounds(s: Seq<u8>, p: int)
    requires
        0 <= p <= s.len(),
    ensures
        p <= digit_run_end(s, p) <= s.len(),
        all_digits(s.subrange(p, digit_run_end(s, p))),
        digit_run_end(s, p) < s.len() ==> !is_digit(s[digit_run_end(s, p)]),
    decreases s.len() - p,
{
    if p < s.len() && is_digit(s[p]) {
        lemma_digit_run_end_bounds(s, p + 1);
        let e = digit_run_end(s, p);
        assert forall|k: int| 0 <= k < e - p implies is_digit(s.subrange(p, e)[k]) by {
            if k > 0 {
                assert(s.subrange(p, e)[k] == s.subrange(p + 1, e)[k - 1]);
            }
        }
    }
}

/// A digit run keeps its end when entered anywhere inside it.
pub proof fn lemma_run_end_stable(s: Seq<u8>, p: int, q: int)
    requires
        0 <= p <= q <= s.len(),
        all_digits(s.subrange(p, q)),
    ensures
        digit_run_end(s, p) == digit_run_end(s, q),
    decreases q - p,
{
    if p < q {
        assert(is_digit(s[p])) by {
            assert(s.subrange(p, q)[0] == s[p]);
        }
        assert(all_digits(s.subrange(p + 1, q))) by {
            assert forall|k: int| 0 <= k < q - p - 1 implies is_digit(#[trigger] s.subrange(p + 1, q)[k]) by {
                assert(s.subrange(p + 1, q)[k] == s.subrange(p, q)[k + 1]);
            }
        }
        lemma_run_end_stable(s, p + 1, q);
    }
}

/// A digit run entered at the start of all-digit text reaches at least
/// that text's end.
pub proof fn lemma_run_end_min(s: Seq<u8>, p: int, q: int)
    requires
        0 <= p <= q <= s.len(),
        all_digits(s.subrange(p, q)),
    ensures
        digit_run_end(s, p) >= q,
{
    lemma_run_end_stable(s, p, q);
    lemma_digit_run_end_bounds(s, q);
}

/// Appending digits never shrinks the value a digit string denotes.
pub proof fn lemma_digits_value_monotone(a: Seq<u8>, b: Seq<u8>)
    requires
        a.is_prefix_of(b),
    ensures
        digits_value(a) <= digits_value(b),
    decreases b.len(),
{
    if a.len() < b.len() {
        assert(a.is_prefix_of(b.drop_last()));
        lemma_digits_value_monotone(a, b.drop_last());
    } else {
        assert(a =~= b);
    }
}

/// One unfolding of `digits_value` at the tail.
pub proof fn lemma_digits_value_push(s: Seq<u8>, b: u8)
    ensures
        digits_value(s.push(b)) == digits_value(s) * 10 + digit_val(b),
{
    assert(s.push(b).drop_last() =~= s);
    assert(s.push(b).last() == b);
}

/// A string of `n` digits denotes a number below ten to the `n`.
pub proof fn lemma_digits_value_bound(s: Seq<u8>)
    requires
        all_digits(s),
    ensures
        digits_value(s) < pow10(s.len() as nat),
    decreases s.len(),
{
    if s.len() > 0 {
        assert(all_digits(s.drop_last()));
        lemma_digits_value_bound(s.drop_last());
        assert(is_digit(s.last()));
    }
}

/// Small powers of ten, and monotonicity.
pub proof fn lemma_pow10_bounds()
    ensures
        pow10(0) == 1,
        pow10(1) == 10,
        pow10(2) == 100,
        pow10(3) == 1000,
        pow10(6) == 1000000,
        pow10(9) == 1000000000,
        pow10(12) == 1000000000000,
        pow10(16) == 10000000000000000,
        forall|a: nat, b: nat| a <= b ==> #[trigger] pow10(a) <= #[trigger] pow10(b),
{
    reveal_with_fuel(pow10, 17);
    assert(pow10(16) == 10000000000000000);
    assert forall|a: nat, b: nat| a <= b implies #[trigger] pow10(a) <= #[trigger] pow10(b) by {
        lemma_pow10_monotone(a, b);
    }
}

proof fn lemma_pow10_monotone(a: nat, b: nat)
    requires
        a <= b,
    ensures
        1 <= pow10(a) <= pow10(b),
    decreases b,
{
    if b > 0 {
        if a == b {
            lemma_pow10_monotone((a - 1) as nat, (b - 1) as nat);
        } else {
            lemma_pow10_monotone(a, (b - 1) as nat);
        }
    }
}

/// Reads exactly `n` digits at `pos`, `n` at most 6.
#[verifier::loop_isolation(false)]
fn fixed_digits(i: &[u8], pos: usize, n: usize) -> (r: Option<(usize, u32)>)
    requires
        pos <= i@.len(),
        n <= 6,
    ensures
        fixed_digits_ok(i@, pos as int, n as int) ==> r == Some(
            ((pos + n) as usize, fixed_digits_value(i@, pos as int, n as int) as u32),
        ),
        !fixed_digits_ok(i@, pos as int, n as int) ==> r is None,
{
    proof {
        lemma_pow10_bounds();
    }
    if i.len() - pos < n {
        return None;
    }
    let mut k: usize = 0;
    let mut acc: u32 = 0;
    while k < n
        invariant
            k <= n,
            all_digits(i@.subrange(pos as int, pos + k)),
            acc == digits_value(i@.subrange(pos as int, pos + k)),
            acc < pow10(k as nat),
        decreases n - k,
    {
        let b = i[pos + k];
        if b < 48 || b > 57 {
            assert(i@.subrange(pos as int, pos + n)[k as int] == b);
            return None;
        }
        proof {
            assert(i@.subrange(pos as int, pos + k + 1) =~= i@.subrange(pos as int, pos + k).push(
                b,
            ));
            lemma_digits_value_push(i@.subrange(pos as int, pos + k), b);
        }
        acc = acc * 10 + (b - 48) as u32;
        k = k + 1;
    }
    proof {
        lemma_digits_value_bound(i@.subrange(pos as int, pos + n));
    }
    Some((pos + n, acc))
}

/// Reads one digit.
pub fn single_digit_number(i: &[u8], pos: usize) -> (r: Option<(usize, u32)>)
    requires
        pos <= i@.len(),
    ensures
        fixed_digits_ok(i@, pos as int, 1) ==> r == Some(
            ((pos + 1) as usize, fixed_digits_value(i@, pos as int, 1) as u32),
        ),
        !fixed_digits_ok(i@, pos as int, 1) ==> r is None,
{
    fixed_digits(i, pos, 1)
}

/// Reads two digits.
pub fn two_digit_number(i: &[u8], pos: usize) -> (r: Option<(usize, u32)>)
    requires
        pos <= i@.len(),
    ensures
        fixed_digits_ok(i@, pos as int, 2) ==> r == Some(
            ((pos + 2) as usize, fixed_digits_value(i@, pos as int, 2) as u32),
        ),
        !fixed_digits_ok(i@, pos as int, 2) ==> r is None,
{
    fixed_digits(i, pos, 2)
}

/// Reads three digits.
pub fn three_digit_number(i: &[u8], pos: usize) -> (r: Option<(usize, u32)>)
    requires
        pos <= i@.len(),
    ensures
        fixed_digits_ok(i@, pos as int, 3) ==> r == Some(
            ((pos + 3) as usize, fixed_digits_value(i@, pos as int, 3) as u32),
        ),
        !fixed_digits_ok(i@, pos as int, 3) ==> r is None,
{
    fixed_digits(i, pos, 3)
}

/// Reads six digits.
pub fn six_digit_number(i: &[u8], pos: usize) -> (r: Option<(usize, u32)>)
    requires
        pos <= i@.len(),
    ensures
        fixed_digits_ok(i@, pos as int, 6) ==> r == Some(
            ((pos + 6) as usize, fixed_digits_value(i@, pos as int, 6) as u32),
        ),
        !fixed_digits_ok(i@, pos as int, 6) ==> r is None,
{
    fixed_digits(i, pos, 6)
}

/// Three digits followed by a literal `/` stand at `p`.
pub open spec fn slash_num_ok(s: Seq<u8>, p: int) -> bool {
    fixed_digits_ok(s, p, 3) && p + 4 <= s.len() && s[p + 3] == 47
}

/// Reads three digits terminated by a literal `/`.
pub fn three_digit_number_slash_terminated(i: &[u8], pos: usize) -> (r: Option<(usize, u32)>)
    requires
        pos <= i@.len(),
    ensures
        slash_num_ok(i@, pos as int) ==> r == Some(
            ((pos + 4) as usize, fixed_digits_value(i@, pos as int, 3) as u32),
        ),
        !slash_num_ok(i@, pos as int) ==> r is None,
{
    match three_digit_number(i, pos) {
        Some((p, v)) => {
            if p < i.len() && i[p] == 47 {
                Some((p + 1, v))
            } else {
                None
            }
        },
        None => None,
    }
}

/// A literal `.` and two digits stand at `p`.
pub open spec fn hundredths_ok(s: Seq<u8>, p: int) -> bool {
    0 <= p && p + 3 <= s.len() && s[p] == 46 && fixed_digits_ok(s, p + 1, 2)
}

/// The two digits after the point, as hundredths of a unit.
pub open spec fn hundredths_value(s: Seq<u8>, p: int) -> nat {
    fixed_digits_value(s, p + 1, 2)
}

/// Reads an implied-decimal-point fraction: a literal `.` followed by
/// exactly two digits, valued in hundredths.
pub fn two_digit_decimal(i: &[u8], pos: usize) -> (r: Option<(usize, u8)>)
    requires
        pos <= i@.len(),
    ensures
        hundredths_ok(i@, pos as int) ==> r == Some(
            ((pos + 3) as usize, hundredths_value(i@, pos as int) as u8),
        ),
        !hundredths_ok(i@, pos as int) ==> r is None,
        r matches Some((p, v)) ==> v < 100 && pos <= p <= i@.len(),
{
    if pos < i.len() && i[pos] == 46 {
        match two_digit_number(i, pos + 1) {
            Some((p, v)) => {
                proof {
                    lemma_pow10_bounds();
                    lemma_digits_value_bound(i@.subrange(pos + 1, pos + 3));
                }
                Some((p, v as u8))
            },
            None => None,
        }
    } else {
        None
    }
}

/// Reads a maximal run of digits as an unsigned number; fails when the run
/// is empty or its value exceeds `u32::MAX`.
#[verifier::loop_isolation(false)]
pub fn n_digit_number(i: &[u8], pos: usize) -> (r: Option<(usize, u32)>)
    requires
        pos <= i@.len(),
    ensures
        ({
            let e = digit_run_end(i@, pos as int);
            if e > pos && digits_value(i@.subrange(pos as int, e)) <= u32::MAX {
                r == Some((e as usize, digits_value(i@.subrange(pos as int, e)) as u32))
            } else {
                r is None
            }
        }),
{
    proof {
        lemma_digit_run_end_bounds(i@, pos as int);
    }
    let ghost e = digit_run_end(i@, pos as int);
    if pos >= i.len() || i[pos] < 48 || i[pos] > 57 {
        return None;
    }
    let mut k: usize = pos;
    let mut acc: u64 = 0;
    while k < i.len() && i[k] >= 48 && i[k] <= 57
        invariant
            pos <= k <= i@.len(),
            k <= e,
            all_digits(i@.subrange(pos as int, k as int)),
            acc == digits_value(i@.subrange(pos as int, k as int)),
            acc <= u32::MAX,
        decreases i@.len() - k,
    {
        proof {
            assert(i@.subrange(pos as int, k + 1) =~= i@.subrange(pos as int, k as int).push(
                i@[k as int],
            ));
            lemma_digits_value_push(i@.subrange(pos as int, k as int), i@[k as int]);
        }
        let d = (i[k] - 48) as u64;
        acc = acc * 10 + d;
        k = k + 1;
        proof {
            lemma_run_end_stable(i@, pos as int, k as int);
            lemma_digit_run_end_bounds(i@, k as int);
        }
        if acc > u32::MAX as u64 {
            proof {
                assert(i@.subrange(pos as int, k as int).is_prefix_of(
                    i@.subrange(pos as int, e),
                )) by {
                    assert(i@.subrange(pos as int, k as int) =~= i@.subrange(
                        pos as int,
                        e,
                    ).subrange(0, k - pos));
                }
                lemma_digits_value_monotone(
                    i@.subrange(pos as int, k as int),
                    i@.subrange(pos as int, e),
                );
            }
            return None;
        }
    }
    proof {
        lemma_run_end_stable(i@, pos as int, k as int);
    }
    Some((k, acc as u32))
}

/// An exact decimal number: `mantissa / 10^scale`, negated when `neg`.
///
/// This is the value a signed-decimal field denotes; the mantissa holds
/// every digit of the text, so nothing is lost to rounding.
#[derive(Debug, Clone, Copy, PartialEq, Eq, Structural)]
pub struct Decimal {
    pub neg: bool,
    pub mantissa: u64,
    pub scale: u32,
}

impl Decimal {
    /// Bounds every reader-produced decimal obeys.
    pub open spec fn wf(self) -> bool {
        self.mantissa < DECIMAL_MANTISSA_LIMIT && self.scale <= DECIMAL_SCALE_LIMIT
    }

    /// The nearest integer, halves rounded away from zero.
    pub open spec fn spec_round(self) -> int {
        let p = pow10(self.scale as nat);
        let q = self.mantissa as nat / p;
        let rem = self.mantissa as nat % p;
        let mag: nat = if 2 * rem >= p {
            q + 1
        } else {
            q
        };
        if self.neg {
            -(mag as int)
        } else {
            mag as int
        }
    }

    /// Rounds to the nearest integer, halves away from zero.
    pub fn round_to_int(&self) -> (r: i64)
        requires
            self.wf(),
        ensures
            r == self.spec_round(),
    {
        proof {
            lemma_pow10_bounds();
        }
        let p = pow10_u64(self.scale);
        let q = self.mantissa / p;
        let rem = self.mantissa % p;
        let mag = if 2 * rem >= p {
            q + 1
        } else {
            q
        };
        if self.neg {
            -(mag as i64)
        } else {
            mag as i64
        }
    }
}

/// Ten to the `e`, executable.
#[verifier::loop_isolation(false)]
pub fn pow10_u64(e: u32) -> (r: u64)
    requires
        e <= 16,
    ensures
        r == pow10(e as nat),
        r >= 1,
{
    proof {
        lemma_pow10_bounds();
    }
    let mut k: u32 = 0;
    let mut acc: u64 = 1;
    while k < e
        invariant
            k <= e,
            acc == pow10(k as nat),
        decreases e - k,
    {
        acc = acc * 10;
        k = k + 1;
    }
    acc
}

/// Rounding a reader-produced decimal stays within the mantissa bound.
pub proof fn lemma_round_bounded(d: Decimal)
    requires
        d.wf(),
    ensures
        -(DECIMAL_MANTISSA_LIMIT as int) < d.spec_round() < DECIMAL_MANTISSA_LIMIT as int,
{
    lemma_pow10_bounds();
    let m: nat = d.mantissa as nat;
    let p: nat = pow10(d.scale as nat);
    let q: nat = m / p;
    let rem: nat = m % p;
    vstd::arithmetic::div_mod::lemma_fundamental_div_mod(m as int, p as int);
    assert(q <= q * p) by (nonlinear_arith)
        requires
            p >= 1,
    ;
    if 2 * rem >= p {
        assert(rem >= 1);
        assert(q * p <= m - 1);
    }
}

/// A matching, in-bounds decimal reads back as a well-formed value.
pub proof fn lemma_dec_value_wf(s: Seq<u8>, p: int)
    requires
        0 <= p <= s.len(),
        dec_matches(s, p),
        dec_fits(s, p),
    ensures
        dec_value(s, p).wf(),
        dec_value(s, p).mantissa == digits_value(dec_digits(s, p)),
        dec_value(s, p).scale == dec_scale(s, p),
{
    lemma_digit_run_end_bounds(s, p + dec_sign_len(s, p));
    if dec_has_frac(s, p) {
        lemma_digit_run_end_bounds(s, dec_int_end(s, p) + 1);
    }
}

/// A sign byte (`+` or `-`).
pub open spec fn is_sign(b: u8) -> bool {
    b == 43 || b == 45
}

/// Length of the optional sign at `p`.
pub open spec fn dec_sign_len(s: Seq<u8>, p: int) -> int {
    if 0 <= p < s.len() && is_sign(s[p]) {
        1
    } else {
        0
    }
}

/// The grammar of a signed decimal stands at `p`: optional sign, one or
/// more digits, then optionally a `.` with one or more digits.
pub open spec fn dec_matches(s: Seq<u8>, p: int) -> bool {
    digit_run_end(s, p + dec_sign_len(s, p)) > p + dec_sign_len(s, p)
}

/// End of the decimal's integer digits.
pub open spec fn dec_int_end(s: Seq<u8>, p: int) -> int {
    digit_run_end(s, p + dec_sign_len(s, p))
}

/// The fractional part (a `.` and at least one digit) is present.
pub open spec fn dec_has_frac(s: Seq<u8>, p: int) -> bool {
    let e1 = dec_int_end(s, p);
    e1 < s.len() && s[e1] == 46 && digit_run_end(s, e1 + 1) > e1 + 1
}

/// End of the whole decimal.
pub open spec fn dec_end(s: Seq<u8>, p: int) -> int {
    if dec_has_frac(s, p) {
        digit_run_end(s, dec_int_end(s, p) + 1)
    } else {
        dec_int_end(s, p)
    }
}

/// All mantissa digits of the decimal at `p`: integer digits, then
/// fractional digits with the point dropped.
pub open spec fn dec_digits(s: Seq<u8>, p: int) -> Seq<u8> {
    if dec_has_frac(s, p) {
        s.subrange(p + dec_sign_len(s, p), dec_int_end(s, p)) + s.subrange(
            dec_int_end(s, p) + 1,
            dec_end(s, p),
        )
    } else {
        s.subrange(p + dec_sign_len(s, p), dec_int_end(s, p))
    }
}

/// Number of fractional digits of the decimal at `p`.
pub open spec fn dec_scale(s: Seq<u8>, p: int) -> int {
    if dec_has_frac(s, p) {
        dec_end(s, p) - (dec_int_end(s, p) + 1)
    } else {
        0
    }
}

/// The decimal at `p` is negative.
pub open spec fn dec_neg(s: Seq<u8>, p: int) -> bool {
    0 <= p < s.len() && s[p] == 45
}

/// The decimal at `p` is within the reader's mantissa and scale bounds.
pub open spec fn dec_fits(s: Seq<u8>, p: int) -> bool {
    digits_value(dec_digits(s, p)) < DECIMAL_MANTISSA_LIMIT && dec_scale(s, p)
        <= DECIMAL_SCALE_LIMIT
}

/// The reader's result on a matching, in-bounds decimal.
pub open spec fn dec_value(s: Seq<u8>, p: int) -> Decimal {
    Decimal {
        neg: dec_neg(s, p),
        mantissa: digits_value(dec_digits(s, p)) as u64,
        scale: dec_scale(s, p) as u32,
    }
}

/// Reads a signed decimal: optional sign (default `+`), one or more
/// integer digits, optionally `.` and one or more fractional digits.
/// Numbers beyond the mantissa or scale bounds do not match.
#[verifier::loop_isolation(false)]
#[verifier::rlimit(30)]
pub fn float(i: &[u8], pos: usize) -> (r: Option<(usize, Decimal)>)
    requires
        pos <= i@.len(),
    ensures
        dec_matches(i@, pos as int) && dec_fits(i@, pos as int) ==> r == Some(
            (dec_end(i@, pos as int) as usize, dec_value(i@, pos as int)),
        ),
        !(dec_matches(i@, pos as int) && dec_fits(i@, pos as int)) ==> r is None,
        r matches Some((p, d)) ==> d.wf() && pos <= p <= i@.len(),
{
    let sl: usize = if pos < i.len() && (i[pos] == 43 || i[pos] == 45) {
        1
    } else {
        0
    };
    let neg = pos < i.len() && i[pos] == 45;
    let start = pos + sl;
    proof {
        lemma_digit_run_end_bounds(i@, start as int);
    }
    let ghost e1 = dec_int_end(i@, pos as int);
    if start >= i.len() || i[start] < 48 || i[start] > 57 {
        return None;
    }
    let mut k: usize = start;
    let mut acc: u64 = 0;
    while k < i.len() && i[k] >= 48 && i[k] <= 57
        invariant
            start <= k <= i@.len(),
            k <= e1,
            all_digits(i@.subrange(start as int, k as int)),
            acc == digits_value(i@.subrange(start as int, k as int)),
            acc < DECIMAL_MANTISSA_LIMIT,
        decreases i@.len() - k,
    {
        proof {
            assert(i@.subrange(start as int, k + 1) =~= i@.subrange(start as int, k as int).push(
                i@[k as int],
            ));
            lemma_digits_value_push(i@.subrange(start as int, k as int), i@[k as int]);
        }
        let d = (i[k] - 48) as u64;
        acc = acc * 10 + d;
        k = k + 1;
        proof {
            lemma_run_end_stable(i@, start as int, k as int);
            lemma_digit_run_end_bounds(i@, k as int);
        }
        if acc >= DECIMAL_MANTISSA_LIMIT {
            proof {
                lemma_digits_too_big(i@, pos as int, start as int, k as int);
            }
            return None;
        }
    }
    proof {
        lemma_run_end_stable(i@, start as int, k as int);
    }
    if k < i.len() && i[k] == 46 && k + 1 < i.len() && i[k + 1] >= 48 && i[k + 1] <= 57 {
        proof {
            lemma_digit_run_end_bounds(i@, k + 2);
        }
        assert(dec_has_frac(i@, pos as int));
        let fstart = k + 1;
        proof {
            lemma_digit_run_end_bounds(i@, fstart as int);
        }
        let ghost e2 = digit_run_end(i@, fstart as int);
        let mut j: usize = fstart;
        while j < i.len() && i[j] >= 48 && i[j] <= 57
            invariant
                fstart <= j <= i@.len(),
                j <= e2,
                all_digits(i@.subrange(fstart as int, j as int)),
                acc == digits_value(
                    i@.subrange(start as int, e1) + i@.subrange(fstart as int, j as int),
                ),
                acc < DECIMAL_MANTISSA_LIMIT,
                j - fstart <= DECIMAL_SCALE_LIMIT,
            decreases i@.len() - j,
        {
            proof {
                let pre = i@.subrange(start as int, e1) + i@.subrange(fstart as int, j as int);
                let post = i@.subrange(start as int, e1) + i@.subrange(fstart as int, j + 1);
                assert(post =~= pre.push(i@[j as int]));
                lemma_digits_value_push(pre, i@[j as int]);
            }
            let d = (i[j] - 48) as u64;
            acc = acc * 10 + d;
            j = j + 1;
            proof {
                lemma_run_end_stable(i@, fstart as int, j as int);
                lemma_digit_run_end_bounds(i@, j as int);
            }
            if acc >= DECIMAL_MANTISSA_LIMIT {
                proof {
                    lemma_frac_digits_too_big(i@, pos as int, start as int, j as int);
                }
                return None;
            }
            if j - fstart > 9 {
                return None;
            }
        }
        proof {
            lemma_run_end_stable(i@, fstart as int, j as int);
            assert(dec_digits(i@, pos as int) =~= i@.subrange(start as int, e1) + i@.subrange(
                fstart as int,
                j as int,
            ));
        }
        Some((j, Decimal { neg, mantissa: acc, scale: (j - fstart) as u32 }))
    } else {
        proof {
            assert(!dec_has_frac(i@, pos as int));
            assert(dec_digits(i@, pos as int) =~= i@.subrange(start as int, e1));
        }
        Some((k, Decimal { neg, mantissa: acc, scale: 0 }))
    }
}

/// The whole mantissa is at least its integer-digit prefix.
proof fn lemma_digits_too_big(s: Seq<u8>, p: int, start: int, k: int)
    requires
        0 <= p <= start <= k <= s.len(),
        start == p + dec_sign_len(s, p),
        k <= digit_run_end(s, start),
        all_digits(s.subrange(start, k)),
    ensures
        digits_value(dec_digits(s, p)) >= digits_value(s.subrange(start, k)),
{
    lemma_digit_run_end_bounds(s, start);
    let e1 = digit_run_end(s, start);
    assert(s.subrange(start, k).is_prefix_of(s.subrange(start, e1))) by {
        assert(s.subrange(start, k) =~= s.subrange(start, e1).subrange(0, k - start));
    }
    lemma_digits_value_monotone(s.subrange(start, k), s.subrange(start, e1));
    if dec_has_frac(s, p) {
        assert(s.subrange(start, e1).is_prefix_of(dec_digits(s, p))) by {
            assert(s.subrange(start, e1) =~= dec_digits(s, p).subrange(0, e1 - start));
        }
        lemma_digits_value_monotone(s.subrange(start, e1), dec_digits(s, p));
    }
}

/// The whole mantissa is at least any prefix ending inside the fraction.
proof fn lemma_frac_digits_too_big(s: Seq<u8>, p: int, start: int, j: int)
    requires
        0 <= p <= start <= s.len(),
        start == p + dec_sign_len(s, p),
        dec_has_frac(s, p),
        dec_int_end(s, p) + 1 <= j <= digit_run_end(s, dec_int_end(s, p) + 1),
    ensures
        digits_value(dec_digits(s, p)) >= digits_value(
            s.subrange(start, dec_int_end(s, p)) + s.subrange(dec_int_end(s, p) + 1, j),
        ),
{
    let e1 = dec_int_end(s, p);
    lemma_digit_run_end_bounds(s, start);
    lemma_digit_run_end_bounds(s, e1 + 1);
    let pre = s.subrange(start, e1) + s.subrange(e1 + 1, j);
    assert(pre.is_prefix_of(dec_digits(s, p))) by {
        assert(pre =~= dec_digits(s, p).subrange(0, pre.len() as int));
    }
    lemma_digits_value_monotone(pre, dec_digits(s, p));
}

/// A whitespace byte: space, tab, carriage return, or line feed.
pub open spec fn is_multispace(b: u8) -> bool {
    b == 32 || b == 9 || b == 13 || b == 10
}

/// End of the whitespace run starting at `p`.
pub open spec fn ws_end(s: Seq<u8>, p: int) -> int
    decreases s.len() - p,
{
    if 0 <= p < s.len() && is_multispace(s[p]) {
        ws_end(s, p + 1)
    } else {
        p
    }
}

pub proof fn lemma_ws_end_bounds(s: Seq<u8>, p: int)
    requires
        0 <= p <= s.len(),
    ensures
        p <= ws_end(s, p) <= s.len(),
        ws_end(s, p) < s.len() ==> !is_multispace(s[ws_end(s, p)]),
    decreases s.len() - p,
{
    if p < s.len() && is_multispace(s[p]) {
        lemma_ws_end_bounds(s, p + 1);
    }
}

/// Skips the whitespace run at `pos`.
#[verifier::loop_isolation(false)]
pub fn skip_multispace(i: &[u8], pos: usize) -> (r: usize)
    requires
        pos <= i@.len(),
    ensures
        r == ws_end(i@, pos as int),
        pos <= r <= i@.len(),
{
    proof {
        lemma_ws_end_bounds(i@, pos as int);
    }
    let mut k: usize = pos;
    while k < i.len() && (i[k] == 32 || i[k] == 9 || i[k] == 13 || i[k] == 10)
        invariant
            pos <= k <= i@.len(),
            ws_end(i@, pos as int) == ws_end(i@, k as int),
        decreases i@.len() - k,
    {
        k = k + 1;
    }
    k
}

/// End of the token starting at `p`: the first space byte at or after it.
/// Tokens are delimited by plain spaces alone.
pub open spec fn token_end(s: Seq<u8>, p: int) -> int
    decreases s.len() - p,
{
    if 0 <= p < s.len() && s[p] != 32 {
        token_end(s, p + 1)
    } else {
        p
    }
}

pub proof fn lemma_token_end_bounds(s: Seq<u8>, p: int)
    requires
        0 <= p <= s.len(),
    ensures
        p <= token_end(s, p) <= s.len(),
        token_end(s, p) < s.len() ==> s[token_end(s, p)] == 32,
    decreases s.len() - p,
{
    if p < s.len() && s[p] != 32 {
        lemma_token_end_bounds(s, p + 1);
    }
}

/// Finds the end of the token at `pos`.
#[verifier::loop_isolation(false)]
pub fn find_token_end(i: &[u8], pos: usize) -> (r: usize)
    requires
        pos <= i@.len(),
    ensures
        r == token_end(i@, pos as int),
        pos <= r <= i@.len(),
{
    proof {
        lemma_token_end_bounds(i@, pos as int);
    }
    let mut k: usize = pos;
    while k < i.len() && i[k] != 32
        invariant
            pos <= k <= i@.len(),
            token_end(i@, pos as int) == token_end(i@, k as int),
        decreases i@.len() - k,
    {
        k = k + 1;
    }
    k
}

/// First occurrence of `b` at or after `p`, or the end of `s`.
pub open spec fn find_byte(s: Seq<u8>, p: int, b: u8) -> int
    decreases s.len() - p,
{
    if 0 <= p < s.len() && s[p] != b {
        find_byte(s, p + 1, b)
    } else {
        p
    }
}

pub proof fn lemma_find_byte_bounds(s: Seq<u8>, p: int, b: u8)
    requires
        0 <= p <= s.len(),
    ensures
        p <= find_byte(s, p, b) <= s.len(),
        find_byte(s, p, b) < s.len() ==> s[find_byte(s, p, b)] == b,
    decreases s.len() - p,
{
    if p < s.len() && s[p] != b {
        lemma_find_byte_bounds(s, p + 1, b);
    }
}

/// Scans for the first occurrence of `b` at or after `pos`.
#[verifier::loop_isolation(false)]
pub fn scan_byte(i: &[u8], pos: usize, b: u8) -> (r: usize)
    requires
        pos <= i@.len(),
    ensures
        r == find_byte(i@, pos as int, b),
        pos <= r <= i@.len(),
{
    proof {
        lemma_find_byte_bounds(i@, pos as int, b);
    }
    let mut k: usize = pos;
    while k < i.len() && i[k] != b
        invariant
            pos <= k <= i@.len(),
            find_byte(i@, pos as int, b) == find_byte(i@, k as int, b),
        decreases i@.len() - k,
    {
        k = k + 1;
    }
    k
}

} // verus!
