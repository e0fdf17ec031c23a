//! Timestamp grammar: three two-digit fields and a format marker.

use vstd::prelude::*;

use crate::parser::util::digits_value;
use crate::parser::util::fixed_digits_ok;
use crate::parser::util::fixed_digits_value;
use crate::parser::util::two_digit_number;

verus! {

/// A raw protocol timestamp: hour, minute, second, and the one-character
/// time-format convention (`h`, `z` or `/`), kept but not interpreted.
#[derive(Debug, PartialEq, Eq, Clone, Copy)]
pub struct ParsedTime {
    pub elements: (u32, u32, u32),
    pub format: char,
}

/// The byte is a recognized time-format marker.
pub open spec fn is_time_format(b: u8) -> bool {
    b == 104 || b == 122 || b == 47
}

/// Six digits and a format marker stand at `p`.
pub open spec fn time_ok(s: Seq<u8>, p: int) -> bool {
    fixed_digits_ok(s, p, 2) && fixed_digits_ok(s, p + 2, 2) && fixed_digits_ok(s, p + 4, 2) && p
        + 7 <= s.len() && is_time_format(s[p + 6])
}

/// The hour field at `p`.
pub open spec fn time_hour(s: Seq<u8>, p: int) -> nat {
    fixed_digits_value(s, p, 2)
}

/// The minute field at `p`.
pub open spec fn time_minute(s: Seq<u8>, p: int) -> nat {
    fixed_digits_value(s, p + 2, 2)
}

/// The second field at `p`.
pub open spec fn time_second(s: Seq<u8>, p: int) -> nat {
    fixed_digits_value(s, p + 4, 2)
}

/// Reads a timestamp: two digits each of hour, minute and second, then
/// exactly one format marker from `{'h', 'z', '/'}`.
pub fn parse_time(i: &[u8], pos: usize) -> (r: Option<(usize, ParsedTime)>)
    requires
        pos <= i@.len(),
    ensures
        time_ok(i@, pos as int) ==> r == Some(
            (
                (pos + 7) as usize,
                ParsedTime {
                    elements: (
                        time_hour(i@, pos as int) as u32,
                        time_minute(i@, pos as int) as u32,
                        time_second(i@, pos as int) as u32,
                    ),
                    format: i@[pos + 6] as char,
                },
            ),
        ),
        !time_ok(i@, pos as int) ==> r is None,
        r matches Some((p, t)) ==> pos < p <= i@.len() && t.elements.0 < 100 && t.elements.1 < 100
            && t.elements.2 < 100,
{
    proof {
        crate::parser::util::lemma_pow10_bounds();
    }
    if i.len() - pos < 7 {
        return None;
    }
    let (p1, h) = match two_digit_number(i, pos) {
        Some(x) => x,
        None => {
            return None;
        },
    };
    let (p2, m) = match two_digit_number(i, p1) {
        Some(x) => x,
        None => {
            return None;
        },
    };
    let (p3, s) = match two_digit_number(i, p2) {
        Some(x) => x,
        None => {
            return None;
        },
    };
    if p3 < i.len() && (i[p3] == 104 || i[p3] == 122 || i[p3] == 47) {
        proof {
            crate::parser::util::lemma_digits_value_bound(i@.subrange(pos as int, pos + 2));
            crate::parser::util::lemma_digits_value_bound(i@.subrange(pos + 2, pos + 4));
            crate::parser::util::lemma_digits_value_bound(i@.subrange(pos + 4, pos + 6));
        }
        Some((p3 + 1, ParsedTime { elements: (h, m, s), format: i[p3] as char }))
    } else {
        None
    }
}

/// The two-digit rendering of a number below one hundred.
pub open spec fn render2(n: nat) -> Seq<u8> {
    seq![(48 + n / 10) as u8, (48 + n % 10) as u8]
}

/// The timestamp reader round-trips every valid hour/minute/second
/// triple: rendering the three fields as six digits, appending a format
/// marker, and reading the result gives the three fields back exactly.
pub proof fn lemma_time_reader_round_trip(h: nat, m: nat, sec: nat, fmt: u8)
    requires
        h < 100,
        m < 100,
        sec < 100,
        is_time_format(fmt),
    ensures
        ({
            let s = render2(h) + render2(m) + render2(sec) + seq![fmt];
            time_ok(s, 0) && time_hour(s, 0) == h && time_minute(s, 0) == m && time_second(s, 0)
                == sec
        }),
{
    let s = render2(h) + render2(m) + render2(sec) + seq![fmt];
    assert(s.len() == 7);
    lemma_render2_reads_back(h, s, 0);
    lemma_render2_reads_back(m, s, 2);
    lemma_render2_reads_back(sec, s, 4);
}

/// Two rendered digits placed at `p` read back as the number rendered.
proof fn lemma_render2_reads_back(n: nat, s: Seq<u8>, p: int)
    requires
        n < 100,
        0 <= p,
        p + 2 <= s.len(),
        s[p] == 48 + n / 10,
        s[p + 1] == 48 + n % 10,
    ensures
        fixed_digits_ok(s, p, 2),
        fixed_digits_value(s, p, 2) == n,
{
    let t = s.subrange(p, p + 2);
    let a = s[p];
    let b = s[p + 1];
    assert(Seq::<u8>::empty().push(a) =~= seq![a]);
    crate::parser::util::lemma_digits_value_push(Seq::<u8>::empty(), a);
    assert(t =~= seq![a].push(b));
    crate::parser::util::lemma_digits_value_push(seq![a], b);
    assert(digits_value(t) == (n / 10) * 10 + n % 10);
}

} // verus!
