//! Byte-to-text helpers: building `String`s from ASCII bytes and the
//! escaped rendering of a raw buffer for display.

use vstd::prelude::*;

verus! {

/// The characters a byte string spells, one character per byte.
pub open spec fn bytes_as_chars(s: Seq<u8>) -> Seq<char> {
    s.map_values(|b: u8| b as char)
}

/// Relies on `String::push`: appends one character to the string.
#[verifier::external_body]
pub(crate) fn push_char(s: &mut String, c: char)
    ensures
        final (s)@ == old(s)@.push(c),
{
    s.push(c);
}

/// Builds the string a byte slice spells, one character per byte.
#[verifier::loop_isolation(false)]
pub fn bytes_to_string(v: &[u8]) -> (r: String)
    ensures
        r@ == bytes_as_chars(v@),
{
    let mut s = String::new();
    let mut k: usize = 0;
    while k < v.len()
        invariant
            k <= v@.len(),
            s@ == bytes_as_chars(v@.subrange(0, k as int)),
        decreases v@.len() - k,
    {
        push_char(&mut s, v[k] as char);
        proof {
            assert(bytes_as_chars(v@.subrange(0, k + 1)) =~= bytes_as_chars(
                v@.subrange(0, k as int),
            ).push(v@[k as int] as char));
        }
        k = k + 1;
    }
    proof {
        assert(v@.subrange(0, v@.len() as int) =~= v@);
    }
    s
}

/// The lowercase hex digit for a value below sixteen.
pub open spec fn hex_char(n: u8) -> char {
    if n < 10 {
        (48 + n) as char
    } else {
        (87 + n) as char
    }
}

/// How one byte renders for display: tab, carriage return, line feed,
/// backslash and both quotes escape with a backslash; other printable
/// ASCII stands for itself; the rest render as `\x` and two hex digits.
pub open spec fn escape_byte(b: u8) -> Seq<char> {
    if b == 9 {
        seq!['\\', 't']
    } else if b == 13 {
        seq!['\\', 'r']
    } else if b == 10 {
        seq!['\\', 'n']
    } else if b == 92 {
        seq!['\\', '\\']
    } else if b == 39 {
        seq!['\\', '\'']
    } else if b == 34 {
        seq!['\\', '"']
    } else if 32 <= b && b <= 126 {
        seq![b as char]
    } else {
        seq!['\\', 'x', hex_char(b / 16), hex_char(b % 16)]
    }
}

/// The display rendering of a whole buffer; zero bytes are dropped.
pub open spec fn escape_all(s: Seq<u8>) -> Seq<char>
    decreases s.len(),
{
    if s.len() == 0 {
        Seq::empty()
    } else {
        escape_all(s.drop_last()) + (if s.last() == 0 {
            Seq::empty()
        } else {
            escape_byte(s.last())
        })
    }
}

/// Renders a raw buffer as printable text: zero bytes are dropped and
/// every other byte is escaped as `escape_byte` says.
#[verifier::loop_isolation(false)]
pub fn format_for_display(buf: &[u8]) -> (r: String)
    ensures
        r@ == escape_all(buf@),
{
    let mut s = String::new();
    let mut k: usize = 0;
    while k < buf.len()
        invariant
            k <= buf@.len(),
            s@ == escape_all(buf@.subrange(0, k as int)),
        decreases buf@.len() - k,
    {
        let b = buf[k];
        if b != 0 {
            if b == 9 {
                push_char(&mut s, '\\');
                push_char(&mut s, 't');
            } else if b == 13 {
                push_char(&mut s, '\\');
                push_char(&mut s, 'r');
            } else if b == 10 {
                push_char(&mut s, '\\');
                push_char(&mut s, 'n');
            } else if b == 92 {
                push_char(&mut s, '\\');
                push_char(&mut s, '\\');
            } else if b == 39 {
                push_char(&mut s, '\\');
                push_char(&mut s, '\'');
            } else if b == 34 {
                push_char(&mut s, '\\');
                push_char(&mut s, '"');
            } else if 32 <= b && b <= 126 {
                push_char(&mut s, b as char);
            } else {
                push_char(&mut s, '\\');
                push_char(&mut s, 'x');
                let hi = b / 16;
                let lo = b % 16;
                push_char(&mut s, if hi < 10 { (48 + hi) as char } else { (87 + hi) as char });
                push_char(&mut s, if lo < 10 { (48 + lo) as char } else { (87 + lo) as char });
            }
        }
        proof {
            let pre = buf@.subrange(0, k as int);
            assert(buf@.subrange(0, k + 1).drop_last() =~= pre);
            assert(buf@.subrange(0, k + 1).last() == b);
            if b != 0 {
                assert(s@ =~= escape_all(pre) + escape_byte(b));
            }
        }
        k = k + 1;
    }
    proof {
        assert(buf@.subrange(0, buf@.len() as int) =~= buf@);
    }
    s
}

} // verus!
