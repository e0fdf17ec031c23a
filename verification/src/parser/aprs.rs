//! Envelope grammar: sender callsign, routing path, and the
//! message-type marker.

use vstd::prelude::*;

use crate::parser::util::find_byte;
use crate::util::bytes_as_chars;
use crate::util::bytes_to_string;

verus! {

/// Reads everything before the first `>` as the sender callsign and
/// consumes the `>` itself; fails when no `>` follows.
pub fn parse_callsign(i: &[u8], pos: usize) -> (r: Option<(usize, String)>)
    requires
        pos <= i@.len(),
    ensures
        ({
            let g = find_byte(i@, pos as int, 62);
            if g < i@.len() {
                r matches Some((p, s)) && p == g + 1 && s@ == bytes_as_chars(
                    i@.subrange(pos as int, g),
                )
            } else {
                r is None
            }
        }),
        r matches Some((p, s)) ==> pos < p <= i@.len(),
{
    let g = crate::parser::util::scan_byte(i, pos, 62);
    if g < i.len() {
        let s = bytes_to_string(&i[pos..g]);
        Some((g + 1, s))
    } else {
        None
    }
}

/// Reads everything before the first `:` as the routing path and
/// consumes the `:` itself; fails when no `:` follows.
pub fn parse_path(i: &[u8], pos: usize) -> (r: Option<(usize, String)>)
    requires
        pos <= i@.len(),
    ensures
        ({
            let g = find_byte(i@, pos as int, 58);
            if g < i@.len() {
                r matches Some((p, s)) && p == g + 1 && s@ == bytes_as_chars(
                    i@.subrange(pos as int, g),
                )
            } else {
                r is None
            }
        }),
        r matches Some((p, s)) ==> pos < p <= i@.len(),
{
    let g = crate::parser::util::scan_byte(i, pos, 58);
    if g < i.len() {
        let s = bytes_to_string(&i[pos..g]);
        Some((g + 1, s))
    } else {
        None
    }
}

/// The byte is a recognized message-type marker.
pub open spec fn is_msg_type(b: u8) -> bool {
    b == 62 || b == 47
}

/// Reads the message-type marker, one character from `{'>', '/'}`; any
/// other character is a hard failure.
pub fn parse_msg_type(i: &[u8], pos: usize) -> (r: Option<(usize, char)>)
    requires
        pos <= i@.len(),
    ensures
        pos < i@.len() && is_msg_type(i@[pos as int]) ==> r == Some(
            ((pos + 1) as usize, i@[pos as int] as char),
        ),
        !(pos < i@.len() && is_msg_type(i@[pos as int])) ==> r is None,
{
    if pos < i.len() && (i[pos] == 62 || i[pos] == 47) {
        Some((pos + 1, i[pos] as char))
    } else {
        None
    }
}

} // verus!
