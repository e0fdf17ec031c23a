//! The assembled message: envelope, timestamp, position and extensions
//! in sequence, and the parse failures the stages can raise.

use vstd::prelude::*;

use crate::parser::aprs::is_msg_type;
use crate::parser::aprs::parse_callsign;
use crate::parser::aprs::parse_msg_type;
use crate::parser::aprs::parse_path;
use crate::parser::extensions::ext_fields_match;
use crate::parser::extensions::ext_rest;
use crate::parser::extensions::ext_tokens;
use crate::parser::extensions::parse_extensions;
use crate::parser::extensions::ParsedExtensions;
use crate::parser::position::parse_position_and_type;
use crate::parser::position::position_and_type_outcome;
use crate::parser::position::ParsedPosition;
use crate::parser::position::ParsedSymbol;
use crate::parser::time::parse_time;
use crate::parser::time::time_hour;
use crate::parser::time::time_minute;
use crate::parser::time::time_ok;
use crate::parser::time::time_second;
use crate::parser::time::ParsedTime;
use crate::parser::util::find_byte;
use crate::util::bytes_as_chars;

verus! {

/// Why a line failed to decode.  Each variant carries the byte offset of
/// the field that failed, which identifies the unconsumed remainder.
#[derive(Debug, PartialEq, Eq, Structural, Clone, Copy)]
pub enum ParseError {
    /// Bad sender, path, or message-type marker.
    MalformedEnvelope(usize),
    /// Bad hour/minute/second block or format marker.
    MalformedTimestamp(usize),
    /// Bad degrees, minutes, hemisphere, heading, speed, or altitude.
    MalformedPosition(usize),
    /// The line ended where a symbol byte was owed.
    MalformedSymbol(usize),
}

/// One whole parsed report: the grammar's terminal product, before any
/// unit conversion.
#[derive(Debug)]
pub struct ParsedAPRSMessage {
    pub callsign: String,
    pub path: String,
    pub aprs_type: char,
    pub time: ParsedTime,
    pub position: ParsedPosition,
    pub symbol: ParsedSymbol,
    pub extensions: ParsedExtensions,
}

/// Index of the `>` closing the callsign.
pub open spec fn msg_gt(s: Seq<u8>) -> int {
    find_byte(s, 0, 62)
}

/// Index of the `:` closing the routing path.
pub open spec fn msg_colon(s: Seq<u8>) -> int {
    find_byte(s, msg_gt(s) + 1, 58)
}

/// The envelope is well-formed: a `>`, then a `:`, then a recognized
/// message-type marker.
pub open spec fn msg_envelope_ok(s: Seq<u8>) -> bool {
    msg_gt(s) < s.len() && msg_colon(s) < s.len() && msg_colon(s) + 1 < s.len() && is_msg_type(
        s[msg_colon(s) + 1],
    )
}

/// Where the timestamp starts: right after the type marker.
pub open spec fn msg_time_at(s: Seq<u8>) -> int {
    msg_colon(s) + 2
}

/// Where the position block starts: right after the timestamp.
pub open spec fn msg_position_at(s: Seq<u8>) -> int {
    msg_colon(s) + 9
}

/// The whole mandatory part of the grammar matches.
pub open spec fn msg_ok(s: Seq<u8>) -> bool {
    msg_envelope_ok(s) && time_ok(s, msg_time_at(s)) && position_and_type_outcome(
        s,
        msg_position_at(s),
    ) is Ok
}

/// The failure a malformed line reports: the first stage that fails,
/// with the offset where it failed.
pub open spec fn msg_err(s: Seq<u8>) -> ParseError {
    if msg_gt(s) >= s.len() {
        ParseError::MalformedEnvelope(0)
    } else if msg_colon(s) >= s.len() {
        ParseError::MalformedEnvelope((msg_gt(s) + 1) as usize)
    } else if !(msg_colon(s) + 1 < s.len() && is_msg_type(s[msg_colon(s) + 1])) {
        ParseError::MalformedEnvelope((msg_colon(s) + 1) as usize)
    } else if !time_ok(s, msg_time_at(s)) {
        ParseError::MalformedTimestamp(msg_time_at(s) as usize)
    } else {
        position_and_type_outcome(s, msg_position_at(s))->Err_0
    }
}

/// The parsed report spells out exactly what the line holds, and
/// `rest` is where the extension stage stopped.
pub open spec fn msg_matches(m: ParsedAPRSMessage, rest: usize, s: Seq<u8>) -> bool {
    let pos_out = position_and_type_outcome(s, msg_position_at(s));
    &&& m.callsign@ == bytes_as_chars(s.subrange(0, msg_gt(s)))
    &&& m.path@ == bytes_as_chars(s.subrange(msg_gt(s) + 1, msg_colon(s)))
    &&& m.aprs_type == s[msg_colon(s) + 1] as char
    &&& m.time.elements.0 == time_hour(s, msg_time_at(s))
    &&& m.time.elements.1 == time_minute(s, msg_time_at(s))
    &&& m.time.elements.2 == time_second(s, msg_time_at(s))
    &&& m.time.format == s[msg_time_at(s) + 6] as char
    &&& m.position == pos_out->Ok_0.1.0
    &&& m.symbol == pos_out->Ok_0.1.1
    &&& ext_fields_match(m.extensions, ext_tokens(s, pos_out->Ok_0.0 as int))
    &&& rest == ext_rest(s, pos_out->Ok_0.0 as int)
}

/// Reads one whole aircraft status report: callsign, path, type marker,
/// timestamp, position block, then the extension tail.  Fails on the
/// first malformed mandatory stage; the extension stage cannot fail,
/// and whatever it leaves unconsumed is returned with the message.
pub fn aircraft_status_message(i: &[u8]) -> (r: Result<(usize, ParsedAPRSMessage), ParseError>)
    ensures
        !msg_ok(i@) ==> r == Err::<(usize, ParsedAPRSMessage), ParseError>(msg_err(i@)),
        msg_ok(i@) ==> (r matches Ok((rest, m)) && msg_matches(m, rest, i@)),
        r matches Ok((_, m)) ==> m.position.wf(),
{
    let n = i.len();
    proof {
        assert(i@.len() == n);
    }
    let (p1, callsign) = match parse_callsign(i, 0) {
        Some(x) => x,
        None => {
            return Err(ParseError::MalformedEnvelope(0));
        },
    };
    let (p2, path) = match parse_path(i, p1) {
        Some(x) => x,
        None => {
            return Err(ParseError::MalformedEnvelope(p1));
        },
    };
    let (p3, aprs_type) = match parse_msg_type(i, p2) {
        Some(x) => x,
        None => {
            return Err(ParseError::MalformedEnvelope(p2));
        },
    };
    let (p4, time) = match parse_time(i, p3) {
        Some(x) => x,
        None => {
            return Err(ParseError::MalformedTimestamp(p3));
        },
    };
    proof {
        crate::parser::util::lemma_pow10_bounds();
        crate::parser::util::lemma_digits_value_bound(i@.subrange(p3 as int, p3 + 2));
        crate::parser::util::lemma_digits_value_bound(i@.subrange(p3 + 2, p3 + 4));
        crate::parser::util::lemma_digits_value_bound(i@.subrange(p3 + 4, p3 + 6));
    }
    let (p5, (position, symbol)) = match parse_position_and_type(i, p4) {
        Ok(x) => x,
        Err(e) => {
            return Err(e);
        },
    };
    let (rest, extensions) = parse_extensions(i, p5);
    Ok(
        (
            rest,
            ParsedAPRSMessage { callsign, path, aprs_type, time, position, symbol, extensions },
        ),
    )
}

} // verus!
