//! The telemetry-sink projection of a decoded message: the tag set a
//! stored point carries.  Assembling the tags is pure decision logic
//! and lives here; writing the point anywhere is the caller's affair.

use vstd::prelude::*;

use crate::model::ogn_status_message::OGNStatusMessage;

verus! {

/// How a boolean renders as a tag value.
pub open spec fn bool_name(b: bool) -> Seq<char> {
    if b {
        "true"@
    } else {
        "false"@
    }
}

/// The tag set of a decoded message: callsign, path, the two
/// classification names and the parsed marker always; the aircraft
/// identifier, the two privacy flags and the address-type name only
/// when the message carries them.
pub open spec fn spec_point_tags(p: OGNStatusMessage) -> Seq<(Seq<char>, Seq<char>)> {
    seq![
        ("aprs_callsign"@, p.aprs_callsign@),
        ("aprs_path"@, p.aprs_path@),
        ("aprs_type"@, p.aprs_type.spec_name()),
        ("aircraft_type"@, p.aircraft_type.spec_name()),
        ("parsed"@, "true"@),
    ] + (match p.aircraft_id {
        Some(id) => seq![("aircraft_id"@, id@)],
        None => Seq::empty(),
    }) + (match p.ogn_flags {
        Some(f) => seq![
            ("stealth"@, bool_name(f.stealth_mode)),
            ("no_track"@, bool_name(f.no_tracking_mode)),
        ],
        None => Seq::empty(),
    }) + (match p.address_type {
        Some(a) => seq![("addr_type"@, a.spec_name())],
        None => Seq::empty(),
    })
}

/// Renders a boolean as a tag value.
fn bool_string(b: bool) -> (r: String)
    ensures
        r@ == bool_name(b),
{
    if b {
        String::from_str("true")
    } else {
        String::from_str("false")
    }
}

/// Builds the name/value tag pairs a stored point carries for one
/// decoded message, exactly as `spec_point_tags` lists them.
pub fn aprs_point_tags(p: &OGNStatusMessage) -> (r: Vec<(String, String)>)
    ensures
        r@.len() == spec_point_tags(*p).len(),
        forall|k: int|
            0 <= k < r@.len() ==> (#[trigger] r@[k]).0@ == spec_point_tags(*p)[k].0 && r@[k].1@
                == spec_point_tags(*p)[k].1,
{
    let mut tags: Vec<(String, String)> = Vec::new();
    tags.push((String::from_str("aprs_callsign"), p.aprs_callsign.clone()));
    tags.push((String::from_str("aprs_path"), p.aprs_path.clone()));
    tags.push((String::from_str("aprs_type"), p.aprs_type.name()));
    tags.push((String::from_str("aircraft_type"), p.aircraft_type.name()));
    tags.push((String::from_str("parsed"), String::from_str("true")));
    match &p.aircraft_id {
        Some(id) => {
            tags.push((String::from_str("aircraft_id"), id.clone()));
        },
        None => {},
    }
    match &p.ogn_flags {
        Some(f) => {
            tags.push((String::from_str("stealth"), bool_string(f.stealth_mode)));
            tags.push((String::from_str("no_track"), bool_string(f.no_tracking_mode)));
        },
        None => {},
    }
    match &p.address_type {
        Some(a) => {
            tags.push((String::from_str("addr_type"), a.name()));
        },
        None => {},
    }
    tags
}

} // verus!
