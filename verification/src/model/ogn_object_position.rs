//! The normalized position: decimal-degree coordinates, heading, and
//! altitude in metric units.

use vstd::prelude::*;

use crate::ogn::utils::degrees_num_with_extra;
use crate::ogn::utils::parsed_degrees_to_decimal;
use crate::ogn::utils::feet_to_m;
use crate::ogn::utils::FOOT_MICRO_M;
use crate::parser::extensions::ParsedPositionPrecision;
use crate::parser::position::ParsedDirection;
use crate::parser::position::ParsedPosition;

verus! {

/// A normalized position.  The coordinates are decimal-degree
/// numerators over `DEGREES_SCALE`, signed by hemisphere; the altitude
/// is in micrometres.
#[derive(Debug, PartialEq, Eq, Structural, Clone, Copy)]
pub struct OGNObjectPosition {
    pub latitude_num: i64,
    pub longitude_num: i64,
    pub heading: u32,
    pub altitude_micro_m: u64,
}

impl OGNObjectPosition {
    /// Normalizes a parsed position: merges the sub-hundredth
    /// precision correction, when present, into each coordinate's
    /// fractional minutes before conversion, and converts the altitude
    /// from feet to micrometres.
    pub fn from(parsed: &ParsedPosition, precision: Option<ParsedPositionPrecision>) -> (r: Self)
        requires
            parsed.wf(),
            precision matches Some(p) ==> p.latitude <= 9 && p.longitude <= 9,
        ensures
            ({
                let extra_lat = match precision {
                    Some(p) => p.latitude as int,
                    None => 0,
                };
                let extra_lon = match precision {
                    Some(p) => p.longitude as int,
                    None => 0,
                };
                &&& r.latitude_num == degrees_num_with_extra(parsed.latitude, extra_lat)
                &&& r.longitude_num == degrees_num_with_extra(parsed.longitude, extra_lon)
                &&& r.heading == parsed.heading
                &&& r.altitude_micro_m == parsed.altitude * FOOT_MICRO_M
            }),
    {
        let mut latitude_num = parsed_degrees_to_decimal(&parsed.latitude);
        let mut longitude_num = parsed_degrees_to_decimal(&parsed.longitude);
        if let Some(p) = precision {
            let lat_south = match parsed.latitude.direction {
                ParsedDirection::South => true,
                ParsedDirection::West => true,
                _ => false,
            };
            if lat_south {
                latitude_num = latitude_num - p.latitude as i64;
            } else {
                latitude_num = latitude_num + p.latitude as i64;
            }
            let lon_west = match parsed.longitude.direction {
                ParsedDirection::South => true,
                ParsedDirection::West => true,
                _ => false,
            };
            if lon_west {
                longitude_num = longitude_num - p.longitude as i64;
            } else {
                longitude_num = longitude_num + p.longitude as i64;
            }
        }
        OGNObjectPosition {
            latitude_num,
            longitude_num,
            heading: parsed.heading,
            altitude_micro_m: feet_to_m(parsed.altitude),
        }
    }
}

} // verus!
