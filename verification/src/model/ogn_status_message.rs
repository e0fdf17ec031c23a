//! The caller-facing decoded message: one aircraft observation with
//! identity, classification, normalized position and velocity.

use vstd::prelude::*;

use crate::ogn::aprs_message_types::APRSMessageType;
use crate::ogn::ogn_address_type::AddressType;
use crate::ogn::ogn_aircraft_types::AircraftType;
use crate::ogn::ogn_flags::OGNFlags;
use crate::ogn::utils::degrees_num_with_extra;
use crate::ogn::utils::parsed_time_to_datetime;
use crate::ogn::utils::spec_knots_micro_m_s;
use crate::ogn::utils::spec_turn_micro_rad_s;
use crate::ogn::utils::FOOT_MICRO_M;
use crate::ogn::utils::FPM_MICRO_M_S;
use crate::ogn::utils::UtcDate;
use crate::ogn::utils::UtcTimestamp;
use crate::model::ogn_object_position::OGNObjectPosition;
use crate::model::ogn_object_velocity::OGNObjectVelocity;
use crate::parser::extensions::ext_tokens;
use crate::parser::extensions::lemma_last_of_kind_is_kind;
use crate::parser::extensions::last_of_kind;
use crate::parser::extensions::ExtKind;
use crate::parser::parse::aircraft_status_message;
use crate::parser::parse::msg_err;
use crate::parser::parse::msg_matches;
use crate::parser::parse::msg_ok;
use crate::parser::parse::msg_time_at;
use crate::parser::parse::ParseError;
use crate::parser::parse::ParsedAPRSMessage;
use crate::parser::time::time_hour;
use crate::parser::time::time_minute;
use crate::parser::time::time_second;
use crate::parser::util::scan_byte;
use crate::parser::util::Decimal;

verus! {

/// One decoded aircraft observation.
#[derive(Debug, PartialEq, Clone)]
pub struct OGNStatusMessage {
    pub aircraft_id: Option<String>,
    pub timestamp: UtcTimestamp,
    pub aprs_callsign: String,
    pub aprs_path: String,
    pub aprs_type: APRSMessageType,
    pub position: OGNObjectPosition,
    pub velocity: OGNObjectVelocity,
    pub aircraft_type: AircraftType,
    pub ogn_flags: Option<OGNFlags>,
    pub address_type: Option<AddressType>,
    pub reception: Option<Decimal>,
}

/// What the normalizer accepts: time-of-day fields in range, a real
/// reference date if one is given, and extension values within the
/// bounds the grammar guarantees.
pub open spec fn from_parsed_req(parsed: ParsedAPRSMessage, date: Option<UtcDate>) -> bool {
    &&& parsed.time.elements.0 <= 23
    &&& parsed.time.elements.1 <= 59
    &&& parsed.time.elements.2 <= 59
    &&& (date matches Some(d) ==> d.wf())
    &&& parsed.position.wf()
    &&& (parsed.extensions.position_precision matches Some(p) ==> p.latitude <= 9 && p.longitude
        <= 9)
    &&& (parsed.extensions.altitude_rate matches Some(a) ==> -1000000000000 < a < 1000000000000)
    &&& (parsed.extensions.rotation_rate matches Some(d) ==> d.wf())
}

/// How a normalized record relates to the parsed report it came from:
/// identity and classification from the metadata byte when present and
/// from the symbol pair when not, the timestamp resolved against the
/// reference date, the precision-merged coordinates, and the
/// unit-converted velocity.
pub open spec fn normalizes(
    r: OGNStatusMessage,
    parsed: ParsedAPRSMessage,
    date: Option<UtcDate>,
) -> bool {
    &&& match parsed.extensions.aircraft_id {
        Some(a) => {
            &&& r.aircraft_id matches Some(id) && id@ == a.id@
            &&& r.aircraft_type == AircraftType::spec_from_meta(a.meta as usize)
            &&& r.ogn_flags == Some(OGNFlags::spec_from(a.meta as usize))
            &&& r.address_type == Some(AddressType::spec_from(a.meta as usize))
        },
        None => {
            &&& r.aircraft_id is None
            &&& r.aircraft_type == AircraftType::spec_from_symbol(parsed.symbol)
            &&& r.ogn_flags is None
            &&& r.address_type is None
        },
    }
    &&& r.aprs_callsign@ == parsed.callsign@
    &&& r.aprs_path@ == parsed.path@
    &&& r.aprs_type == APRSMessageType::spec_from(parsed.aprs_type)
    &&& r.timestamp.hour == parsed.time.elements.0
    &&& r.timestamp.minute == parsed.time.elements.1
    &&& r.timestamp.second == parsed.time.elements.2
    &&& (date matches Some(d) ==> r.timestamp.year == d.year && r.timestamp.month == d.month
        && r.timestamp.day == d.day)
    &&& r.timestamp.wf()
    &&& ({
        let extra_lat = match parsed.extensions.position_precision {
            Some(p) => p.latitude as int,
            None => 0,
        };
        let extra_lon = match parsed.extensions.position_precision {
            Some(p) => p.longitude as int,
            None => 0,
        };
        &&& r.position.latitude_num == degrees_num_with_extra(parsed.position.latitude, extra_lat)
        &&& r.position.longitude_num == degrees_num_with_extra(
            parsed.position.longitude,
            extra_lon,
        )
        &&& r.position.heading == parsed.position.heading
        &&& r.position.altitude_micro_m == parsed.position.altitude * FOOT_MICRO_M
    })
    &&& r.velocity.horizontal_micro_m_s == spec_knots_micro_m_s(parsed.position.speed)
    &&& match (r.velocity.vertical_micro_m_s, parsed.extensions.altitude_rate) {
        (Some(v), Some(a)) => v == a * FPM_MICRO_M_S,
        (None, None) => true,
        _ => false,
    }
    &&& match (r.velocity.rotation_micro_rad_s, parsed.extensions.rotation_rate) {
        (Some(v), Some(d)) => v == spec_turn_micro_rad_s(d),
        (None, None) => true,
        _ => false,
    }
    &&& r.reception == parsed.extensions.reception
}

/// The hour, minute and second fields name a real time of day.
pub open spec fn msg_time_valid(s: Seq<u8>) -> bool {
    time_hour(s, msg_time_at(s)) <= 23 && time_minute(s, msg_time_at(s)) <= 59 && time_second(
        s,
        msg_time_at(s),
    ) <= 59
}

impl OGNStatusMessage {
    /// Normalizes a parsed report.  When the metadata extension is
    /// present it supplies the identifier, aircraft type, privacy
    /// flags and address type; otherwise the symbol pair classifies
    /// the aircraft and the metadata-borne fields stay unset.  The
    /// timestamp takes the reference date, or the current UTC date
    /// when none is supplied, to place the time of day.
    pub fn from_parsed(parsed: ParsedAPRSMessage, date: Option<UtcDate>) -> (r: Self)
        requires
            from_parsed_req(parsed, date),
        ensures
            normalizes(r, parsed, date),
    {
        let (aircraft_id, aircraft_type, ogn_flags, address_type) = match &parsed
            .extensions
            .aircraft_id {
            Some(parsed_aircraft_id) => (
                Some(parsed_aircraft_id.id.clone()),
                AircraftType::from_meta(parsed_aircraft_id.meta as usize),
                Some(OGNFlags::from(parsed_aircraft_id.meta as usize)),
                Some(AddressType::from(parsed_aircraft_id.meta as usize)),
            ),
            None => (None, AircraftType::from_aprs_symbol(parsed.symbol), None, None),
        };
        let timestamp = parsed_time_to_datetime(&parsed.time, date);
        let position = OGNObjectPosition::from(
            &parsed.position,
            parsed.extensions.position_precision,
        );
        let velocity = OGNObjectVelocity::new(
            parsed.position.speed,
            parsed.extensions.altitude_rate,
            parsed.extensions.rotation_rate,
        );
        OGNStatusMessage {
            aircraft_id,
            timestamp,
            aprs_callsign: parsed.callsign,
            aprs_path: parsed.path,
            aprs_type: APRSMessageType::from(parsed.aprs_type),
            position,
            velocity,
            aircraft_type,
            ogn_flags,
            address_type,
            reception: parsed.extensions.reception,
        }
    }

    /// Decodes one line.  A line the grammar rejects gives the first
    /// stage's error; a grammatical line whose time of day is out of
    /// range is a timestamp error; every other line decodes to one
    /// normalized record, built from the parsed report exactly as
    /// `msg_matches` and `normalizes` say.
    pub fn from_str(i: &[u8], date: Option<UtcDate>) -> (r: Result<OGNStatusMessage, ParseError>)
        requires
            date matches Some(d) ==> d.wf(),
        ensures
            !msg_ok(i@) ==> r == Err::<OGNStatusMessage, ParseError>(msg_err(i@)),
            msg_ok(i@) && !msg_time_valid(i@) ==> r == Err::<OGNStatusMessage, ParseError>(
                ParseError::MalformedTimestamp(msg_time_at(i@) as usize),
            ),
            msg_ok(i@) && msg_time_valid(i@) ==> (r matches Ok(m) && (exists|
                parsed: ParsedAPRSMessage,
                rest: usize,
            |
                #[trigger] msg_matches(parsed, rest, i@) && normalizes(m, parsed, date))),
    {
        let n = i.len();
        proof {
            assert(i@.len() == n);
        }
        let (rest, parsed) = match aircraft_status_message(i) {
            Ok(x) => x,
            Err(e) => {
                return Err(e);
            },
        };
        if parsed.time.elements.0 > 23 || parsed.time.elements.1 > 59 || parsed.time.elements.2
            > 59 {
            let g = scan_byte(i, 0, 62);
            let c = scan_byte(i, g + 1, 58);
            return Err(ParseError::MalformedTimestamp(c + 2));
        }
        proof {
            if msg_ok(i@) {
                let ts = ext_tokens(
                    i@,
                    crate::parser::position::position_and_type_outcome(
                        i@,
                        crate::parser::parse::msg_position_at(i@),
                    )->Ok_0.0 as int,
                );
                lemma_last_of_kind_is_kind(ts, ExtKind::Precision);
                lemma_last_of_kind_is_kind(ts, ExtKind::AltitudeRate);
                lemma_last_of_kind_is_kind(ts, ExtKind::RotationRate);
                if last_of_kind(ts, ExtKind::AltitudeRate) is Some {
                    let t = last_of_kind(ts, ExtKind::AltitudeRate)->Some_0;
                    crate::parser::util::lemma_dec_value_wf(t, 0);
                    crate::parser::util::lemma_round_bounded(
                        crate::parser::util::dec_value(t, 0),
                    );
                }
                if last_of_kind(ts, ExtKind::RotationRate) is Some {
                    let t = last_of_kind(ts, ExtKind::RotationRate)->Some_0;
                    crate::parser::util::lemma_dec_value_wf(t, 0);
                }
            }
        }
        let m = OGNStatusMessage::from_parsed(parsed, date);
        Ok(m)
    }
}

} // verus!
