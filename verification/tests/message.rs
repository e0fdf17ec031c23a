//! The assembled message and the end-to-end decoder.

use chrono::Datelike;

use ogn_aprs_parser::model::ogn_status_message::OGNStatusMessage;
use ogn_aprs_parser::ogn::aprs_message_types::APRSMessageType;
use ogn_aprs_parser::ogn::ogn_address_type::AddressType;
use ogn_aprs_parser::ogn::ogn_aircraft_types::AircraftType;
use ogn_aprs_parser::ogn::ogn_flags::OGNFlags;
use ogn_aprs_parser::ogn::utils::UtcDate;
use ogn_aprs_parser::parser::parse::aircraft_status_message;
use ogn_aprs_parser::parser::parse::ParseError;
use ogn_aprs_parser::parser::util::Decimal;

const LINE: &[u8] =
    b"ICA3E6DBA>APRS,qAS,Schwend:/112437h4832.45N\\00803.85E^206/080/A=003503 !W75! id213E6DBA -316fpm +0.1rot 9.8dB 6e -4.5kHz gps2x2";

#[test]
fn parsing_aprs_aircraft_status_message_works() {
    let (rest, m) = aircraft_status_message(LINE).unwrap();
    assert_eq!(rest, LINE.len());
    assert_eq!(m.callsign, "ICA3E6DBA");
    assert_eq!(m.path, "APRS,qAS,Schwend");
    assert_eq!(m.aprs_type, '/');
    assert_eq!(m.time.elements, (11, 24, 37));
    assert_eq!(m.time.format, 'h');
    assert_eq!(m.position.latitude.degrees, 48);
    assert_eq!(m.position.latitude.minutes, 32);
    assert_eq!(m.position.latitude.seconds_hundredths, 45);
    assert_eq!(m.position.longitude.degrees, 8);
    assert_eq!(m.position.longitude.minutes, 3);
    assert_eq!(m.position.longitude.seconds_hundredths, 85);
    assert_eq!(m.position.heading, 206);
    assert_eq!(m.position.speed, 80);
    assert_eq!(m.position.altitude, 3503);
    assert_eq!(m.symbol, (b'\\', b'^'));
    assert_eq!(m.extensions.aircraft_id.as_ref().unwrap().meta, 33);
    assert_eq!(m.extensions.aircraft_id.as_ref().unwrap().id, "3E6DBA");
    assert_eq!(m.extensions.altitude_rate, Some(-316));
    assert_eq!(m.extensions.rotation_rate, Some(Decimal { neg: false, mantissa: 1, scale: 1 }));
    assert_eq!(m.extensions.reception, Some(Decimal { neg: false, mantissa: 98, scale: 1 }));
    assert_eq!(m.extensions.bit_errors, Some(6));
    assert_eq!(
        m.extensions.frequency_offset,
        Some(Decimal { neg: true, mantissa: 45, scale: 1 })
    );
    assert!(m.extensions.unknown.is_empty());
}

#[test]
fn creating_status_message_from_string_works() {
    let m = OGNStatusMessage::from_str(LINE, None).unwrap();
    let now = chrono::Utc::now();
    assert_eq!(m.aircraft_id, Some("3E6DBA".to_string()));
    assert_eq!(m.timestamp.year, now.year());
    assert_eq!(m.timestamp.month, now.month());
    assert_eq!(m.timestamp.day, now.day());
    assert_eq!((m.timestamp.hour, m.timestamp.minute, m.timestamp.second), (11, 24, 37));
    assert_eq!(m.aprs_callsign, "ICA3E6DBA");
    assert_eq!(m.aprs_path, "APRS,qAS,Schwend");
    assert_eq!(m.aprs_type, APRSMessageType::PositionWithTimestamp);
    // latitude 48 deg 32.457 min; longitude 8 deg 3.855 min
    assert_eq!(m.position.latitude_num, 174720457);
    assert_eq!(m.position.longitude_num, 28980855);
    assert!((m.position.latitude_num as f64 / 3600000.0 - 48.53346).abs() < 1e-5);
    assert!((m.position.longitude_num as f64 / 3600000.0 - 8.0502375).abs() < 1e-5);
    assert_eq!(m.position.heading, 206);
    assert_eq!(m.position.altitude_micro_m, 1067714400);
    assert!((m.position.altitude_micro_m as f64 / 1e6 - 1067.7144).abs() < 1e-3);
    assert_eq!(m.velocity.horizontal_micro_m_s, 41155556);
    assert!((m.velocity.horizontal_micro_m_s as f64 / 1e6 - 41.155556).abs() < 1e-5);
    assert_eq!(m.velocity.vertical_micro_m_s, Some(-1605280));
    assert_eq!(m.velocity.rotation_micro_rad_s, Some(5236));
    assert_eq!(m.aircraft_type, AircraftType::PoweredAircraft);
    assert_eq!(m.ogn_flags, Some(OGNFlags { stealth_mode: false, no_tracking_mode: false }));
    assert_eq!(m.address_type, Some(AddressType::ICAO));
    assert_eq!(m.reception, Some(Decimal { neg: false, mantissa: 98, scale: 1 }));
}

#[test]
fn end_to_end_decode_with_reference_date() {
    let date = UtcDate { year: 2023, month: 6, day: 15 };
    let m = OGNStatusMessage::from_str(LINE, Some(date)).unwrap();
    assert_eq!(m.aprs_callsign, "ICA3E6DBA");
    assert_eq!(m.aprs_path, "APRS,qAS,Schwend");
    assert_eq!(m.aprs_type, APRSMessageType::PositionWithTimestamp);
    assert_eq!(
        (m.timestamp.year, m.timestamp.month, m.timestamp.day),
        (2023, 6, 15)
    );
    assert_eq!((m.timestamp.hour, m.timestamp.minute, m.timestamp.second), (11, 24, 37));
    assert!((m.position.latitude_num as f64 / 3600000.0 - 48.53346).abs() < 1e-4);
    assert!((m.position.altitude_micro_m as f64 / 1e6 - 1067.71).abs() < 1e-2);
    assert!((m.velocity.horizontal_micro_m_s as f64 / 1e6 - 41.156).abs() < 1e-3);
    assert!((m.velocity.vertical_micro_m_s.unwrap() as f64 / 1e6 - -1.605).abs() < 1e-3);
    assert!((m.velocity.rotation_micro_rad_s.unwrap() as f64 / 1e6 - 0.00524).abs() < 1e-5);
    assert_eq!(m.aircraft_type, AircraftType::PoweredAircraft);
    assert_eq!(m.address_type, Some(AddressType::ICAO));
    assert_eq!(m.ogn_flags, Some(OGNFlags { stealth_mode: false, no_tracking_mode: false }));
    // the timestamp resolves to the expected absolute second
    assert_eq!(m.timestamp.unix_seconds(), 1686828277);
}

#[test]
fn malformed_hemisphere_is_a_position_error_never_a_panic() {
    let line = b"ICA3E6DBA>APRS,qAS,Schwend:/112437h4832.45Y\\00803.85E^206/080/A=003503";
    let r = OGNStatusMessage::from_str(line, None);
    assert!(matches!(r, Err(ParseError::MalformedPosition(_))));
}

#[test]
fn each_failing_stage_reports_its_own_error() {
    // no '>' closing the callsign
    assert!(matches!(
        OGNStatusMessage::from_str(b"ICA3E6DBA APRS", None),
        Err(ParseError::MalformedEnvelope(_))
    ));
    // no ':' closing the path
    assert!(matches!(
        OGNStatusMessage::from_str(b"ICA3E6DBA>APRS,qAS", None),
        Err(ParseError::MalformedEnvelope(_))
    ));
    // a type marker outside {'>', '/'}
    assert!(matches!(
        OGNStatusMessage::from_str(b"ICA3E6DBA>APRS,qAS:x112437h", None),
        Err(ParseError::MalformedEnvelope(_))
    ));
    // a non-digit in the time block
    assert!(matches!(
        OGNStatusMessage::from_str(b"ICA3E6DBA>APRS,qAS:/1124x7h4832.45N", None),
        Err(ParseError::MalformedTimestamp(_))
    ));
    // a grammatical time block naming no real time of day
    assert!(matches!(
        OGNStatusMessage::from_str(
            b"ICA3E6DBA>APRS,qAS,Schwend:/992437h4832.45N\\00803.85E^206/080/A=003503",
            None
        ),
        Err(ParseError::MalformedTimestamp(_))
    ));
    // the line ends where a symbol byte is owed
    assert!(matches!(
        OGNStatusMessage::from_str(b"ICA3E6DBA>APRS,qAS,Schwend:/112437h4832.45N", None),
        Err(ParseError::MalformedSymbol(_))
    ));
    // a bad altitude block
    assert!(matches!(
        OGNStatusMessage::from_str(
            b"ICA3E6DBA>APRS,qAS,Schwend:/112437h4832.45N\\00803.85E^206/080/A=00350",
            None
        ),
        Err(ParseError::MalformedPosition(_))
    ));
}

#[test]
fn message_without_metadata_extension_falls_back_to_the_symbol() {
    let line = b"FLRDD1234>APRS,qAS,XYZ:/112437h4832.45N/00803.85E'206/080/A=003503";
    let m = OGNStatusMessage::from_str(line, Some(UtcDate { year: 2023, month: 6, day: 15 }))
        .unwrap();
    assert_eq!(m.aircraft_id, None);
    assert_eq!(m.aircraft_type, AircraftType::Glider);
    assert_eq!(m.ogn_flags, None);
    assert_eq!(m.address_type, None);
    assert_eq!(m.velocity.vertical_micro_m_s, None);
    assert_eq!(m.velocity.rotation_micro_rad_s, None);
    assert_eq!(m.reception, None);
}
