//! Metadata decoding, unit conversions, timestamps, and the display
//! and telemetry-tag helpers.

use chrono::Datelike;

use ogn_aprs_parser::influx::aprs_point_tags;
use ogn_aprs_parser::model::ogn_status_message::OGNStatusMessage;
use ogn_aprs_parser::ogn::ogn_address_type::AddressType;
use ogn_aprs_parser::ogn::ogn_aircraft_types::AircraftType;
use ogn_aprs_parser::ogn::ogn_flags::OGNFlags;
use ogn_aprs_parser::ogn::utils::feet_to_m;
use ogn_aprs_parser::ogn::utils::fpm_to_m_s;
use ogn_aprs_parser::ogn::utils::knots_to_m_s;
use ogn_aprs_parser::ogn::utils::parsed_degrees_to_decimal;
use ogn_aprs_parser::ogn::utils::parsed_time_to_datetime;
use ogn_aprs_parser::ogn::utils::turn_rate_to_rad_s;
use ogn_aprs_parser::ogn::utils::UtcDate;
use ogn_aprs_parser::ogn::utils::UtcTimestamp;
use ogn_aprs_parser::parser::position::ParsedDegrees;
use ogn_aprs_parser::parser::position::ParsedDirection;
use ogn_aprs_parser::parser::time::ParsedTime;
use ogn_aprs_parser::parser::util::Decimal;
use ogn_aprs_parser::util::format_for_display;

#[test]
fn address_type_is_decoded_properly() {
    let unknown = 0b11011100;
    let icao = 0b11111101;
    let flarm = 0b10111110;
    let ogn = 0b00000011;
    assert_eq!(AddressType::from(unknown), AddressType::Unknown);
    assert_eq!(AddressType::from(icao), AddressType::ICAO);
    assert_eq!(AddressType::from(flarm), AddressType::FLARM);
    assert_eq!(AddressType::from(ogn), AddressType::OGN);
}

#[test]
fn ogn_flags_are_decoded_correctly() {
    let both = 0b11011100;
    let track = 0b01011110;
    let stealth = 0b10111110;
    let none = 0b00000011;
    assert_eq!(OGNFlags::from(both), OGNFlags { no_tracking_mode: true, stealth_mode: true });
    assert_eq!(OGNFlags::from(track), OGNFlags { no_tracking_mode: true, stealth_mode: false });
    assert_eq!(OGNFlags::from(stealth), OGNFlags { no_tracking_mode: false, stealth_mode: true });
    assert_eq!(OGNFlags::from(none), OGNFlags { no_tracking_mode: false, stealth_mode: false });
}

#[test]
fn aircraft_type_is_decoded_from_bits_2_to_5() {
    assert_eq!(AircraftType::from_meta(0b00000100), AircraftType::Glider);
    assert_eq!(AircraftType::from_meta(0b00100001), AircraftType::PoweredAircraft);
    assert_eq!(AircraftType::from_meta(0b00111100), AircraftType::StaticObject);
    assert_eq!(AircraftType::from_meta(0b00000000), AircraftType::Other);
    // the privacy and address bits never change the aircraft type
    assert_eq!(AircraftType::from_meta(0b11000111), AircraftType::Glider);
}

#[test]
fn aircraft_type_falls_back_to_the_symbol_table() {
    assert_eq!(AircraftType::from_aprs_symbol((b'/', b'z')), AircraftType::Other);
    assert_eq!(AircraftType::from_aprs_symbol((b'/', b'\'')), AircraftType::Glider);
    assert_eq!(AircraftType::from_aprs_symbol((b'/', b'X')), AircraftType::Helicopter);
    assert_eq!(AircraftType::from_aprs_symbol((b'/', b'g')), AircraftType::Parachute);
    assert_eq!(AircraftType::from_aprs_symbol((b'\\', b'^')), AircraftType::PoweredAircraft);
    assert_eq!(AircraftType::from_aprs_symbol((b'/', b'^')), AircraftType::JetAircraft);
    assert_eq!(AircraftType::from_aprs_symbol((b'/', b'O')), AircraftType::Balloon);
    assert_eq!(AircraftType::from_aprs_symbol((b'\\', b'n')), AircraftType::StaticObject);
    assert_eq!(AircraftType::from_aprs_symbol((b'?', b'?')), AircraftType::Unknown);
}

#[test]
fn degrees_to_decimal_returns_accurate_results() {
    let nyc_dms = ParsedDegrees {
        degrees: 40,
        minutes: 42,
        seconds_hundredths: 51,
        direction: ParsedDirection::North,
    };
    let num = parsed_degrees_to_decimal(&nyc_dms);
    assert_eq!(num, 146520510);
    // degrees + minutes/60 + fractional minutes/3600
    let expected = 40.0 + 42.0 / 60.0 + 0.51 / 3600.0;
    assert!((num as f64 / 3600000.0 - expected).abs() < 1e-9);
}

#[test]
fn degrees_to_decimal_returns_negative_for_west() {
    let dms = ParsedDegrees {
        degrees: 40,
        minutes: 42,
        seconds_hundredths: 51,
        direction: ParsedDirection::West,
    };
    let num = parsed_degrees_to_decimal(&dms);
    assert_eq!(num, -146520510);
    let expected = -(40.0 + 42.0 / 60.0 + 0.51 / 3600.0);
    assert!((num as f64 / 3600000.0 - expected).abs() < 1e-9);
}

#[test]
fn degrees_to_decimal_is_sign_correct() {
    // equal magnitudes, opposite hemispheres: exact opposites
    for (a, b) in [
        (ParsedDirection::North, ParsedDirection::South),
        (ParsedDirection::East, ParsedDirection::West),
    ] {
        let pos = ParsedDegrees { degrees: 12, minutes: 34, seconds_hundredths: 56, direction: a };
        let neg = ParsedDegrees { degrees: 12, minutes: 34, seconds_hundredths: 56, direction: b };
        let p = parsed_degrees_to_decimal(&pos);
        assert!(p >= 0);
        assert_eq!(parsed_degrees_to_decimal(&neg), -p);
    }
}

#[test]
fn knots_to_m_s_returns_accurate_result() {
    assert!((knots_to_m_s(1) as f64 / 1e6 - 0.5144444444444).abs() < 1e-5);
    assert!((knots_to_m_s(80) as f64 / 1e6 - 80.0 * 463.0 / 900.0).abs() < 1e-5);
}

#[test]
fn feet_to_m_returns_accurate_result() {
    assert!((feet_to_m(1) as f64 / 1e6 - 0.3048).abs() < 1e-5);
    assert_eq!(feet_to_m(1), 304800);
}

#[test]
fn turn_rate_to_rad_s_returns_accurate_result() {
    let one = Decimal { neg: false, mantissa: 1, scale: 0 };
    let r = turn_rate_to_rad_s(&one);
    assert!((r as f64 / 1e6 - 0.05235988).abs() < 1e-5);
    let tenth = Decimal { neg: false, mantissa: 1, scale: 1 };
    assert!((turn_rate_to_rad_s(&tenth) as f64 / 1e6 - 0.1 * std::f64::consts::PI / 60.0).abs()
        < 1e-5);
    let neg = Decimal { neg: true, mantissa: 5, scale: 1 };
    assert!((turn_rate_to_rad_s(&neg) as f64 / 1e6 - -0.5 * std::f64::consts::PI / 60.0).abs()
        < 1e-5);
}

#[test]
fn fpm_to_m_s_returns_accurate_result() {
    assert!((fpm_to_m_s(1) as f64 / 1e6 - 0.00508).abs() < 1e-5);
    assert_eq!(fpm_to_m_s(-316), -1605280);
}

#[test]
fn timestamp_takes_the_reference_date() {
    let t = ParsedTime { elements: (11, 24, 37), format: 'h' };
    let ts = parsed_time_to_datetime(&t, Some(UtcDate { year: 2021, month: 2, day: 28 }));
    assert_eq!(
        ts,
        UtcTimestamp { year: 2021, month: 2, day: 28, hour: 11, minute: 24, second: 37 }
    );
}

#[test]
fn timestamp_defaults_to_the_current_utc_date() {
    let t = ParsedTime { elements: (0, 0, 0), format: 'z' };
    let ts = parsed_time_to_datetime(&t, None);
    let now = chrono::Utc::now();
    assert_eq!((ts.year, ts.month, ts.day), (now.year(), now.month(), now.day()));
}

#[test]
fn unix_seconds_counts_from_the_epoch() {
    let epoch = UtcTimestamp { year: 1970, month: 1, day: 1, hour: 0, minute: 0, second: 0 };
    assert_eq!(epoch.unix_seconds(), 0);
    let ts = UtcTimestamp { year: 2023, month: 6, day: 15, hour: 11, minute: 24, second: 37 };
    assert_eq!(ts.unix_seconds(), 1686828277);
    // a leap day, held against chrono's own reckoning
    let leap = UtcTimestamp { year: 2024, month: 2, day: 29, hour: 23, minute: 59, second: 59 };
    let expected = chrono::NaiveDate::from_ymd_opt(2024, 2, 29)
        .unwrap()
        .and_hms_opt(23, 59, 59)
        .unwrap()
        .and_utc()
        .timestamp();
    assert_eq!(leap.unix_seconds(), expected);
}

#[test]
fn format_for_display_escapes_and_drops_zeros() {
    assert_eq!(format_for_display(b"ab"), "ab");
    assert_eq!(format_for_display(b"a\0b"), "ab");
    assert_eq!(format_for_display(b"a\nb\t"), "a\\nb\\t");
    assert_eq!(format_for_display(b"\\\"'"), "\\\\\\\"\\'");
    assert_eq!(format_for_display(&[0x7f, 0x01, 0xff]), "\\x7f\\x01\\xff");
}

#[test]
fn point_tags_carry_the_decoded_identity() {
    let line = b"ICA3E6DBA>APRS,qAS,Schwend:/112437h4832.45N\\00803.85E^206/080/A=003503 !W75! id213E6DBA -316fpm";
    let m = OGNStatusMessage::from_str(line, Some(UtcDate { year: 2023, month: 6, day: 15 }))
        .unwrap();
    let tags = aprs_point_tags(&m);
    let expected: Vec<(String, String)> = vec![
        ("aprs_callsign".to_string(), "ICA3E6DBA".to_string()),
        ("aprs_path".to_string(), "APRS,qAS,Schwend".to_string()),
        ("aprs_type".to_string(), "PositionWithTimestamp".to_string()),
        ("aircraft_type".to_string(), "PoweredAircraft".to_string()),
        ("parsed".to_string(), "true".to_string()),
        ("aircraft_id".to_string(), "3E6DBA".to_string()),
        ("stealth".to_string(), "false".to_string()),
        ("no_track".to_string(), "false".to_string()),
        ("addr_type".to_string(), "ICAO".to_string()),
    ];
    assert_eq!(tags, expected);
}

#[test]
fn point_tags_omit_absent_metadata() {
    let line = b"FLRDD1234>APRS,qAS,XYZ:/112437h4832.45N/00803.85E'206/080/A=003503";
    let m = OGNStatusMessage::from_str(line, Some(UtcDate { year: 2023, month: 6, day: 15 }))
        .unwrap();
    let tags = aprs_point_tags(&m);
    let expected: Vec<(String, String)> = vec![
        ("aprs_callsign".to_string(), "FLRDD1234".to_string()),
        ("aprs_path".to_string(), "APRS,qAS,XYZ".to_string()),
        ("aprs_type".to_string(), "PositionWithTimestamp".to_string()),
        ("aircraft_type".to_string(), "Glider".to_string()),
        ("parsed".to_string(), "true".to_string()),
    ];
    assert_eq!(tags, expected);
}
