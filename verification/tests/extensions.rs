//! The extension grammar: the eight known shapes, the token loop, and
//! its order-independence.

use ogn_aprs_parser::parser::extensions::parse_ext_aircraft_id;
use ogn_aprs_parser::parser::extensions::parse_ext_altitude_rate;
use ogn_aprs_parser::parser::extensions::parse_ext_bit_errors;
use ogn_aprs_parser::parser::extensions::parse_ext_frequency_offset;
use ogn_aprs_parser::parser::extensions::parse_ext_gps_resolution;
use ogn_aprs_parser::parser::extensions::parse_ext_position_precision;
use ogn_aprs_parser::parser::extensions::parse_ext_reception;
use ogn_aprs_parser::parser::extensions::parse_ext_rotation_rate;
use ogn_aprs_parser::parser::extensions::parse_extensions;
use ogn_aprs_parser::parser::extensions::ParsedAircraftID;
use ogn_aprs_parser::parser::extensions::ParsedExtensions;
use ogn_aprs_parser::parser::extensions::ParsedGPSResolution;
use ogn_aprs_parser::parser::extensions::ParsedPositionPrecision;
use ogn_aprs_parser::parser::util::Decimal;

#[test]
fn ext_position_precision_works() {
    let test = b" !W75! id21";
    assert_eq!(
        parse_ext_position_precision(test, 0),
        Some((6, ParsedPositionPrecision { latitude: 7, longitude: 5 }))
    );
    assert_eq!(&test[6..], &b" id21"[..]);
}

#[test]
fn parsing_ext_position_precision_works() {
    let test = b" !W75! id21";
    assert_eq!(
        parse_ext_position_precision(test, 0),
        Some((6, ParsedPositionPrecision { latitude: 7, longitude: 5 }))
    );
    assert_eq!(&test[6..], &b" id21"[..]);
}

#[test]
fn ext_aircraft_id_works() {
    let test = b" id213E6DBA -31";
    let (p, id) = parse_ext_aircraft_id(test, 0).unwrap();
    assert_eq!(id, ParsedAircraftID { meta: 33, id: "3E6DBA".to_string() });
    assert_eq!(&test[p..], &b" -31"[..]);
}

#[test]
fn parsing_ext_aircraft_id_works() {
    let test = b" id213E6DBA -31";
    let (p, id) = parse_ext_aircraft_id(test, 0).unwrap();
    assert_eq!(id, ParsedAircraftID { meta: 33, id: "3E6DBA".to_string() });
    assert_eq!(&test[p..], &b" -31"[..]);
}

#[test]
fn ext_rate_works_positive() {
    let test = b" +316fpm +0.";
    assert_eq!(parse_ext_altitude_rate(test, 0), Some((8, 316)));
    assert_eq!(&test[8..], &b" +0."[..]);
}

#[test]
fn ext_rate_works_negative() {
    let test = b" -316fpm +0.";
    assert_eq!(parse_ext_altitude_rate(test, 0), Some((8, -316)));
    assert_eq!(&test[8..], &b" +0."[..]);
}

#[test]
fn parsing_ext_altitude_rate_works_with_positive() {
    let test = b" +316fpm +0.";
    assert_eq!(parse_ext_altitude_rate(test, 0), Some((8, 316)));
    assert_eq!(&test[8..], &b" +0."[..]);
}

#[test]
fn parsing_ext_altitude_rate_works_with_negative() {
    let test = b" -316fpm +0.";
    assert_eq!(parse_ext_altitude_rate(test, 0), Some((8, -316)));
    assert_eq!(&test[8..], &b" +0."[..]);
}

#[test]
fn ext_rot_works_positive() {
    let test = b" +0.1rot 9.";
    assert_eq!(
        parse_ext_rotation_rate(test, 0),
        Some((8, Decimal { neg: false, mantissa: 1, scale: 1 }))
    );
    assert_eq!(&test[8..], &b" 9."[..]);
}

#[test]
fn ext_rot_works_negative() {
    let test = b" -0.5rot 9.";
    assert_eq!(
        parse_ext_rotation_rate(test, 0),
        Some((8, Decimal { neg: true, mantissa: 5, scale: 1 }))
    );
    assert_eq!(&test[8..], &b" 9."[..]);
}

#[test]
fn ext_rot_works_zero() {
    let test = b" +0.0rot 9.";
    assert_eq!(
        parse_ext_rotation_rate(test, 0),
        Some((8, Decimal { neg: false, mantissa: 0, scale: 1 }))
    );
    assert_eq!(&test[8..], &b" 9."[..]);
}

#[test]
fn ext_rot_works_zero_odd() {
    let test = b" +000rot 9.";
    assert_eq!(
        parse_ext_rotation_rate(test, 0),
        Some((8, Decimal { neg: false, mantissa: 0, scale: 0 }))
    );
    assert_eq!(&test[8..], &b" 9."[..]);
}

#[test]
fn ext_rot_works_whole_numbers() {
    let test = b" +123rot 9.";
    assert_eq!(
        parse_ext_rotation_rate(test, 0),
        Some((8, Decimal { neg: false, mantissa: 123, scale: 0 }))
    );
    assert_eq!(&test[8..], &b" 9."[..]);
}

#[test]
fn parsing_ext_rotation_rate_works_with_positive() {
    let test = b" +0.1rot 9.";
    assert_eq!(
        parse_ext_rotation_rate(test, 0),
        Some((8, Decimal { neg: false, mantissa: 1, scale: 1 }))
    );
    assert_eq!(&test[8..], &b" 9."[..]);
}

#[test]
fn parsing_ext_rotation_rate_works_with_negative() {
    let test = b" -0.5rot 9.";
    assert_eq!(
        parse_ext_rotation_rate(test, 0),
        Some((8, Decimal { neg: true, mantissa: 5, scale: 1 }))
    );
    assert_eq!(&test[8..], &b" 9."[..]);
}

#[test]
fn parsing_ext_rotation_rate_works_with_zero() {
    let test = b" +0.0rot 9.";
    assert_eq!(
        parse_ext_rotation_rate(test, 0),
        Some((8, Decimal { neg: false, mantissa: 0, scale: 1 }))
    );
    assert_eq!(&test[8..], &b" 9."[..]);
}

#[test]
fn parsing_ext_rotation_rate_works_with_zero_without_decimal() {
    let test = b" +000rot 9.";
    assert_eq!(
        parse_ext_rotation_rate(test, 0),
        Some((8, Decimal { neg: false, mantissa: 0, scale: 0 }))
    );
    assert_eq!(&test[8..], &b" 9."[..]);
}

#[test]
fn parsing_ext_rotation_rate_works_with_whole_numbers() {
    let test = b" +123rot 9.";
    assert_eq!(
        parse_ext_rotation_rate(test, 0),
        Some((8, Decimal { neg: false, mantissa: 123, scale: 0 }))
    );
    assert_eq!(&test[8..], &b" 9."[..]);
}

#[test]
fn ext_reception_works() {
    let test = b" 9.8dB 6e";
    assert_eq!(
        parse_ext_reception(test, 0),
        Some((6, Decimal { neg: false, mantissa: 98, scale: 1 }))
    );
    assert_eq!(&test[6..], &b" 6e"[..]);
}

#[test]
fn parsing_ext_reception_works() {
    let test = b" 9.8dB 6e";
    assert_eq!(
        parse_ext_reception(test, 0),
        Some((6, Decimal { neg: false, mantissa: 98, scale: 1 }))
    );
    assert_eq!(&test[6..], &b" 6e"[..]);
}

#[test]
fn ext_errors_works() {
    let test = b" 6e -4.5k";
    assert_eq!(parse_ext_bit_errors(test, 0), Some((3, 6)));
    assert_eq!(&test[3..], &b" -4.5k"[..]);
}

#[test]
fn parsing_ext_bit_errors_works() {
    let test = b" 6e -4.5k";
    assert_eq!(parse_ext_bit_errors(test, 0), Some((3, 6)));
    assert_eq!(&test[3..], &b" -4.5k"[..]);
}

#[test]
fn ext_freq_offset_works() {
    let test = b" -4.5kHz gp";
    assert_eq!(
        parse_ext_frequency_offset(test, 0),
        Some((8, Decimal { neg: true, mantissa: 45, scale: 1 }))
    );
    assert_eq!(&test[8..], &b" gp"[..]);
}

#[test]
fn parsing_ext_frequency_offset_works() {
    let test = b" -4.5kHz gp";
    assert_eq!(
        parse_ext_frequency_offset(test, 0),
        Some((8, Decimal { neg: true, mantissa: 45, scale: 1 }))
    );
    assert_eq!(&test[8..], &b" gp"[..]);
}

#[test]
fn ext_gps_resolution_works() {
    let test = b"   gps3x2";
    assert_eq!(
        parse_ext_gps_resolution(test, 0),
        Some((9, ParsedGPSResolution { horizontal: 3, vertical: 2 }))
    );
}

#[test]
fn parsing_ext_gps_resolution_works() {
    let test = b"   gps3x2";
    assert_eq!(
        parse_ext_gps_resolution(test, 0),
        Some((9, ParsedGPSResolution { horizontal: 3, vertical: 2 }))
    );
}

fn empty_extensions() -> ParsedExtensions {
    ParsedExtensions {
        position_precision: None,
        aircraft_id: None,
        altitude_rate: None,
        rotation_rate: None,
        reception: None,
        bit_errors: None,
        frequency_offset: None,
        gps_resolution: None,
        unknown: vec![],
    }
}

#[test]
fn extensions_parses_some() {
    let test = b" !W75! id213E6DBA -316fpm";
    let (p, ext) = parse_extensions(test, 0);
    assert_eq!(
        ext,
        ParsedExtensions {
            position_precision: Some(ParsedPositionPrecision { latitude: 7, longitude: 5 }),
            aircraft_id: Some(ParsedAircraftID { meta: 33, id: "3E6DBA".to_string() }),
            altitude_rate: Some(-316),
            ..empty_extensions()
        }
    );
    assert_eq!(p, test.len());
}

#[test]
fn parsing_extensions_works_with_some() {
    let test = b" !W75! id213E6DBA -316fpm";
    let (p, ext) = parse_extensions(test, 0);
    assert_eq!(
        ext,
        ParsedExtensions {
            position_precision: Some(ParsedPositionPrecision { latitude: 7, longitude: 5 }),
            aircraft_id: Some(ParsedAircraftID { meta: 33, id: "3E6DBA".to_string() }),
            altitude_rate: Some(-316),
            ..empty_extensions()
        }
    );
    assert_eq!(p, test.len());
}

#[test]
fn extensions_parses_out_of_order_multispace() {
    let test = b" id213E6DBA    !W75!  -316fpm   ";
    let (p, ext) = parse_extensions(test, 0);
    assert_eq!(
        ext,
        ParsedExtensions {
            position_precision: Some(ParsedPositionPrecision { latitude: 7, longitude: 5 }),
            aircraft_id: Some(ParsedAircraftID { meta: 33, id: "3E6DBA".to_string() }),
            altitude_rate: Some(-316),
            ..empty_extensions()
        }
    );
    assert_eq!(&test[p..], &b"   "[..]);
}

#[test]
fn parsing_extensions_works_out_of_order_multispace() {
    let test = b" id213E6DBA    !W75!  -316fpm   ";
    let (p, ext) = parse_extensions(test, 0);
    assert_eq!(
        ext,
        ParsedExtensions {
            position_precision: Some(ParsedPositionPrecision { latitude: 7, longitude: 5 }),
            aircraft_id: Some(ParsedAircraftID { meta: 33, id: "3E6DBA".to_string() }),
            altitude_rate: Some(-316),
            ..empty_extensions()
        }
    );
    assert_eq!(&test[p..], &b"   "[..]);
}

fn full_extensions() -> ParsedExtensions {
    ParsedExtensions {
        position_precision: Some(ParsedPositionPrecision { latitude: 7, longitude: 5 }),
        aircraft_id: Some(ParsedAircraftID { meta: 33, id: "3E6DBA".to_string() }),
        altitude_rate: Some(-316),
        rotation_rate: Some(Decimal { neg: false, mantissa: 1, scale: 1 }),
        reception: Some(Decimal { neg: false, mantissa: 98, scale: 1 }),
        bit_errors: Some(6),
        frequency_offset: Some(Decimal { neg: true, mantissa: 45, scale: 1 }),
        gps_resolution: Some(ParsedGPSResolution { horizontal: 2, vertical: 2 }),
        unknown: vec![],
    }
}

#[test]
fn extensions_parses_all() {
    let test = b" !W75! id213E6DBA -316fpm +0.1rot 9.8dB 6e -4.5kHz gps2x2";
    let (p, ext) = parse_extensions(test, 0);
    assert_eq!(ext, full_extensions());
    assert_eq!(p, test.len());
}

#[test]
fn parsing_extensions_works_with_all() {
    let test = b" !W75! id213E6DBA -316fpm +0.1rot 9.8dB 6e -4.5kHz gps2x2";
    let (p, ext) = parse_extensions(test, 0);
    assert_eq!(ext, full_extensions());
    assert_eq!(p, test.len());
}

#[test]
fn extensions_parses_multiple_unknown() {
    let test = b" !W75! id213E6DBA test2 -316fpm +0.1rot 23456 9.8dB 6e -4.5kHz gps2x2   ";
    let (p, ext) = parse_extensions(test, 0);
    assert_eq!(
        ext,
        ParsedExtensions {
            unknown: vec!["test2".to_string(), "23456".to_string()],
            ..full_extensions()
        }
    );
    assert_eq!(&test[p..], &b"   "[..]);
}

#[test]
fn parsing_extensions_works_with_multiple_unknown() {
    let test = b" !W75! id213E6DBA test2 -316fpm +0.1rot 23456 9.8dB 6e -4.5kHz gps2x2   ";
    let (p, ext) = parse_extensions(test, 0);
    assert_eq!(
        ext,
        ParsedExtensions {
            unknown: vec!["test2".to_string(), "23456".to_string()],
            ..full_extensions()
        }
    );
    assert_eq!(&test[p..], &b"   "[..]);
}

#[test]
fn extension_order_does_not_change_the_fields() {
    // every permutation of a valid tail decodes to the same field set
    let orders = [
        &b" !W75! id213E6DBA -316fpm +0.1rot 9.8dB 6e -4.5kHz gps2x2"[..],
        &b" gps2x2 -4.5kHz 6e 9.8dB +0.1rot -316fpm id213E6DBA !W75!"[..],
        &b" 6e +0.1rot !W75! gps2x2 id213E6DBA 9.8dB -316fpm -4.5kHz"[..],
    ];
    for tail in orders {
        let (_, ext) = parse_extensions(tail, 0);
        assert_eq!(ext, full_extensions());
    }
}

#[test]
fn one_bogus_token_never_aborts_the_tail() {
    // N valid tokens plus one bogus token: N fields plus one unknown
    let test = b" !W75! id213E6DBA bogus9 -316fpm +0.1rot 9.8dB 6e -4.5kHz gps2x2";
    let (p, ext) = parse_extensions(test, 0);
    assert_eq!(ext, ParsedExtensions { unknown: vec!["bogus9".to_string()], ..full_extensions() });
    assert_eq!(p, test.len());
}

#[test]
fn later_duplicate_shapes_overwrite_earlier_ones() {
    let test = b" 6e 9e";
    let (_, ext) = parse_extensions(test, 0);
    assert_eq!(ext.bit_errors, Some(9));
}

#[test]
fn tail_without_leading_whitespace_is_left_alone() {
    let test = b"6e 9e";
    let (p, ext) = parse_extensions(test, 0);
    assert_eq!(p, 0);
    assert_eq!(ext, empty_extensions());
}

#[test]
fn shapes_must_span_their_whole_token() {
    // a shape match with trailing garbage is no match: the token is unknown
    let test = b" 9.8dBx";
    let (p, ext) = parse_extensions(test, 0);
    assert_eq!(ext.reception, None);
    assert_eq!(ext.unknown, vec!["9.8dBx".to_string()]);
    assert_eq!(p, test.len());
}

#[test]
fn oversized_decimals_do_not_match_a_shape() {
    // the signed-decimal reader is bounded; a larger number is unknown
    let test = b" 99999999999999fpm";
    let (_, ext) = parse_extensions(test, 0);
    assert_eq!(ext.altitude_rate, None);
    assert_eq!(ext.unknown, vec!["99999999999999fpm".to_string()]);
}
