//! The position grammar: latitude, longitude, symbols, heading, speed
//! and altitude.

use ogn_aprs_parser::parser::parse::ParseError;
use ogn_aprs_parser::parser::position::parse_latitude;
use ogn_aprs_parser::parser::position::parse_longitude;
use ogn_aprs_parser::parser::position::parse_position_and_type;
use ogn_aprs_parser::parser::position::ParsedDegrees;
use ogn_aprs_parser::parser::position::ParsedDirection;
use ogn_aprs_parser::parser::position::ParsedPosition;

#[test]
fn latitude_works() {
    let test = b"4832.45N\\008";
    assert_eq!(
        parse_latitude(test, 0),
        Some((
            8,
            ParsedDegrees {
                degrees: 48,
                minutes: 32,
                seconds_hundredths: 45,
                direction: ParsedDirection::North,
            }
        ))
    );
    assert_eq!(&test[8..], &b"\\008"[..]);
}

#[test]
fn parsing_latitude_works() {
    let test = b"4832.45N\\008";
    assert_eq!(
        parse_latitude(test, 0),
        Some((
            8,
            ParsedDegrees {
                degrees: 48,
                minutes: 32,
                seconds_hundredths: 45,
                direction: ParsedDirection::North,
            }
        ))
    );
    assert_eq!(&test[8..], &b"\\008"[..]);
}

#[test]
fn longitude_works() {
    let test = b"00803.85E^206";
    assert_eq!(
        parse_longitude(test, 0),
        Some((
            9,
            ParsedDegrees {
                degrees: 8,
                minutes: 3,
                seconds_hundredths: 85,
                direction: ParsedDirection::East,
            }
        ))
    );
    assert_eq!(&test[9..], &b"^206"[..]);
}

#[test]
fn parsing_longitude_works() {
    let test = b"00803.85E^206";
    assert_eq!(
        parse_longitude(test, 0),
        Some((
            9,
            ParsedDegrees {
                degrees: 8,
                minutes: 3,
                seconds_hundredths: 85,
                direction: ParsedDirection::East,
            }
        ))
    );
    assert_eq!(&test[9..], &b"^206"[..]);
}

#[test]
fn position_works() {
    let test = b"4832.45N\\00803.85E^206/080/A=003503 !W75! ";
    let (p, (position, symbol)) = parse_position_and_type(test, 0).unwrap();
    assert_eq!(
        position,
        ParsedPosition {
            latitude: ParsedDegrees {
                degrees: 48,
                minutes: 32,
                seconds_hundredths: 45,
                direction: ParsedDirection::North,
            },
            longitude: ParsedDegrees {
                degrees: 8,
                minutes: 3,
                seconds_hundredths: 85,
                direction: ParsedDirection::East,
            },
            heading: 206,
            speed: 80,
            altitude: 3503,
        }
    );
    assert_eq!(symbol, (b'\\', b'^'));
    assert_eq!(&test[p..], &b" !W75! "[..]);
}

#[test]
fn parsing_position_and_type_works() {
    let test = b"4832.45N\\00803.85E^206/080/A=003503 !W75! ";
    let (p, (position, symbol)) = parse_position_and_type(test, 0).unwrap();
    assert_eq!(
        position,
        ParsedPosition {
            latitude: ParsedDegrees {
                degrees: 48,
                minutes: 32,
                seconds_hundredths: 45,
                direction: ParsedDirection::North,
            },
            longitude: ParsedDegrees {
                degrees: 8,
                minutes: 3,
                seconds_hundredths: 85,
                direction: ParsedDirection::East,
            },
            heading: 206,
            speed: 80,
            altitude: 3503,
        }
    );
    assert_eq!(symbol, (b'\\', b'^'));
    assert_eq!(&test[p..], &b" !W75! "[..]);
}

#[test]
fn parsing_position_and_type_doesnt_panic_on_invalid_direction() {
    let test = b"4832.45Y\\00803.85X^206/080/A=003503 !W75! ";
    assert!(parse_position_and_type(test, 0).is_err());
}

#[test]
fn bad_hemisphere_is_a_position_error() {
    // a malformed hemisphere byte is reported, never defaulted
    let lat_bad = b"4832.45Y\\00803.85E^206/080/A=003503";
    assert_eq!(parse_position_and_type(lat_bad, 0), Err(ParseError::MalformedPosition(0)));
    assert_eq!(parse_latitude(b"4832.45Y", 0), None);
    assert_eq!(parse_longitude(b"00803.85X", 0), None);
    let lon_bad = b"4832.45N\\00803.85X^206/080/A=003503";
    assert_eq!(parse_position_and_type(lon_bad, 0), Err(ParseError::MalformedPosition(9)));
}

#[test]
fn stray_escape_markers_are_skipped() {
    let test = b"4832.45N\\\\\\00803.85E^206/080/A=003503";
    let (p, (position, symbol)) = parse_position_and_type(test, 0).unwrap();
    assert_eq!(position.longitude.degrees, 8);
    assert_eq!(symbol, (b'\\', b'^'));
    assert_eq!(p, test.len());
}

#[test]
fn truncated_position_is_a_symbol_error() {
    assert_eq!(parse_position_and_type(b"4832.45N", 0), Err(ParseError::MalformedSymbol(8)));
}

#[test]
fn bad_altitude_is_a_position_error() {
    let test = b"4832.45N\\00803.85E^206/080/A=00350";
    assert_eq!(parse_position_and_type(test, 0), Err(ParseError::MalformedPosition(27)));
    let test2 = b"4832.45N\\00803.85E^206/080/B=003503";
    assert_eq!(parse_position_and_type(test2, 0), Err(ParseError::MalformedPosition(27)));
}
