//! The envelope and timestamp grammars.

use ogn_aprs_parser::parser::aprs::parse_callsign;
use ogn_aprs_parser::parser::aprs::parse_msg_type;
use ogn_aprs_parser::parser::aprs::parse_path;
use ogn_aprs_parser::parser::time::parse_time;
use ogn_aprs_parser::parser::time::ParsedTime;

#[test]
fn callsign_works() {
    let test = b"ICA3E6DBA>APRS";
    let (p, callsign) = parse_callsign(test, 0).unwrap();
    assert_eq!(callsign, "ICA3E6DBA");
    assert_eq!(&test[p..], &b"APRS"[..]);
}

#[test]
fn parsing_callsign_works() {
    let test = b"ICA3E6DBA>APRS";
    let (p, callsign) = parse_callsign(test, 0).unwrap();
    assert_eq!(callsign, "ICA3E6DBA");
    assert_eq!(&test[p..], &b"APRS"[..]);
}

#[test]
fn aprs_path_works() {
    let test = b"APRS,qAS,Schwend:/1124";
    let (p, path) = parse_path(test, 0).unwrap();
    assert_eq!(path, "APRS,qAS,Schwend");
    assert_eq!(&test[p..], &b"/1124"[..]);
}

#[test]
fn parsing_aprs_path_works() {
    let test = b"APRS,qAS,Schwend:/1124";
    let (p, path) = parse_path(test, 0).unwrap();
    assert_eq!(path, "APRS,qAS,Schwend");
    assert_eq!(&test[p..], &b"/1124"[..]);
}

#[test]
fn aprs_type_works() {
    let test = b"/1124";
    let test2 = b">1124";
    assert_eq!(parse_msg_type(test, 0), Some((1, '/')));
    assert_eq!(parse_msg_type(test2, 0), Some((1, '>')));
    assert_eq!(&test[1..], &b"1124"[..]);
    assert_eq!(&test2[1..], &b"1124"[..]);
}

#[test]
fn parsing_aprs_message_type_works() {
    let test = b"/1124";
    let test2 = b">1124";
    assert_eq!(parse_msg_type(test, 0), Some((1, '/')));
    assert_eq!(parse_msg_type(test2, 0), Some((1, '>')));
    assert_eq!(&test[1..], &b"1124"[..]);
    assert_eq!(&test2[1..], &b"1124"[..]);
}

#[test]
fn missing_delimiters_fail_the_envelope() {
    assert_eq!(parse_callsign(b"ICA3E6DBA APRS", 0), None);
    assert_eq!(parse_path(b"APRS,qAS,Schwend/1124", 0), None);
    assert_eq!(parse_msg_type(b"x1124", 0), None);
    assert_eq!(parse_msg_type(b"", 0), None);
}

#[test]
fn time_works() {
    let test = b"112437h4832";
    let test2 = b"112437z4832";
    let test3 = b"112437/4832";
    assert_eq!(
        parse_time(test, 0),
        Some((7, ParsedTime { elements: (11, 24, 37), format: 'h' }))
    );
    assert_eq!(
        parse_time(test2, 0),
        Some((7, ParsedTime { elements: (11, 24, 37), format: 'z' }))
    );
    assert_eq!(
        parse_time(test3, 0),
        Some((7, ParsedTime { elements: (11, 24, 37), format: '/' }))
    );
    assert_eq!(&test[7..], &b"4832"[..]);
}

#[test]
fn parsing_time_works() {
    let test = b"112437h4832";
    let test2 = b"112437z4832";
    let test3 = b"112437/4832";
    assert_eq!(
        parse_time(test, 0),
        Some((7, ParsedTime { elements: (11, 24, 37), format: 'h' }))
    );
    assert_eq!(
        parse_time(test2, 0),
        Some((7, ParsedTime { elements: (11, 24, 37), format: 'z' }))
    );
    assert_eq!(
        parse_time(test3, 0),
        Some((7, ParsedTime { elements: (11, 24, 37), format: '/' }))
    );
    assert_eq!(&test[7..], &b"4832"[..]);
}

#[test]
fn time_reader_round_trips_every_valid_triple() {
    // the round trip the library proves in general, checked on values
    for h in 0u32..24 {
        for m in [0u32, 1, 30, 59] {
            for s in [0u32, 9, 59] {
                let text = format!("{:02}{:02}{:02}h", h, m, s);
                let (p, t) = parse_time(text.as_bytes(), 0).unwrap();
                assert_eq!(p, 7);
                assert_eq!(t.elements, (h, m, s));
                assert_eq!(t.format, 'h');
            }
        }
    }
}

#[test]
fn bad_time_blocks_fail() {
    assert_eq!(parse_time(b"1124x7h", 0), None);
    assert_eq!(parse_time(b"112437x4832", 0), None);
    assert_eq!(parse_time(b"11243", 0), None);
}
