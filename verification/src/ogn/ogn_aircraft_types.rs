//! The aircraft-type field of the packed metadata byte, with the
//! symbol-pair fallback classifier.

use vstd::prelude::*;

use crate::parser::position::ParsedSymbol;

verus! {

/// The FLARM-assigned aircraft type: bits 2 to 5 of the metadata byte.
#[derive(Debug, PartialEq, Eq, Structural, Clone, Copy)]
pub enum AircraftType {
    Other,
    Glider,
    TowPlane,
    Helicopter,
    Parachute,
    DropPlane,
    HangGlider,
    ParaGlider,
    PoweredAircraft,
    JetAircraft,
    UFO,
    Balloon,
    Airship,
    UAV,
    GroundSupport,
    StaticObject,
    Unknown,
}

impl AircraftType {
    /// The sixteen-way aircraft-type table over bits 2 to 5 of the
    /// metadata byte; zero is the reserved value.
    pub open spec fn spec_from_meta(meta: usize) -> AircraftType {
        let masked = (meta >> 2) & 15;
        if masked == 0 {
            AircraftType::Other
        } else if masked == 1 {
            AircraftType::Glider
        } else if masked == 2 {
            AircraftType::TowPlane
        } else if masked == 3 {
            AircraftType::Helicopter
        } else if masked == 4 {
            AircraftType::Parachute
        } else if masked == 5 {
            AircraftType::DropPlane
        } else if masked == 6 {
            AircraftType::HangGlider
        } else if masked == 7 {
            AircraftType::ParaGlider
        } else if masked == 8 {
            AircraftType::PoweredAircraft
        } else if masked == 9 {
            AircraftType::JetAircraft
        } else if masked == 10 {
            AircraftType::UFO
        } else if masked == 11 {
            AircraftType::Balloon
        } else if masked == 12 {
            AircraftType::Airship
        } else if masked == 13 {
            AircraftType::UAV
        } else if masked == 14 {
            AircraftType::GroundSupport
        } else if masked == 15 {
            AircraftType::StaticObject
        } else {
            AircraftType::Unknown
        }
    }

    /// Decodes the aircraft type from the metadata byte.
    pub fn from_meta(meta: usize) -> (r: Self)
        ensures
            r == AircraftType::spec_from_meta(meta),
    {
        let masked = (meta >> 2) & 15;
        if masked == 0 {
            AircraftType::Other
        } else if masked == 1 {
            AircraftType::Glider
        } else if masked == 2 {
            AircraftType::TowPlane
        } else if masked == 3 {
            AircraftType::Helicopter
        } else if masked == 4 {
            AircraftType::Parachute
        } else if masked == 5 {
            AircraftType::DropPlane
        } else if masked == 6 {
            AircraftType::HangGlider
        } else if masked == 7 {
            AircraftType::ParaGlider
        } else if masked == 8 {
            AircraftType::PoweredAircraft
        } else if masked == 9 {
            AircraftType::JetAircraft
        } else if masked == 10 {
            AircraftType::UFO
        } else if masked == 11 {
            AircraftType::Balloon
        } else if masked == 12 {
            AircraftType::Airship
        } else if masked == 13 {
            AircraftType::UAV
        } else if masked == 14 {
            AircraftType::GroundSupport
        } else if masked == 15 {
            AircraftType::StaticObject
        } else {
            AircraftType::Unknown
        }
    }

    /// The fallback classification by map-symbol pair.  The table is
    /// not injective; each pair maps to the first type listed for it.
    pub open spec fn spec_from_symbol(symbol: ParsedSymbol) -> AircraftType {
        if symbol == (47u8, 122u8) {
            AircraftType::Other
        } else if symbol == (47u8, 39u8) {
            AircraftType::Glider
        } else if symbol == (47u8, 88u8) {
            AircraftType::Helicopter
        } else if symbol == (47u8, 103u8) {
            AircraftType::Parachute
        } else if symbol == (92u8, 94u8) {
            AircraftType::PoweredAircraft
        } else if symbol == (47u8, 94u8) {
            AircraftType::JetAircraft
        } else if symbol == (47u8, 79u8) {
            AircraftType::Balloon
        } else if symbol == (92u8, 110u8) {
            AircraftType::StaticObject
        } else {
            AircraftType::Unknown
        }
    }

    /// Classifies by the symbol pair, the fallback when no metadata
    /// extension is present.
    pub fn from_aprs_symbol(symbol: ParsedSymbol) -> (r: Self)
        ensures
            r == AircraftType::spec_from_symbol(symbol),
    {
        if symbol.0 == 47 && symbol.1 == 122 {
            AircraftType::Other
        } else if symbol.0 == 47 && symbol.1 == 39 {
            AircraftType::Glider
        } else if symbol.0 == 47 && symbol.1 == 88 {
            AircraftType::Helicopter
        } else if symbol.0 == 47 && symbol.1 == 103 {
            AircraftType::Parachute
        } else if symbol.0 == 92 && symbol.1 == 94 {
            AircraftType::PoweredAircraft
        } else if symbol.0 == 47 && symbol.1 == 94 {
            AircraftType::JetAircraft
        } else if symbol.0 == 47 && symbol.1 == 79 {
            AircraftType::Balloon
        } else if symbol.0 == 92 && symbol.1 == 110 {
            AircraftType::StaticObject
        } else {
            AircraftType::Unknown
        }
    }

    /// The classification's name.
    pub open spec fn spec_name(self) -> Seq<char> {
        match self {
            AircraftType::Other => "Other"@,
            AircraftType::Glider => "Glider"@,
            AircraftType::TowPlane => "TowPlane"@,
            AircraftType::Helicopter => "Helicopter"@,
            AircraftType::Parachute => "Parachute"@,
            AircraftType::DropPlane => "DropPlane"@,
            AircraftType::HangGlider => "HangGlider"@,
            AircraftType::ParaGlider => "ParaGlider"@,
            AircraftType::PoweredAircraft => "PoweredAircraft"@,
            AircraftType::JetAircraft => "JetAircraft"@,
            AircraftType::UFO => "UFO"@,
            AircraftType::Balloon => "Balloon"@,
            AircraftType::Airship => "Airship"@,
            AircraftType::UAV => "UAV"@,
            AircraftType::GroundSupport => "GroundSupport"@,
            AircraftType::StaticObject => "StaticObject"@,
            AircraftType::Unknown => "Unknown"@,
        }
    }

    /// Renders the classification's name.
    pub fn name(&self) -> (r: String)
        ensures
            r@ == self.spec_name(),
    {
        match self {
            AircraftType::Other => String::from_str("Other"),
            AircraftType::Glider => String::from_str("Glider"),
            AircraftType::TowPlane => String::from_str("TowPlane"),
            AircraftType::Helicopter => String::from_str("Helicopter"),
            AircraftType::Parachute => String::from_str("Parachute"),
            AircraftType::DropPlane => String::from_str("DropPlane"),
            AircraftType::HangGlider => String::from_str("HangGlider"),
            AircraftType::ParaGlider => String::from_str("ParaGlider"),
            AircraftType::PoweredAircraft => String::from_str("PoweredAircraft"),
            AircraftType::JetAircraft => String::from_str("JetAircraft"),
            AircraftType::UFO => String::from_str("UFO"),
            AircraftType::Balloon => String::from_str("Balloon"),
            AircraftType::Airship => String::from_str("Airship"),
            AircraftType::UAV => String::from_str("UAV"),
            AircraftType::GroundSupport => String::from_str("GroundSupport"),
            AircraftType::StaticObject => String::from_str("StaticObject"),
            AircraftType::Unknown => String::from_str("Unknown"),
        }
    }
}

/// The aircraft type reads only bits 2 to 5: metadata bytes agreeing
/// there decode alike, whatever their privacy or address bits hold.
pub proof fn lemma_aircraft_type_uses_type_bits_only(m1: usize, m2: usize)
    requires
        (m1 >> 2) & 15 == (m2 >> 2) & 15,
    ensures
        AircraftType::spec_from_meta(m1) == AircraftType::spec_from_meta(m2),
{
}

} // verus!
