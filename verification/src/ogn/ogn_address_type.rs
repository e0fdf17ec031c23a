//! The address-type field of the packed metadata byte.

use vstd::prelude::*;

verus! {

/// Who assigned the aircraft's address: bits 0 and 1 of the metadata
/// byte say.
#[derive(Debug, PartialEq, Eq, Structural, Clone, Copy)]
pub enum AddressType {
    Unknown,
    ICAO,
    FLARM,
    OGN,
}

impl AddressType {
    /// The address type packed in the two lowest bits of the metadata
    /// byte: zero unknown, one ICAO, two FLARM, three an OGN tracker.
    pub open spec fn spec_from(meta: usize) -> AddressType {
        if meta & 3 == 0 {
            AddressType::Unknown
        } else if meta & 3 == 1 {
            AddressType::ICAO
        } else if meta & 3 == 2 {
            AddressType::FLARM
        } else {
            AddressType::OGN
        }
    }

    /// Decodes the address type from the metadata byte.
    pub fn from(meta: usize) -> (r: Self)
        ensures
            r == AddressType::spec_from(meta),
    {
        let masked = meta & 3;
        if masked == 0 {
            AddressType::Unknown
        } else if masked == 1 {
            AddressType::ICAO
        } else if masked == 2 {
            AddressType::FLARM
        } else {
            AddressType::OGN
        }
    }

    /// The classification's name.
    pub open spec fn spec_name(self) -> Seq<char> {
        match self {
            AddressType::Unknown => "Unknown"@,
            AddressType::ICAO => "ICAO"@,
            AddressType::FLARM => "FLARM"@,
            AddressType::OGN => "OGN"@,
        }
    }

    /// Renders the classification's name.
    pub fn name(&self) -> (r: String)
        ensures
            r@ == self.spec_name(),
    {
        match self {
            AddressType::Unknown => String::from_str("Unknown"),
            AddressType::ICAO => String::from_str("ICAO"),
            AddressType::FLARM => String::from_str("FLARM"),
            AddressType::OGN => String::from_str("OGN"),
        }
    }
}

/// The address type reads only bits 0 and 1: metadata bytes agreeing
/// there decode alike, whatever their other bits hold.
pub proof fn lemma_address_type_uses_low_bits_only(m1: usize, m2: usize)
    requires
        m1 & 3 == m2 & 3,
    ensures
        AddressType::spec_from(m1) == AddressType::spec_from(m2),
{
}

} // verus!
