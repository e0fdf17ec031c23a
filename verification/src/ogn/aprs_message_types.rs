//! Classification of the one-character message-type marker.

use vstd::prelude::*;

verus! {

/// What kind of report the type marker announces.
#[derive(Debug, PartialEq, Eq, Structural, Clone, Copy)]
pub enum APRSMessageType {
    Status,
    PositionWithTimestamp,
    Unknown,
}

impl APRSMessageType {
    /// The classification of a marker character: `>` is a status
    /// report, `/` a position report with timestamp, anything else is
    /// unknown.
    pub open spec fn spec_from(c: char) -> APRSMessageType {
        if c == '>' {
            APRSMessageType::Status
        } else if c == '/' {
            APRSMessageType::PositionWithTimestamp
        } else {
            APRSMessageType::Unknown
        }
    }

    /// Classifies a marker character.
    pub fn from(c: char) -> (r: Self)
        ensures
            r == APRSMessageType::spec_from(c),
    {
        match c {
            '>' => APRSMessageType::Status,
            '/' => APRSMessageType::PositionWithTimestamp,
            _ => APRSMessageType::Unknown,
        }
    }

    /// The classification's name.
    pub open spec fn spec_name(self) -> Seq<char> {
        match self {
            APRSMessageType::Status => "Status"@,
            APRSMessageType::PositionWithTimestamp => "PositionWithTimestamp"@,
            APRSMessageType::Unknown => "Unknown"@,
        }
    }

    /// Renders the classification's name.
    pub fn name(&self) -> (r: String)
        ensures
            r@ == self.spec_name(),
    {
        match self {
            APRSMessageType::Status => String::from_str("Status"),
            APRSMessageType::PositionWithTimestamp => String::from_str("PositionWithTimestamp"),
            APRSMessageType::Unknown => String::from_str("Unknown"),
        }
    }
}

} // verus!
