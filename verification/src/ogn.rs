//! OGN-specific decoding: message-type classification, the packed
//! metadata byte, and the unit conversions of the domain normalizer.

pub mod aprs_message_types;
pub mod ogn_address_type;
pub mod ogn_aircraft_types;
pub mod ogn_flags;
pub mod utils;
