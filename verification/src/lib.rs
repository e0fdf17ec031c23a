//! Decoder for OGN-flavoured APRS position reports.
pub mod influx;
pub mod model;
pub mod ogn;
pub mod parser;
pub mod util;
