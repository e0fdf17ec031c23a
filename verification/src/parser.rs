//! The grammar, staged bottom-up: primitive readers, envelope, timestamp,
//! position, extensions, and the assembled message.

pub mod aprs;
pub mod extensions;
pub mod parse;
pub mod position;
pub mod time;
pub mod util;
