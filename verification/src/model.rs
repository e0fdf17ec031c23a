//! The normalized domain records built from a parsed report.

pub mod ogn_object_position;
pub mod ogn_object_velocity;
pub mod ogn_status_message;
