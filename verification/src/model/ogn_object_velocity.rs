//! The normalized velocity: horizontal speed, vertical rate and turn
//! rate in metric units.

use vstd::prelude::*;

use crate::ogn::utils::fpm_to_m_s;
use crate::ogn::utils::knots_to_m_s;
use crate::ogn::utils::spec_knots_micro_m_s;
use crate::ogn::utils::spec_turn_micro_rad_s;
use crate::ogn::utils::turn_rate_to_rad_s;
use crate::ogn::utils::FPM_MICRO_M_S;
use crate::parser::util::Decimal;

verus! {

/// A normalized velocity: horizontal speed in micrometres per second,
/// the optional vertical rate in micrometres per second, and the
/// optional rotation in microradians per second.
#[derive(Debug, PartialEq, Eq, Structural, Clone, Copy)]
pub struct OGNObjectVelocity {
    pub horizontal_micro_m_s: u64,
    pub vertical_micro_m_s: Option<i64>,
    pub rotation_micro_rad_s: Option<i64>,
}

impl OGNObjectVelocity {
    /// Converts ground speed in knots, the optional vertical rate in
    /// feet per minute, and the optional turn rate in half-turns per
    /// minute into metric units.
    pub fn new(speed: u32, altitude_rate: Option<i64>, rotation_rate: Option<Decimal>) -> (r: Self)
        requires
            altitude_rate matches Some(a) ==> -1000000000000 < a < 1000000000000,
            rotation_rate matches Some(d) ==> d.wf(),
        ensures
            r.horizontal_micro_m_s == spec_knots_micro_m_s(speed),
            match (r.vertical_micro_m_s, altitude_rate) {
                (Some(v), Some(a)) => v == a * FPM_MICRO_M_S,
                (None, None) => true,
                _ => false,
            },
            match (r.rotation_micro_rad_s, rotation_rate) {
                (Some(v), Some(d)) => v == spec_turn_micro_rad_s(d),
                (None, None) => true,
                _ => false,
            },
    {
        OGNObjectVelocity {
            horizontal_micro_m_s: knots_to_m_s(speed),
            vertical_micro_m_s: match altitude_rate {
                Some(rate) => Some(fpm_to_m_s(rate)),
                None => None,
            },
            rotation_micro_rad_s: match rotation_rate {
                Some(rate) => Some(turn_rate_to_rad_s(&rate)),
                None => None,
            },
        }
    }
}

} // verus!
