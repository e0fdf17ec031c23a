//! The privacy flags of the packed metadata byte.

use vstd::prelude::*;

verus! {

/// The two privacy bits of the metadata byte: stealth mode (bit 7,
/// should never be set on the public network) and the request not to
/// be tracked (bit 6).
#[derive(Debug, PartialEq, Eq, Structural, Clone, Copy)]
pub struct OGNFlags {
    pub stealth_mode: bool,
    pub no_tracking_mode: bool,
}

impl OGNFlags {
    /// The flags packed in bits 7 and 6 of the metadata byte.
    pub open spec fn spec_from(meta: usize) -> OGNFlags {
        OGNFlags {
            stealth_mode: (meta >> 7) & 1 != 0,
            no_tracking_mode: (meta >> 6) & 1 != 0,
        }
    }

    /// Decodes the privacy flags from the metadata byte.
    pub fn from(meta: usize) -> (r: Self)
        ensures
            r == OGNFlags::spec_from(meta),
    {
        let no_tracking_mode = ((meta >> 6) & 1) != 0;
        let stealth_mode = ((meta >> 7) & 1) != 0;
        OGNFlags { stealth_mode, no_tracking_mode }
    }
}

/// The privacy flags read only bits 6 and 7: metadata bytes agreeing
/// there decode alike, whatever their aircraft-type or address-type
/// bits hold.
pub proof fn lemma_flags_use_privacy_bits_only(m1: usize, m2: usize)
    requires
        (m1 >> 6) & 1 == (m2 >> 6) & 1,
        (m1 >> 7) & 1 == (m2 >> 7) & 1,
    ensures
        OGNFlags::spec_from(m1) == OGNFlags::spec_from(m2),
{
}

} // verus!
