//! The record that the map stores for each CIDR block.

use vstd::prelude::*;

verus! {

/// What is known of one CIDR block.
///
/// It is small and `Copy`: a range of several blocks stores one copy with each
/// of them, and the organization's name once, elsewhere, under its index.
#[derive(Debug, Clone, Copy, PartialEq, Eq)]
pub struct AsnRecord {
    /// The autonomous system number.
    pub asn: u32,
    /// The two bytes of the country code.
    pub country_code: [u8; 2],
    /// The place of the organization's name in the map's list of names.
    pub organization_idx: u32,
}

} // verus!
