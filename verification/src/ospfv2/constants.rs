//! Numbers that OSPFv2 is known by.

use vstd::prelude::*;

verus! {

/// The IP protocol number of OSPF.
pub const OSPF_PROTOCOL_NUMBER: u8 = 89;

} // verus!
