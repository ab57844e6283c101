//! The static catalog of the 50 block kinds and their placement flags.

use vstd::prelude::*;

verus! {

/// A block id is valid when it names one of the 50 catalogued kinds.
pub open spec fn valid_block(b: u8) -> bool {
    b < 50
}

/// Water and lava (flowing or stationary) and bedrock may only be placed by operators.
pub open spec fn spec_place_op_only(b: u8) -> bool {
    b == 7 || b == 8 || b == 9 || b == 10 || b == 11
}

/// Only bedrock is restricted to operators for destruction.
pub open spec fn spec_destroy_op_only(b: u8) -> bool {
    b == 7
}

/// Sand and gravel fall through fluids.
pub open spec fn spec_fall(b: u8) -> bool {
    b == 12 || b == 13
}

/// Air, water and lava admit blocks being placed into them.
pub open spec fn spec_fluid(b: u8) -> bool {
    b == 0 || b == 8 || b == 9 || b == 10 || b == 11
}

/// The slab combines with itself into the double slab; no other block has a partner.
pub open spec fn spec_slab(b: u8) -> Option<u8> {
    if b == 44 {
        Some(43u8)
    } else {
        None
    }
}

/// The flags of one block kind.
pub struct BlockState {
    pub place_op_only: bool,
    pub destroy_op_only: bool,
    pub fall: bool,
    pub slab: Option<u8>,
    pub fluid: bool,
}

impl BlockState {
    /// Look a block id up in the catalog.
    pub fn of(b: u8) -> (r: BlockState)
        requires
            valid_block(b),
        ensures
            r.place_op_only == spec_place_op_only(b),
            r.destroy_op_only == spec_destroy_op_only(b),
            r.fall == spec_fall(b),
            r.slab == spec_slab(b),
            r.fluid == spec_fluid(b),
    {
        BlockState {
            place_op_only: b == 7 || (8 <= b && b <= 11),
            destroy_op_only: b == 7,
            fall: b == 12 || b == 13,
            slab: if b == 44 {
                Some(43u8)
            } else {
                None
            },
            fluid: b == 0 || (8 <= b && b <= 11),
        }
    }
}

} // verus!
