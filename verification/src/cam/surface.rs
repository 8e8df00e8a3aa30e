//! Deviation classes of a carved surface against its target.

use vstd::prelude::*;

verus! {

/// How a carved simulation cell deviates from the target surface.
#[derive(Debug, Clone, Copy, PartialEq, Eq, Structural)]
pub enum Deviation {
    /// Within tolerance of the target.
    OnTarget,
    /// Carved below the target: material removed that should remain.
    Gouge,
    /// Left above the target: rest stock still to remove.
    RestStock,
}

impl Deviation {
    /// The stable wire value a frontend maps to a vertex color.
    pub fn wire_value(self) -> (v: u8)
        ensures
            v == match self {
                Deviation::OnTarget => 0u8,
                Deviation::Gouge => 1u8,
                Deviation::RestStock => 2u8,
            },
    {
        match self {
            Deviation::OnTarget => 0,
            Deviation::Gouge => 1,
            Deviation::RestStock => 2,
        }
    }
}

} // verus!
