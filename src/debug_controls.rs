//! State of the on-screen debug overlay. It holds nothing yet, and no
//! message changes it.
use vstd::prelude::*;

verus! {

/// The debug overlay's state.
#[derive(Debug, PartialEq, Eq, Structural)]
pub struct DebugControls {}

impl DebugControls {
    /// The overlay's starting state.
    pub fn new() -> (r: DebugControls)
        ensures
            r == (DebugControls {}),
    {
        DebugControls {}
    }
}

} // verus!
