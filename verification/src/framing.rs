//! Per-shot framing treatments.

use vstd::prelude::*;

verus! {

/// How a shot is framed within the export canvas.
#[derive(Debug, Clone, Copy, PartialEq, Eq, Structural)]
pub enum ShotTreatment {
    /// Source frame as-is (entries with this treatment are not stored).
    Full,
    /// Zoom into the center of the frame.
    PunchIn,
    /// Shrink to the bottom-right corner.
    CornerBr,
    /// Shrink to the top-left corner.
    CornerTl,
    /// Shrink onto the left half.
    SplitL,
    /// Shrink onto the right half.
    SplitR,
}

/// Whether any shot asks for real framing work (anything but `Full`).
pub fn any_non_full(treatments: &Vec<ShotTreatment>) -> (r: bool)
    ensures
        r == exists|i: int| 0 <= i < treatments@.len() && #[trigger] treatments@[i] != ShotTreatment::Full,
{
    let mut i: usize = 0;
    while i < treatments.len()
        invariant
            0 <= i <= treatments@.len(),
            forall|k: int| 0 <= k < i ==> #[trigger] treatments@[k] == ShotTreatment::Full,
        decreases treatments@.len() - i,
    {
        if treatments[i] != ShotTreatment::Full {
            return true;
        }
        i = i + 1;
    }
    false
}

} // verus!
