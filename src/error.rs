//! What can go wrong while retiming.
use vstd::prelude::*;

verus! {

/// Why a retiming request was refused.
#[derive(Clone, Copy, Debug, PartialEq, Eq, Structural)]
pub enum RetimeError {
    /// A target timestamp is not four colon-separated unsigned fields within
    /// their widths.
    MalformedTimestamp,
    /// The track is empty, or its last caption does not start after its
    /// first, so there is no duration to rescale.
    DegenerateTrack,
    /// The target for the last caption lies before the target for the first.
    ReversedTargets,
}

} // verus!
