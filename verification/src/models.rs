//! The verdicts of the verification pipeline.

use vstd::prelude::*;

verus! {

/// The verdict that the pipeline reaches on a claim.
#[derive(Debug, Clone, Copy, PartialEq, Eq, Structural)]
pub enum VerificationStatus {
    Smoke,
    GrayBlack,
    GrayMid,
    GrayWhite,
    White,
}

} // verus!
