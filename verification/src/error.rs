//! The errors of the masking functions.
use vstd::prelude::*;

verus! {

/// Why a masking call was refused.
#[derive(Clone, Copy, Debug, PartialEq, Eq, Structural)]
pub enum MaskError {
    /// The span length does not fit strictly inside the padded width, or the
    /// masking probability lies outside `(0, 1]`.
    InvalidConfig,
    /// The extents of the arguments disagree with one another.
    ShapeMismatch,
    /// The selected strategy is reserved and has no algorithm yet.
    NotImplemented,
}

} // verus!
