use vstd::prelude::*;

verus! {

/// The family of plane transformations that image points are fitted with
/// before a cartogram is built from them.
#[derive(Debug, Clone, Copy, PartialEq, Eq, Structural)]
pub enum AdjustmentType {
    /// Any affine map: two scales, two shears and a translation.
    Affine,
    /// A similarity: one scale, one rotation and a translation.
    Euclidean,
}

} // verus!
