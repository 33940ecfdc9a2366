use vstd::prelude::*;

verus! {

/// How the reference speed is taken from the speeds at which the points are
/// reached from the reference point.
#[derive(Debug, Clone, Copy, PartialEq, Eq, Structural)]
pub enum CentralTendency {
    /// The arithmetic mean of the speeds.
    Mean,
    /// The median of the speeds.
    Median,
}

} // verus!
