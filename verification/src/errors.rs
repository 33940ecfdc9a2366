use vstd::prelude::*;

verus! {

/// What can go wrong while a cartogram is prepared, built or applied.
#[derive(Debug, Clone, Copy, PartialEq, Eq, Structural)]
pub enum Error {
    /// The source points and the image points differ in number, or there are none.
    InvalidInputPointsLength,
    /// A layer reaches outside the bounding box of the grid.
    GeometriesNotInBBox,
    /// A point lies outside the bounding box of the grid.
    PointNotInBBox,
    /// The two point sets given to a Procrustes analysis differ in number.
    ProcrustesInputLengthMismatch,
    /// The source points and the durations differ in number.
    InvalidInputDurationsLength,
    /// No duration is zero, so no point can serve as the reference.
    NoReferencePoint,
    /// A row of the duration matrix is not as long as the matrix is high.
    DurationMatrixNotSquare,
    /// The principal coordinate analysis gave no result.
    PCoAUnsuccessful,
}

impl Error {
    /// The text of [`Error::message`], as a sequence of characters.
    pub open spec fn spec_message(self) -> Seq<char> {
        match self {
            Error::InvalidInputPointsLength =>
                "The number of source points and image points must be equal"@,
            Error::GeometriesNotInBBox =>
                "The provided geometries don't fall inside the bounding box of the grid"@,
            Error::PointNotInBBox =>
                "The provided point don't fall inside the bounding box of the grid"@,
            Error::ProcrustesInputLengthMismatch =>
                "The two sets of input points for Procrustes analysis must have the same length"@,
            Error::InvalidInputDurationsLength =>
                "The number of source points and duration measurements must be equal"@,
            Error::NoReferencePoint => "No reference point found"@,
            Error::DurationMatrixNotSquare => "The duration matrix is not square"@,
            Error::PCoAUnsuccessful => "An error occurred during the PCoA analysis"@,
        }
    }

    /// A sentence that tells a person what went wrong.
    pub fn message(&self) -> (text: String)
        ensures
            text@ == self.spec_message(),
    {
        match self {
            Error::InvalidInputPointsLength =>
                "The number of source points and image points must be equal".to_owned(),
            Error::GeometriesNotInBBox =>
                "The provided geometries don't fall inside the bounding box of the grid".to_owned(),
            Error::PointNotInBBox =>
                "The provided point don't fall inside the bounding box of the grid".to_owned(),
            Error::ProcrustesInputLengthMismatch =>
                "The two sets of input points for Procrustes analysis must have the same length".to_owned(),
            Error::InvalidInputDurationsLength =>
                "The number of source points and duration measurements must be equal".to_owned(),
            Error::NoReferencePoint => "No reference point found".to_owned(),
            Error::DurationMatrixNotSquare => "The duration matrix is not square".to_owned(),
            Error::PCoAUnsuccessful => "An error occurred during the PCoA analysis".to_owned(),
        }
    }
}

} // verus!
