//! The failures that end a run.

use vstd::prelude::*;

verus! {

/// A fault in the configuration; nothing is processed after one.
#[derive(Clone, Copy, Debug, PartialEq, Eq, Structural)]
pub enum ConfigurationError {
    /// No planar zone is configured.
    MissingZone,
    /// The planar zone is not one of the sixty zones.
    InvalidZone,
    /// A scale or rotation coefficient of the geo-transform is too large in
    /// magnitude for the arithmetic of the resolver.
    CoefficientOutOfRange,
    /// The geo-transform has determinant zero and cannot be inverted.
    SingularTransform,
}

/// Why a vertex could not be turned into a profile point.
#[derive(Clone, Copy, Debug, PartialEq, Eq, Structural)]
pub enum ProfileErrorKind {
    /// The vertex lies outside the latitudes that the projection covers.
    ProjectionDomain,
    /// The vertex falls on a pixel outside the raster's extent.
    RasterSample,
}

/// The first failure of a run, with the place of the vertex that caused it.
#[derive(Clone, Copy, Debug, PartialEq, Eq, Structural)]
pub struct ProfileError {
    pub kind: ProfileErrorKind,
    /// Index of the segment among the segments handed in.
    pub segment: usize,
    /// Index of the vertex within its segment.
    pub vertex: usize,
}

impl ConfigurationError {
    /// The sentence that describes the fault.
    pub open spec fn text(self) -> Seq<char> {
        match self {
            ConfigurationError::MissingZone => "planar zone is missing"@,
            ConfigurationError::InvalidZone => "planar zone is not between 1 and 60"@,
            ConfigurationError::CoefficientOutOfRange => "geo-transform coefficient is out of range"@,
            ConfigurationError::SingularTransform => "geo-transform cannot be inverted"@,
        }
    }

    /// A sentence that describes the fault.
    pub fn message(&self) -> (s: &'static str)
        ensures
            s@ == self.text(),
    {
        match self {
            ConfigurationError::MissingZone => "planar zone is missing",
            ConfigurationError::InvalidZone => "planar zone is not between 1 and 60",
            ConfigurationError::CoefficientOutOfRange => "geo-transform coefficient is out of range",
            ConfigurationError::SingularTransform => "geo-transform cannot be inverted",
        }
    }
}

} // verus!
