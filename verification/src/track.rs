//! Track vertices and the domain of the projection.

use vstd::prelude::*;
use crate::error::ConfigurationError;
use crate::transform::PlanarPoint;

verus! {

/// The southern limit of the projection, 80 degrees south, in 1e-7 degree.
pub const MIN_LATITUDE: i64 = -800_000_000;

/// The northern limit of the projection, 84 degrees north, in 1e-7 degree.
pub const MAX_LATITUDE: i64 = 840_000_000;

/// The first planar zone.
pub const FIRST_ZONE: u8 = 1;

/// The last planar zone.
pub const LAST_ZONE: u8 = 60;

/// A geographic position: longitude and latitude in 1e-7 degree, and the
/// elevation recorded with it, in millimetres, if any.
#[derive(Clone, Copy, Debug, PartialEq, Eq)]
pub struct GeoPoint {
    pub longitude: i64,
    pub latitude: i64,
    pub elevation: Option<i64>,
}

/// One vertex of a track, with what was measured for it: its planar
/// position, if the projection gave one, and the ground distance from the
/// vertex before it, in millimetres. The distance of a segment's first vertex
/// is not read.
#[derive(Clone, Copy, Debug, PartialEq, Eq)]
pub struct Vertex {
    pub position: GeoPoint,
    pub planar: Option<PlanarPoint>,
    pub leg: u64,
}

impl GeoPoint {
    /// Whether the latitude lies within the projection's domain.
    pub open spec fn in_domain(self) -> bool {
        MIN_LATITUDE <= self.latitude <= MAX_LATITUDE
    }

    /// Tells whether the point can be projected.
    pub fn projectable(&self) -> (ok: bool)
        ensures
            ok == self.in_domain(),
    {
        MIN_LATITUDE <= self.latitude && self.latitude <= MAX_LATITUDE
    }
}

/// Whether `zone` names one of the sixty planar zones.
pub open spec fn zone_valid(zone: u8) -> bool {
    FIRST_ZONE <= zone <= LAST_ZONE
}

/// Accepts a planar zone from 1 to 60. Fails where none is configured, and
/// where the one configured is not among the sixty.
pub fn check_zone(zone: Option<u8>) -> (r: Result<u8, ConfigurationError>)
    ensures
        r == (match zone {
            None => Err::<u8, ConfigurationError>(ConfigurationError::MissingZone),
            Some(z) => if zone_valid(z) {
                Ok::<u8, ConfigurationError>(z)
            } else {
                Err::<u8, ConfigurationError>(ConfigurationError::InvalidZone)
            },
        }),
{
    match zone {
        None => Err(ConfigurationError::MissingZone),
        Some(z) => {
            if FIRST_ZONE <= z && z <= LAST_ZONE {
                Ok(z)
            } else {
                Err(ConfigurationError::InvalidZone)
            }
        },
    }
}

} // verus!
