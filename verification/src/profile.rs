//! The profile builder: one profile point for each vertex of each segment.
//!
//! Distances are accumulated in millimetres along a segment, starting from
//! zero at its first vertex, and reported in whole metres. The raster is
//! sampled at the cell nearest to the vertex and the value reported in whole
//! metres. A run ends at the first vertex that cannot be projected or that
//! falls outside the raster.

use vstd::prelude::*;
use crate::error::{ProfileError, ProfileErrorKind};
use crate::raster::RasterBand;
use crate::rounding::{
    div_round,
    div_round_nat,
    lemma_round_div_nat_monotonic,
    lemma_round_div_nat_zero,
    round_div,
    round_div_nat,
};
use crate::track::Vertex;
use crate::transform::Resolver;

verus! {

/// Millimetres in a metre.
pub const MILLIMETRES: u16 = 1000;

/// One point of a profile: the distance travelled since the start of the
/// segment and the raster's elevation, both in whole metres, and the
/// elevation recorded with the vertex, in millimetres, if any.
#[derive(Clone, Copy, Debug, PartialEq, Eq)]
pub struct ProfilePoint {
    pub cumulative_distance: u128,
    pub dem_elevation: i64,
    pub source_elevation: Option<i64>,
}

/// Millimetres travelled from the first vertex of `segment` to vertex `i`:
/// the sum of the legs of the vertices `1..=i`.
pub open spec fn travelled(segment: Seq<Vertex>, i: int) -> nat
    decreases i,
{
    if i <= 0 {
        0
    } else {
        travelled(segment, i - 1) + segment[i].leg as nat
    }
}

/// The distance reported for vertex `i` of `segment`, in metres.
pub open spec fn distance_at(segment: Seq<Vertex>, i: int) -> nat {
    round_div_nat(travelled(segment, i), MILLIMETRES as nat)
}

/// Why `v` cannot be turned into a profile point, if anything prevents it:
/// a latitude outside the domain or a missing planar position first, a cell
/// outside the raster second.
pub open spec fn vertex_failure(resolver: Resolver, band: RasterBand, v: Vertex) -> Option<
    ProfileErrorKind,
> {
    if !v.position.in_domain() || v.planar is None {
        Some(ProfileErrorKind::ProjectionDomain)
    } else if !band.contains_cell(
        resolver.transform.pixel_column(v.planar.unwrap()),
        resolver.transform.pixel_row(v.planar.unwrap()),
    ) {
        Some(ProfileErrorKind::RasterSample)
    } else {
        None
    }
}

/// The raster's elevation at the cell nearest to `v`, in metres.
pub open spec fn sampled_elevation(resolver: Resolver, band: RasterBand, v: Vertex) -> int {
    round_div(
        band.value_at(
            resolver.transform.pixel_column(v.planar.unwrap()),
            resolver.transform.pixel_row(v.planar.unwrap()),
        ) as int,
        MILLIMETRES as int,
    )
}

/// Whether `p` is the profile point of `v` after `millimetres` travelled.
pub open spec fn point_of(
    p: ProfilePoint,
    resolver: Resolver,
    band: RasterBand,
    v: Vertex,
    millimetres: nat,
) -> bool {
    &&& p.cumulative_distance == round_div_nat(millimetres, MILLIMETRES as nat)
    &&& p.dem_elevation == sampled_elevation(resolver, band, v)
    &&& p.source_elevation == v.position.elevation
}

/// Whether the first `upto` vertices of `segment` can all be processed.
pub open spec fn segment_clear(
    resolver: Resolver,
    band: RasterBand,
    segment: Seq<Vertex>,
    upto: int,
) -> bool {
    forall|j: int|
        0 <= j < upto ==> vertex_failure(resolver, band, #[trigger] segment[j]) is None
}

/// Whether `points` is the profile of the one segment `segment`.
pub open spec fn segment_matches(
    points: Seq<ProfilePoint>,
    resolver: Resolver,
    band: RasterBand,
    segment: Seq<Vertex>,
) -> bool {
    &&& points.len() == segment.len()
    &&& forall|i: int|
        0 <= i < segment.len() ==> point_of(
            #[trigger] points[i],
            resolver,
            band,
            segment[i],
            travelled(segment, i),
        )
}

/// The number of vertices in the first `k` segments.
pub open spec fn vertices_before(segments: Seq<Vec<Vertex>>, k: int) -> nat
    decreases k,
{
    if k <= 0 {
        0
    } else {
        vertices_before(segments, k - 1) + segments[k - 1]@.len()
    }
}

/// The place in the profile of vertex `i` of segment `k`.
pub open spec fn slot(segments: Seq<Vec<Vertex>>, k: int, i: int) -> int {
    vertices_before(segments, k) + i
}

/// Whether `points` holds the profiles of the first `upto` segments, one
/// after the other.
pub open spec fn profile_covers(
    points: Seq<ProfilePoint>,
    resolver: Resolver,
    band: RasterBand,
    segments: Seq<Vec<Vertex>>,
    upto: int,
) -> bool {
    &&& points.len() == vertices_before(segments, upto)
    &&& forall|k: int, i: int|
        0 <= k < upto && 0 <= i < segments[k]@.len() ==> point_of(
            points[#[trigger] slot(segments, k, i)],
            resolver,
            band,
            segments[k]@[i],
            travelled(segments[k]@, i),
        )
}

/// Whether `points` is the profile of `segments`: one point for each vertex,
/// in the order of the segments and of the vertices within them.
pub open spec fn profile_matches(
    points: Seq<ProfilePoint>,
    resolver: Resolver,
    band: RasterBand,
    segments: Seq<Vec<Vertex>>,
) -> bool {
    profile_covers(points, resolver, band, segments, segments.len() as int)
}

/// Whether every vertex of the first `upto` segments can be processed.
pub open spec fn segments_clear(
    resolver: Resolver,
    band: RasterBand,
    segments: Seq<Vec<Vertex>>,
    upto: int,
) -> bool {
    forall|k: int|
        0 <= k < upto ==> segment_clear(
            resolver,
            band,
            (#[trigger] segments[k])@,
            segments[k]@.len() as int,
        )
}

/// Whether `e` names the first vertex of `segments`, in their order, that
/// cannot be processed, and the reason for it.
pub open spec fn first_failure(
    e: ProfileError,
    resolver: Resolver,
    band: RasterBand,
    segments: Seq<Vec<Vertex>>,
) -> bool {
    &&& e.segment < segments.len()
    &&& segments_clear(resolver, band, segments, e.segment as int)
    &&& e.vertex < segments[e.segment as int]@.len()
    &&& segment_clear(resolver, band, segments[e.segment as int]@, e.vertex as int)
    &&& vertex_failure(resolver, band, segments[e.segment as int]@[e.vertex as int]) == Some(
        e.kind,
    )
}

/// The profile point of one vertex, `millimetres` after the start of its
/// segment. Fails where the vertex cannot be projected, and otherwise where
/// its nearest cell lies outside the raster.
pub fn profile_point(resolver: &Resolver, band: &RasterBand, v: &Vertex, millimetres: u128) -> (r:
    Result<ProfilePoint, ProfileErrorKind>)
    requires
        resolver.well_formed(),
        band.well_formed(),
    ensures
        match vertex_failure(*resolver, *band, *v) {
            Some(kind) => r == Err::<ProfilePoint, ProfileErrorKind>(kind),
            None => r.is_ok() && point_of(r.unwrap(), *resolver, *band, *v, millimetres as nat),
        },
{
    if !v.position.projectable() {
        return Err(ProfileErrorKind::ProjectionDomain);
    }
    let planar = match v.planar {
        Some(planar) => planar,
        None => {
            return Err(ProfileErrorKind::ProjectionDomain);
        },
    };
    let pixel = resolver.nearest_pixel(planar);
    let value: i64 = match band.read_cell(pixel) {
        Ok(value) => value,
        Err(_) => {
            return Err(ProfileErrorKind::RasterSample);
        },
    };
    let metres: i128 = div_round(value as i128, MILLIMETRES as i128);
    Ok(
        ProfilePoint {
            cumulative_distance: div_round_nat(millimetres, MILLIMETRES as u128),
            dem_elevation: metres as i64,
            source_elevation: v.position.elevation,
        },
    )
}

/// The profile of one segment. The distance starts at zero at the first
/// vertex and grows by each later vertex's leg. On failure the error names
/// the first vertex that cannot be processed, in segment 0.
pub fn build_segment(resolver: &Resolver, band: &RasterBand, segment: &Vec<Vertex>) -> (r: Result<
    Vec<ProfilePoint>,
    ProfileError,
>)
    requires
        resolver.well_formed(),
        band.well_formed(),
    ensures
        match r {
            Ok(points) => segment_clear(*resolver, *band, segment@, segment@.len() as int)
                && segment_matches(points@, *resolver, *band, segment@),
            Err(e) => e.segment == 0 && e.vertex < segment@.len() && segment_clear(
                *resolver,
                *band,
                segment@,
                e.vertex as int,
            ) && vertex_failure(*resolver, *band, segment@[e.vertex as int]) == Some(e.kind),
        },
{
    let mut points: Vec<ProfilePoint> = Vec::new();
    let mut total: u128 = 0;
    let mut i: usize = 0;
    while i < segment.len()
        invariant
            i <= segment@.len(),
            resolver.well_formed(),
            band.well_formed(),
            points@.len() == i,
            i > 0 ==> total == travelled(segment@, i - 1),
            i == 0 ==> total == 0,
            total <= i * 0xffff_ffff_ffff_ffff,
            segment_clear(*resolver, *band, segment@, i as int),
            forall|j: int|
                0 <= j < i ==> point_of(
                    #[trigger] points@[j],
                    *resolver,
                    *band,
                    segment@[j],
                    travelled(segment@, j),
                ),
        decreases segment@.len() - i,
    {
        let v: Vertex = segment[i];
        if i > 0 {
            assert(i * 0xffff_ffff_ffff_ffff + 0xffff_ffff_ffff_ffff == (i + 1)
                * 0xffff_ffff_ffff_ffff <= 0xffff_ffff_ffff_ffff * 0xffff_ffff_ffff_ffff)
                by (nonlinear_arith)
                requires
                    0 <= i < 0xffff_ffff_ffff_ffff,
            ;
            total = total + v.leg as u128;
        }
        assert(total == travelled(segment@, i as int));
        assert(total <= (i + 1) * 0xffff_ffff_ffff_ffff) by (nonlinear_arith)
            requires
                i == 0 ==> total == 0,
                i > 0 ==> total <= i * 0xffff_ffff_ffff_ffff + 0xffff_ffff_ffff_ffff,
                i >= 0,
        ;
        match profile_point(resolver, band, &v, total) {
            Ok(p) => {
                points.push(p);
            },
            Err(kind) => {
                return Err(ProfileError { kind, segment: 0, vertex: i });
            },
        }
        i += 1;
    }
    Ok(points)
}

/// The first `k` segments end before segment `s` begins, for `k < s`.
proof fn lemma_vertices_before_ordered(segments: Seq<Vec<Vertex>>, k: int, s: int)
    requires
        0 <= k < s,
    ensures
        vertices_before(segments, k) + segments[k]@.len() <= vertices_before(segments, s),
    decreases s,
{
    if k + 1 < s {
        lemma_vertices_before_ordered(segments, k, s - 1);
    }
}

/// The profile of all segments, one after the other in the order given; the
/// distance starts again at zero with each segment. On failure the error
/// names the first vertex that cannot be processed and nothing is returned
/// for any segment.
pub fn build(resolver: &Resolver, band: &RasterBand, segments: &Vec<Vec<Vertex>>) -> (r: Result<
    Vec<ProfilePoint>,
    ProfileError,
>)
    requires
        resolver.well_formed(),
        band.well_formed(),
    ensures
        match r {
            Ok(points) => segments_clear(*resolver, *band, segments@, segments@.len() as int)
                && profile_matches(points@, *resolver, *band, segments@),
            Err(e) => first_failure(e, *resolver, *band, segments@),
        },
{
    let mut profile: Vec<ProfilePoint> = Vec::new();
    let mut s: usize = 0;
    while s < segments.len()
        invariant
            s <= segments@.len(),
            resolver.well_formed(),
            band.well_formed(),
            segments_clear(*resolver, *band, segments@, s as int),
            profile_covers(profile@, *resolver, *band, segments@, s as int),
        decreases segments@.len() - s,
    {
        match build_segment(resolver, band, &segments[s]) {
            Ok(mut points) => {
                let ghost before = profile@;
                let ghost added = points@;
                profile.append(&mut points);
                proof {
                    assert forall|k: int, i: int|
                        0 <= k < s + 1 && 0 <= i < segments@[k]@.len() implies point_of(
                        profile@[#[trigger] slot(segments@, k, i)],
                        *resolver,
                        *band,
                        segments@[k]@[i],
                        travelled(segments@[k]@, i),
                    ) by {
                        if k < s {
                            lemma_vertices_before_ordered(segments@, k, s as int);
                            assert(profile@[slot(segments@, k, i)] == before[slot(
                                segments@,
                                k,
                                i,
                            )]);
                        } else {
                            assert(profile@[slot(segments@, k, i)] == added[i]);
                        }
                    }
                }
            },
            Err(e) => {
                return Err(ProfileError { kind: e.kind, segment: s, vertex: e.vertex });
            },
        }
        s += 1;
    }
    Ok(profile)
}

/// A segment of no vertex or of one vertex has a profile of the same length,
/// and the distance of its only point, if it has one, is zero.
pub proof fn lemma_short_segment(
    points: Seq<ProfilePoint>,
    resolver: Resolver,
    band: RasterBand,
    segment: Seq<Vertex>,
)
    requires
        segment.len() <= 1,
        segment_matches(points, resolver, band, segment),
    ensures
        points.len() == segment.len(),
        segment.len() == 1 ==> points[0].cumulative_distance == 0,
{
    lemma_round_div_nat_zero(MILLIMETRES as nat);
    if segment.len() == 1 {
        assert(point_of(points[0], resolver, band, segment[0], travelled(segment, 0)));
    }
}

/// Within a segment the reported distance never decreases from one vertex to
/// the next.
pub proof fn lemma_distance_never_decreases(
    points: Seq<ProfilePoint>,
    resolver: Resolver,
    band: RasterBand,
    segment: Seq<Vertex>,
    i: int,
)
    requires
        segment_matches(points, resolver, band, segment),
        0 < i < segment.len(),
    ensures
        points[i - 1].cumulative_distance <= points[i].cumulative_distance,
{
    lemma_round_div_nat_monotonic(
        travelled(segment, i - 1),
        travelled(segment, i),
        MILLIMETRES as nat,
    );
}

/// A profile has one point for each vertex of all its segments, and the
/// distance is zero at the first vertex of every segment that has one,
/// whatever the segments before it hold.
pub proof fn lemma_distance_resets_per_segment(
    points: Seq<ProfilePoint>,
    resolver: Resolver,
    band: RasterBand,
    segments: Seq<Vec<Vertex>>,
    k: int,
)
    requires
        profile_matches(points, resolver, band, segments),
        0 <= k < segments.len(),
        segments[k]@.len() > 0,
    ensures
        points.len() == vertices_before(segments, segments.len() as int),
        vertices_before(segments, k) < points.len(),
        points[vertices_before(segments, k) as int].cumulative_distance == 0,
{
    lemma_vertices_before_ordered(segments, k, segments.len() as int);
    lemma_round_div_nat_zero(MILLIMETRES as nat);
    assert(slot(segments, k, 0) == vertices_before(segments, k));
    assert(point_of(
        points[slot(segments, k, 0)],
        resolver,
        band,
        segments[k]@[0],
        travelled(segments[k]@, 0),
    ));
}

/// Within each segment of a profile the reported distance never decreases
/// from one vertex to the next.
pub proof fn lemma_profile_distance_never_decreases(
    points: Seq<ProfilePoint>,
    resolver: Resolver,
    band: RasterBand,
    segments: Seq<Vec<Vertex>>,
    k: int,
    i: int,
)
    requires
        profile_matches(points, resolver, band, segments),
        0 <= k < segments.len(),
        0 < i < segments[k]@.len(),
    ensures
        points[slot(segments, k, i - 1)].cumulative_distance <= points[slot(
            segments,
            k,
            i,
        )].cumulative_distance,
{
    lemma_round_div_nat_monotonic(
        travelled(segments[k]@, i - 1),
        travelled(segments[k]@, i),
        MILLIMETRES as nat,
    );
    assert(slot(segments, k, i - 1) == vertices_before(segments, k) + i - 1);
    assert(slot(segments, k, i) == vertices_before(segments, k) + i);
}

} // verus!
