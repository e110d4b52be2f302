use elevation_profile::error::{ConfigurationError, ProfileError, ProfileErrorKind};
use elevation_profile::profile::{build, build_segment, profile_point, ProfilePoint};
use elevation_profile::raster::RasterBand;
use elevation_profile::track::{check_zone, GeoPoint, Vertex, MAX_LATITUDE, MIN_LATITUDE};
use elevation_profile::transform::{AffineTransform, PlanarPoint, Resolver};
use geo::{Distance, Haversine, Point};

fn resolver() -> Resolver {
    Resolver::new(AffineTransform {
        x_origin: 500_000_000,
        x_per_column: 30_000,
        x_per_row: 0,
        y_origin: 6_100_000_000,
        y_per_column: 0,
        y_per_row: -30_000,
    })
    .unwrap()
}

fn constant_band(width: usize, height: usize, value: i64) -> RasterBand {
    RasterBand::new(width, height, vec![value; width * height]).unwrap()
}

fn vertex_at(column: i64, row: i64, leg: u64) -> Vertex {
    Vertex {
        position: GeoPoint { longitude: 150_000_000, latitude: 550_000_000, elevation: None },
        planar: Some(PlanarPoint {
            easting: 500_000_000 + column * 30_000,
            northing: 6_100_000_000 - row * 30_000,
        }),
        leg,
    }
}

fn to_fixed(degrees: f64) -> i64 {
    (degrees * 1e7).round() as i64
}

fn to_millimetres(metres: f64) -> i64 {
    (metres * 1e3).round() as i64
}

#[test]
fn empty_segment_gives_empty_profile() {
    let band = constant_band(4, 4, 1_000);
    assert_eq!(build_segment(&resolver(), &band, &vec![]), Ok(vec![]));
    assert_eq!(build(&resolver(), &band, &vec![]), Ok(vec![]));
    assert_eq!(build(&resolver(), &band, &vec![vec![], vec![]]), Ok(vec![]));
}

#[test]
fn single_vertex_has_distance_zero() {
    let band = constant_band(4, 4, 7_600);
    let points = build_segment(&resolver(), &band, &vec![vertex_at(1, 2, 987_654)]).unwrap();
    assert_eq!(
        points,
        vec![ProfilePoint { cumulative_distance: 0, dem_elevation: 8, source_elevation: None }]
    );
}

#[test]
fn distance_accumulates_and_is_rounded_to_metres() {
    let band = constant_band(4, 4, 0);
    let segment = vec![
        vertex_at(0, 0, 5_000),
        vertex_at(1, 0, 499),
        vertex_at(2, 0, 1),
        vertex_at(3, 0, 999),
        vertex_at(3, 1, 1),
        vertex_at(3, 2, 0),
        vertex_at(3, 3, 41_234),
    ];
    let points = build_segment(&resolver(), &band, &segment).unwrap();
    let distances: Vec<u128> = points.iter().map(|p| p.cumulative_distance).collect();
    assert_eq!(distances, vec![0, 0, 1, 1, 2, 2, 43]);
}

#[test]
fn distance_never_decreases_within_a_segment() {
    let band = constant_band(8, 8, 0);
    let mut segment = Vec::new();
    for i in 0..64u64 {
        segment.push(vertex_at((i % 8) as i64, (i / 8) as i64, (i * 7_919) % 3_001));
    }
    let points = build_segment(&resolver(), &band, &segment).unwrap();
    assert_eq!(points.len(), segment.len());
    for i in 1..points.len() {
        assert!(points[i].cumulative_distance >= points[i - 1].cumulative_distance);
    }
}

#[test]
fn huge_legs_do_not_overflow() {
    let band = constant_band(1, 1, 0);
    let segment = vec![vertex_at(0, 0, 0), vertex_at(0, 0, u64::MAX), vertex_at(0, 0, u64::MAX)];
    let points = build_segment(&resolver(), &band, &segment).unwrap();
    assert_eq!(points[1].cumulative_distance, 18_446_744_073_709_552);
    assert_eq!(points[2].cumulative_distance, 36_893_488_147_419_103);
}

#[test]
fn distance_resets_with_each_segment() {
    let band = constant_band(4, 4, 2_500);
    let segments = vec![
        vec![vertex_at(0, 0, 0), vertex_at(1, 1, 42_000), vertex_at(2, 2, 42_000)],
        vec![],
        vec![vertex_at(3, 3, 77_000), vertex_at(2, 3, 30_000)],
        vec![vertex_at(0, 3, 1_000_000)],
    ];
    let points = build(&resolver(), &band, &segments).unwrap();
    let distances: Vec<u128> = points.iter().map(|p| p.cumulative_distance).collect();
    assert_eq!(distances, vec![0, 42, 84, 0, 30, 0]);
    for p in &points {
        assert_eq!(p.dem_elevation, 3);
    }
}

#[test]
fn profile_follows_input_order() {
    let cells: Vec<i64> = (0..16).map(|i| i * 1_000).collect();
    let band = RasterBand::new(4, 4, cells).unwrap();
    let segments =
        vec![vec![vertex_at(3, 0, 0), vertex_at(0, 1, 0)], vec![vertex_at(2, 3, 0)]];
    let points = build(&resolver(), &band, &segments).unwrap();
    let elevations: Vec<i64> = points.iter().map(|p| p.dem_elevation).collect();
    assert_eq!(elevations, vec![3, 4, 14]);
}

#[test]
fn sampled_elevation_is_rounded_to_metres() {
    let band = RasterBand::new(2, 2, vec![1_499, 1_500, -1_499, -1_500]).unwrap();
    let segment =
        vec![vertex_at(0, 0, 0), vertex_at(1, 0, 0), vertex_at(0, 1, 0), vertex_at(1, 1, 0)];
    let points = build_segment(&resolver(), &band, &segment).unwrap();
    let elevations: Vec<i64> = points.iter().map(|p| p.dem_elevation).collect();
    assert_eq!(elevations, vec![1, 2, -1, -2]);
}

#[test]
fn source_elevation_is_kept_unrounded() {
    let band = constant_band(2, 2, 0);
    let mut with = vertex_at(0, 0, 0);
    with.position.elevation = Some(123_456);
    let without = vertex_at(1, 1, 10);
    let points = build_segment(&resolver(), &band, &vec![with, without]).unwrap();
    assert_eq!(points[0].source_elevation, Some(123_456));
    assert_eq!(points[1].source_elevation, None);
}

#[test]
fn constant_raster_samples_its_value_at_origin_and_next_cell() {
    let (lat0, lon0) = utm::wsg84_utm_to_lat_lon(500_000.0, 6_100_000.0, 33, 'U').unwrap();
    let (lat1, lon1) = utm::wsg84_utm_to_lat_lon(500_030.0, 6_099_970.0, 33, 'U').unwrap();
    let mut segment = Vec::new();
    let mut previous: Option<Point<f64>> = None;
    let mut metres = 0.0;
    for (lat, lon) in [(lat0, lon0), (lat1, lon1)] {
        let here = Point::new(lon, lat);
        if let Some(before) = previous {
            metres = Haversine.distance(before, here);
        }
        previous = Some(here);
        let (northing, easting, _) = utm::to_utm_wgs84(lat, lon, 33);
        segment.push(Vertex {
            position: GeoPoint {
                longitude: to_fixed(lon),
                latitude: to_fixed(lat),
                elevation: Some(1_200_000),
            },
            planar: Some(PlanarPoint {
                easting: to_millimetres(easting),
                northing: to_millimetres(northing),
            }),
            leg: to_millimetres(metres) as u64,
        });
    }
    assert!((metres - 42.43).abs() < 1.0);
    let band = constant_band(2, 2, 1_234_000);
    let points = build(&resolver(), &band, &vec![segment]).unwrap();
    assert_eq!(points.len(), 2);
    assert_eq!(points[0].dem_elevation, 1234);
    assert_eq!(points[1].dem_elevation, 1234);
    assert_eq!(points[0].cumulative_distance, 0);
    assert_eq!(points[1].cumulative_distance, metres.round() as u128);
    assert_eq!(points[1].cumulative_distance, 42);
}

#[test]
fn pixel_outside_raster_is_a_sample_error() {
    let band = constant_band(2, 2, 1_000);
    for (column, row) in [(-1, 0), (0, -1), (2, 0), (0, 2), (2, 2)] {
        let segment = vec![vertex_at(0, 0, 0), vertex_at(column, row, 10)];
        assert_eq!(
            build_segment(&resolver(), &band, &segment),
            Err(ProfileError { kind: ProfileErrorKind::RasterSample, segment: 0, vertex: 1 })
        );
        assert_eq!(
            profile_point(&resolver(), &band, &vertex_at(column, row, 10), 0),
            Err(ProfileErrorKind::RasterSample)
        );
    }
}

#[test]
fn pole_is_outside_the_projection_domain() {
    let band = constant_band(2, 2, 1_000);
    let mut pole = vertex_at(0, 0, 0);
    pole.position.latitude = 900_000_000;
    assert!(!pole.position.projectable());
    assert_eq!(
        build(&resolver(), &band, &vec![vec![pole]]),
        Err(ProfileError { kind: ProfileErrorKind::ProjectionDomain, segment: 0, vertex: 0 })
    );
}

#[test]
fn latitude_limits_are_inside_the_domain() {
    let band = constant_band(2, 2, 1_000);
    for (latitude, ok) in [
        (MIN_LATITUDE, true),
        (MAX_LATITUDE, true),
        (MIN_LATITUDE - 1, false),
        (MAX_LATITUDE + 1, false),
        (-900_000_000, false),
        (0, true),
    ] {
        let mut v = vertex_at(0, 0, 0);
        v.position.latitude = latitude;
        assert_eq!(v.position.projectable(), ok);
        assert_eq!(profile_point(&resolver(), &band, &v, 0).is_ok(), ok);
    }
}

#[test]
fn vertex_without_planar_position_is_a_domain_error() {
    let band = constant_band(2, 2, 1_000);
    let mut v = vertex_at(0, 0, 0);
    v.planar = None;
    assert_eq!(
        profile_point(&resolver(), &band, &v, 0),
        Err(ProfileErrorKind::ProjectionDomain)
    );
}

#[test]
fn domain_is_checked_before_the_raster() {
    let band = constant_band(2, 2, 1_000);
    let mut v = vertex_at(5, 5, 0);
    v.position.latitude = 900_000_000;
    assert_eq!(
        profile_point(&resolver(), &band, &v, 0),
        Err(ProfileErrorKind::ProjectionDomain)
    );
}

#[test]
fn first_failing_vertex_is_reported() {
    let band = constant_band(2, 2, 1_000);
    let mut pole = vertex_at(0, 0, 0);
    pole.position.latitude = 900_000_000;
    let segments = vec![
        vec![vertex_at(0, 0, 0), vertex_at(1, 1, 5)],
        vec![],
        vec![vertex_at(1, 0, 0), vertex_at(0, 1, 5), vertex_at(9, 9, 5), pole],
        vec![pole],
    ];
    assert_eq!(
        build(&resolver(), &band, &segments),
        Err(ProfileError { kind: ProfileErrorKind::RasterSample, segment: 2, vertex: 2 })
    );
}

#[test]
fn profile_point_rounds_the_distance_handed_in() {
    let band = constant_band(1, 1, 2_499);
    let p = profile_point(&resolver(), &band, &vertex_at(0, 0, 77), 12_500).unwrap();
    assert_eq!(
        p,
        ProfilePoint { cumulative_distance: 13, dem_elevation: 2, source_elevation: None }
    );
}

#[test]
fn zones_from_one_to_sixty_are_accepted() {
    assert_eq!(check_zone(Some(0)), Err(ConfigurationError::InvalidZone));
    assert_eq!(check_zone(Some(1)), Ok(1));
    assert_eq!(check_zone(Some(33)), Ok(33));
    assert_eq!(check_zone(Some(60)), Ok(60));
    assert_eq!(check_zone(Some(61)), Err(ConfigurationError::InvalidZone));
    assert_eq!(check_zone(Some(255)), Err(ConfigurationError::InvalidZone));
}

#[test]
fn missing_zone_is_a_configuration_error() {
    assert_eq!(check_zone(None), Err(ConfigurationError::MissingZone));
}
