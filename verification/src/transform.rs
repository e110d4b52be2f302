//! The raster's affine geo-transform and its inverse.
//!
//! A transform maps a pixel `(column, row)` to the ground point
//! `(x_origin + column * x_per_column + row * x_per_row,
//!   y_origin + column * y_per_column + row * y_per_row)`.
//! All six coefficients are whole millimetres.

use vstd::prelude::*;
use crate::error::ConfigurationError;
use crate::rounding::{div_round, lemma_round_div_error, magnitude, round_div};

verus! {

/// The largest magnitude a scale or rotation coefficient may have: 2^62.
pub const COEFFICIENT_LIMIT: i64 = 4_611_686_018_427_387_904;

/// A point in the raster's planar coordinate system, in millimetres.
#[derive(Clone, Copy, Debug, PartialEq, Eq, Structural)]
pub struct PlanarPoint {
    pub easting: i64,
    pub northing: i64,
}

/// A position among the pixels that need not be whole: the column is
/// `column_numerator / determinant` and the row `row_numerator / determinant`.
#[derive(Clone, Copy, Debug, PartialEq, Eq, Structural)]
pub struct FractionalPixel {
    pub column_numerator: i128,
    pub row_numerator: i128,
    pub determinant: i128,
}

/// The address of one raster cell.
#[derive(Clone, Copy, Debug, PartialEq, Eq, Structural)]
pub struct PixelIndex {
    pub column: i128,
    pub row: i128,
}

/// The six coefficients that map pixels to ground coordinates.
#[derive(Clone, Copy, Debug, PartialEq, Eq, Structural)]
pub struct AffineTransform {
    pub x_origin: i64,
    pub x_per_column: i64,
    pub x_per_row: i64,
    pub y_origin: i64,
    pub y_per_column: i64,
    pub y_per_row: i64,
}

/// Whether a scale or rotation coefficient is small enough.
pub open spec fn coefficient_in_range(c: i64) -> bool {
    -COEFFICIENT_LIMIT <= c <= COEFFICIENT_LIMIT
}

impl AffineTransform {
    /// Whether the four scale and rotation coefficients are in range.
    pub open spec fn in_range(self) -> bool {
        &&& coefficient_in_range(self.x_per_column)
        &&& coefficient_in_range(self.x_per_row)
        &&& coefficient_in_range(self.y_per_column)
        &&& coefficient_in_range(self.y_per_row)
    }

    /// The determinant of the linear part.
    pub open spec fn determinant(self) -> int {
        self.x_per_column * self.y_per_row - self.x_per_row * self.y_per_column
    }

    /// The determinant times the fractional column of `p`.
    pub open spec fn column_numerator(self, p: PlanarPoint) -> int {
        self.y_per_row * (p.easting - self.x_origin) - self.x_per_row * (p.northing
            - self.y_origin)
    }

    /// The determinant times the fractional row of `p`.
    pub open spec fn row_numerator(self, p: PlanarPoint) -> int {
        self.x_per_column * (p.northing - self.y_origin) - self.y_per_column * (p.easting
            - self.x_origin)
    }

    /// The column of the cell nearest to `p`.
    pub open spec fn pixel_column(self, p: PlanarPoint) -> int {
        round_div(self.column_numerator(p), self.determinant())
    }

    /// The row of the cell nearest to `p`.
    pub open spec fn pixel_row(self, p: PlanarPoint) -> int {
        round_div(self.row_numerator(p), self.determinant())
    }

    /// The ground easting of pixel `(column, row)`.
    pub open spec fn ground_easting(self, column: int, row: int) -> int {
        self.x_origin + column * self.x_per_column + row * self.x_per_row
    }

    /// The ground northing of pixel `(column, row)`.
    pub open spec fn ground_northing(self, column: int, row: int) -> int {
        self.y_origin + column * self.y_per_column + row * self.y_per_row
    }
}

/// The inverse of a geo-transform, kept as the transform and its non-zero
/// determinant.
#[derive(Clone, Copy, Debug, PartialEq, Eq, Structural)]
pub struct Resolver {
    pub transform: AffineTransform,
    pub determinant: i128,
}

fn coefficient_ok(c: i64) -> (ok: bool)
    ensures
        ok == coefficient_in_range(c),
{
    -COEFFICIENT_LIMIT <= c && c <= COEFFICIENT_LIMIT
}

/// `a * x - b * y` for two coefficients in range and two differences of
/// 64-bit coordinates.
fn cross(a: i64, x: i128, b: i64, y: i128) -> (r: i128)
    requires
        coefficient_in_range(a),
        coefficient_in_range(b),
        -0x1_0000_0000_0000_0000 < x < 0x1_0000_0000_0000_0000,
        -0x1_0000_0000_0000_0000 < y < 0x1_0000_0000_0000_0000,
    ensures
        r == a * x - b * y,
        -0x7fff_ffff_ffff_ffff_8000_0000_0000_0000 <= r <= 0x7fff_ffff_ffff_ffff_8000_0000_0000_0000,
{
    let ghost lim: int = 0x4000_0000_0000_0000;
    let ghost span: int = 0xffff_ffff_ffff_ffff;
    assert(-lim * span <= a * x <= lim * span) by (nonlinear_arith)
        requires
            -lim <= a <= lim,
            -span <= x <= span,
            lim >= 0,
            span >= 0,
    ;
    assert(-lim * span <= b * y <= lim * span) by (nonlinear_arith)
        requires
            -lim <= b <= lim,
            -span <= y <= span,
            lim >= 0,
            span >= 0,
    ;
    assert(lim * span == 0x3fff_ffff_ffff_ffff_c000_0000_0000_0000) by (nonlinear_arith)
        requires
            lim == 0x4000_0000_0000_0000,
            span == 0xffff_ffff_ffff_ffff,
    ;
    let ax: i128 = (a as i128) * x;
    let by: i128 = (b as i128) * y;
    ax - by
}

impl Resolver {
    /// Whether this is the inverse of a transform that has one.
    pub open spec fn well_formed(self) -> bool {
        &&& self.transform.in_range()
        &&& self.determinant == self.transform.determinant()
        &&& self.determinant != 0
    }

    /// Inverts `transform`. Fails when a scale or rotation coefficient is out
    /// of range, and otherwise when the determinant is zero.
    pub fn new(transform: AffineTransform) -> (r: Result<Resolver, ConfigurationError>)
        ensures
            !transform.in_range() ==> r == Err::<Resolver, ConfigurationError>(
                ConfigurationError::CoefficientOutOfRange,
            ),
            transform.in_range() && transform.determinant() == 0 ==> r == Err::<
                Resolver,
                ConfigurationError,
            >(ConfigurationError::SingularTransform),
            transform.in_range() && transform.determinant() != 0 ==> r.is_ok()
                && r.unwrap().transform == transform && r.unwrap().well_formed(),
    {
        if !(coefficient_ok(transform.x_per_column) && coefficient_ok(transform.x_per_row)
            && coefficient_ok(transform.y_per_column) && coefficient_ok(transform.y_per_row)) {
            return Err(ConfigurationError::CoefficientOutOfRange);
        }
        let determinant: i128 = cross(
            transform.x_per_column,
            transform.y_per_row as i128,
            transform.x_per_row,
            transform.y_per_column as i128,
        );
        if determinant == 0 {
            return Err(ConfigurationError::SingularTransform);
        }
        Ok(Resolver { transform, determinant })
    }

    /// The inverse transform applied to `p`: the position of `p` among the
    /// pixels, as exact fractions over the determinant.
    pub fn to_pixel(&self, p: PlanarPoint) -> (f: FractionalPixel)
        requires
            self.well_formed(),
        ensures
            f.well_formed(),
            f.column_numerator == self.transform.column_numerator(p),
            f.row_numerator == self.transform.row_numerator(p),
            f.determinant == self.transform.determinant(),
    {
        let t = self.transform;
        proof {
            lemma_determinant_bound(t);
        }
        let dx: i128 = p.easting as i128 - t.x_origin as i128;
        let dy: i128 = p.northing as i128 - t.y_origin as i128;
        FractionalPixel {
            column_numerator: cross(t.y_per_row, dx, t.x_per_row, dy),
            row_numerator: cross(t.x_per_column, dy, t.y_per_column, dx),
            determinant: self.determinant,
        }
    }

    /// The cell nearest to `p`.
    pub fn nearest_pixel(&self, p: PlanarPoint) -> (pixel: PixelIndex)
        requires
            self.well_formed(),
        ensures
            pixel.column == self.transform.pixel_column(p),
            pixel.row == self.transform.pixel_row(p),
    {
        self.to_pixel(p).nearest()
    }
}

impl FractionalPixel {
    /// Whether the fractions have a denominator and can be rounded.
    pub open spec fn well_formed(self) -> bool {
        &&& self.determinant != 0
        &&& self.determinant > i128::MIN
        &&& self.column_numerator > i128::MIN
        &&& self.row_numerator > i128::MIN
    }

    /// The nearest cell: each coordinate rounded to the nearest integer, a
    /// coordinate halfway between two cells to the one further from zero.
    pub fn nearest(&self) -> (pixel: PixelIndex)
        requires
            self.well_formed(),
        ensures
            pixel.column == round_div(self.column_numerator as int, self.determinant as int),
            pixel.row == round_div(self.row_numerator as int, self.determinant as int),
    {
        PixelIndex {
            column: div_round(self.column_numerator, self.determinant),
            row: div_round(self.row_numerator, self.determinant),
        }
    }
}

/// The magnitude of a product is the product of the magnitudes.
proof fn lemma_magnitude_of_product(x: int, y: int)
    ensures
        magnitude(x * y) == magnitude(x) * magnitude(y),
{
    let mx = magnitude(x) as int;
    let my = magnitude(y) as int;
    let mp = magnitude(x * y) as int;
    assert(mp == mx * my) by (nonlinear_arith)
        requires
            mx == (if x < 0 { -x } else { x }),
            my == (if y < 0 { -y } else { y }),
            mp == (if x * y < 0 { -(x * y) } else { x * y }),
    ;
}

/// Where `det * t` is `a * dc + b * dr` and neither `dc` nor `dr` exceeds
/// half of `det` in magnitude, `t` is at most half of `|a| + |b|`.
proof fn lemma_half_step(det: int, a: int, b: int, dc: int, dr: int, t: int)
    requires
        det != 0,
        det * t == a * dc + b * dr,
        2 * magnitude(dc) <= magnitude(det),
        2 * magnitude(dr) <= magnitude(det),
    ensures
        2 * magnitude(t) <= magnitude(a) + magnitude(b),
{
    lemma_magnitude_of_product(det, t);
    lemma_magnitude_of_product(a, dc);
    lemma_magnitude_of_product(b, dr);
    let m = magnitude(det) as int;
    let mt = magnitude(t) as int;
    let ma = magnitude(a) as int;
    let mb = magnitude(b) as int;
    let mc = magnitude(dc) as int;
    let mr = magnitude(dr) as int;
    assert(magnitude(a * dc + b * dr) <= magnitude(a * dc) + magnitude(b * dr));
    assert(m * mt <= ma * mc + mb * mr);
    assert(2 * (ma * mc) <= ma * m) by (nonlinear_arith)
        requires
            2 * mc <= m,
            ma >= 0,
    ;
    assert(2 * (mb * mr) <= mb * m) by (nonlinear_arith)
        requires
            2 * mr <= m,
            mb >= 0,
    ;
    assert(2 * mt <= ma + mb) by (nonlinear_arith)
        requires
            2 * (m * mt) <= ma * m + mb * m,
            m > 0,
    ;
}

/// With `det = a * e - b * d`, the residues of the two rounded quotients
/// combine to `det` times the displacement along the first axis.
proof fn lemma_inverse_identity(a: int, b: int, d: int, e: int, x: int, y: int, c: int, r: int)
    ensures
        (a * e - b * d) * (c * a + r * b - x) == a * (c * (a * e - b * d) - (e * x - b * y)) + b
            * (r * (a * e - b * d) - (a * y - d * x)),
{
    let det = a * e - b * d;
    let nc = e * x - b * y;
    let nr = a * y - d * x;
    assert(a * nc + b * nr == det * x) by (nonlinear_arith)
        requires
            det == a * e - b * d,
            nc == e * x - b * y,
            nr == a * y - d * x,
    ;
    assert(a * (c * det - nc) == a * (c * det) - a * nc) by (nonlinear_arith);
    assert(b * (r * det - nr) == b * (r * det) - b * nr) by (nonlinear_arith);
    assert(a * (c * det) == det * (c * a)) by (nonlinear_arith);
    assert(b * (r * det) == det * (r * b)) by (nonlinear_arith);
    assert(det * (c * a + r * b - x) == det * (c * a) + det * (r * b) - det * x)
        by (nonlinear_arith);
}

/// The determinant of a transform in range fits the resolver's arithmetic.
proof fn lemma_determinant_bound(t: AffineTransform)
    requires
        t.in_range(),
    ensures
        -0x2000_0000_0000_0000_0000_0000_0000_0000 <= t.determinant()
            <= 0x2000_0000_0000_0000_0000_0000_0000_0000,
{
    let a = t.x_per_column as int;
    let b = t.x_per_row as int;
    let d = t.y_per_column as int;
    let e = t.y_per_row as int;
    let lim: int = 0x4000_0000_0000_0000;
    assert(-lim * lim <= a * e <= lim * lim) by (nonlinear_arith)
        requires
            -lim <= a <= lim,
            -lim <= e <= lim,
    ;
    assert(-lim * lim <= b * d <= lim * lim) by (nonlinear_arith)
        requires
            -lim <= b <= lim,
            -lim <= d <= lim,
    ;
    assert(lim * lim == 0x1000_0000_0000_0000_0000_0000_0000_0000) by (nonlinear_arith)
        requires
            lim == 0x4000_0000_0000_0000,
    ;
}

/// Round trip. The ground position of the cell nearest to `p` lies within
/// half a pixel's ground extent of `p`: twice the difference in easting is at
/// most `|x_per_column| + |x_per_row|`, and twice the difference in northing
/// is at most `|y_per_column| + |y_per_row|`.
pub proof fn lemma_round_trip_within_pixel(t: AffineTransform, p: PlanarPoint)
    requires
        t.determinant() != 0,
    ensures
        2 * magnitude(t.ground_easting(t.pixel_column(p), t.pixel_row(p)) - p.easting)
            <= magnitude(t.x_per_column as int) + magnitude(t.x_per_row as int),
        2 * magnitude(t.ground_northing(t.pixel_column(p), t.pixel_row(p)) - p.northing)
            <= magnitude(t.y_per_column as int) + magnitude(t.y_per_row as int),
{
    let a = t.x_per_column as int;
    let b = t.x_per_row as int;
    let d = t.y_per_column as int;
    let e = t.y_per_row as int;
    let x = p.easting - t.x_origin;
    let y = p.northing - t.y_origin;
    let det = t.determinant();
    let nc = t.column_numerator(p);
    let nr = t.row_numerator(p);
    let c = t.pixel_column(p);
    let r = t.pixel_row(p);
    lemma_round_div_error(nc, det);
    lemma_round_div_error(nr, det);
    let dc = c * det - nc;
    let dr = r * det - nr;
    let tx = t.ground_easting(c, r) - p.easting;
    let ty = t.ground_northing(c, r) - p.northing;
    lemma_inverse_identity(a, b, d, e, x, y, c, r);
    lemma_inverse_identity(e, d, b, a, y, x, r, c);
    assert(det * ty == d * dc + e * dr) by (nonlinear_arith)
        requires
            (e * a - d * b) * (r * e + c * d - y) == e * (r * (e * a - d * b) - (a * y - d * x))
                + d * (c * (e * a - d * b) - (e * x - b * y)),
            det == a * e - b * d,
            nc == e * x - b * y,
            nr == a * y - d * x,
            dc == c * det - nc,
            dr == r * det - nr,
            ty == c * d + r * e - y,
    ;
    lemma_half_step(det, a, b, dc, dr, tx);
    lemma_half_step(det, d, e, dc, dr, ty);
}

} // verus!
