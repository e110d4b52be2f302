//! One band of a raster elevation model, held in memory.

use vstd::prelude::*;
use crate::transform::PixelIndex;

verus! {

/// A pixel index that lies outside the raster's extent.
#[derive(Clone, Copy, Debug, PartialEq, Eq, Structural)]
pub struct RasterSampleError {
    pub column: i128,
    pub row: i128,
}

/// A grid of elevations in millimetres, stored row by row.
#[derive(Debug)]
pub struct RasterBand {
    pub width: usize,
    pub height: usize,
    pub cells: Vec<i64>,
}

impl RasterBand {
    /// Whether the band holds one value for each cell of its extent.
    pub open spec fn well_formed(self) -> bool {
        self.cells@.len() == self.width * self.height
    }

    /// Whether `(column, row)` addresses a cell of the band.
    pub open spec fn contains_cell(self, column: int, row: int) -> bool {
        0 <= column < self.width && 0 <= row < self.height
    }

    /// The value stored for the cell `(column, row)`.
    pub open spec fn value_at(self, column: int, row: int) -> i64
        recommends
            self.well_formed(),
            self.contains_cell(column, row),
    {
        self.cells@[row * self.width + column]
    }

    /// A band of `width` by `height` cells over `cells`, given row by row.
    /// There is none where the number of values is not `width * height`.
    pub fn new(width: usize, height: usize, cells: Vec<i64>) -> (band: Option<RasterBand>)
        ensures
            band.is_some() <==> cells@.len() == width * height,
            band.is_some() ==> band.unwrap().well_formed() && band.unwrap().width == width
                && band.unwrap().height == height && band.unwrap().cells@ == cells@,
    {
        let given: usize = cells.len();
        match width.checked_mul(height) {
            Some(count) => {
                if given == count {
                    Some(RasterBand { width, height, cells })
                } else {
                    None
                }
            },
            None => None,
        }
    }

    /// Reads the single cell at `pixel`. Fails exactly when the pixel lies
    /// outside the extent; no index is wrapped or clamped.
    pub fn read_cell(&self, pixel: PixelIndex) -> (r: Result<i64, RasterSampleError>)
        requires
            self.well_formed(),
        ensures
            self.contains_cell(pixel.column as int, pixel.row as int) ==> r == Ok::<
                i64,
                RasterSampleError,
            >(self.value_at(pixel.column as int, pixel.row as int)),
            !self.contains_cell(pixel.column as int, pixel.row as int) ==> r == Err::<
                i64,
                RasterSampleError,
            >(RasterSampleError { column: pixel.column, row: pixel.row }),
    {
        if pixel.column < 0 || pixel.row < 0 || pixel.column >= self.width as i128 || pixel.row
            >= self.height as i128 {
            return Err(RasterSampleError { column: pixel.column, row: pixel.row });
        }
        let column: usize = pixel.column as usize;
        let row: usize = pixel.row as usize;
        let count: usize = self.cells.len();
        assert(row * self.width + column < self.width * self.height) by (nonlinear_arith)
            requires
                0 <= column < self.width,
                0 <= row < self.height,
        ;
        assert(0 <= row * self.width <= row * self.width + column) by (nonlinear_arith)
            requires
                0 <= row,
                0 <= self.width,
                0 <= column,
        ;
        assert(row * self.width + column < count);
        Ok(self.cells[row * self.width + column])
    }
}

} // verus!
