use vstd::prelude::*;

verus! {

/// 2D surface address (row, column).
#[derive(Debug, Clone, Copy, PartialEq, Eq, Hash, Structural)]
pub struct SurfaceAddress {
    pub row: u32,
    pub col: u32,
}

/// The linear index of cell `(row, col)` in a row-major layout with `stride` cells per row.
pub open spec fn linear_index(row: int, col: int, stride: int) -> int {
    row * stride + col
}

impl SurfaceAddress {
    pub fn new(row: u32, col: u32) -> (r: SurfaceAddress)
        ensures
            r.row == row,
            r.col == col,
    {
        SurfaceAddress { row, col }
    }

    /// Convert to a linear index for a surface with the given stride.
    pub fn to_linear(&self, stride: u32) -> (r: u64)
        ensures
            r == linear_index(self.row as int, self.col as int, stride as int),
    {
        assert(self.row * stride + self.col <= u64::MAX) by (nonlinear_arith)
            requires
                self.row <= u32::MAX,
                stride <= u32::MAX,
                self.col <= u32::MAX,
        ;
        self.row as u64 * stride as u64 + self.col as u64
    }
}

} // verus!
