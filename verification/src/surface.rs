use vstd::prelude::*;

use crate::address::{SurfaceAddress, linear_index};
use crate::boundary::{BoundaryMode, boundary_coord, lemma_boundary_in_range, lemma_mirror_by_bounces,
    lemma_neg_mod};
use crate::trit::Trit;
use crate::view::{SurfaceView, lemma_index_facts, lemma_index_injective, lemma_index_split};

verus! {

/// A 2D surface of ternary values.
#[derive(Debug, Clone)]
pub struct SurfaceMemory {
    width: u32,
    height: u32,
    stride: u32,
    data: Vec<Trit>,
}

impl View for SurfaceMemory {
    type V = SurfaceView;

    closed spec fn view(&self) -> SurfaceView {
        SurfaceView {
            width: self.width as nat,
            height: self.height as nat,
            stride: self.stride as nat,
            cells: self.data@,
        }
    }
}

impl SurfaceMemory {
    /// Create a new surface filled with Trit::Zero.
    pub fn new(width: u32, height: u32) -> (s: SurfaceMemory)
        requires
            width * height <= u32::MAX,
        ensures
            s@ == SurfaceView::blank(width as nat, height as nat),
            s@.wf(),
    {
        let stride = width;
        let data = vec![Trit::Zero; (width * height) as usize];
        let s = SurfaceMemory { width, height, stride, data };
        assert(s@.cells =~= SurfaceView::blank(width as nat, height as nat).cells);
        s
    }

    /// Create a surface from raw trit data.
    pub fn from_data(width: u32, height: u32, data: Vec<Trit>) -> (s: SurfaceMemory)
        requires
            width * height <= u32::MAX,
            data@.len() == width * height,
        ensures
            s@ == (SurfaceView {
                width: width as nat,
                height: height as nat,
                stride: width as nat,
                cells: data@,
            }),
            s@.wf(),
    {
        SurfaceMemory { width, height, stride: width, data }
    }

    pub fn width(&self) -> (r: u32)
        ensures
            r == self@.width,
    {
        self.width
    }

    pub fn height(&self) -> (r: u32)
        ensures
            r == self@.height,
    {
        self.height
    }

    /// Cells between the starts of consecutive rows: the width, on every surface the
    /// constructors build and the methods keep.
    pub fn stride(&self) -> (r: u32)
        ensures
            r == self@.stride,
            self@.wf() ==> r == self@.width,
    {
        self.stride
    }

    /// Get a trit at the given address. Returns None if out of bounds, or if the
    /// data holds no cell at that address.
    pub fn get(&self, addr: SurfaceAddress) -> (r: Option<Trit>)
        ensures
            r == (if self@.in_bounds(addr.row as int, addr.col as int) && linear_index(
                addr.row as int,
                addr.col as int,
                self@.stride as int,
            ) < self@.cells.len() {
                Some(self@.cells[linear_index(addr.row as int, addr.col as int, self@.stride as int)])
            } else {
                None
            }),
            self@.wf() ==> r == self@.lookup(addr.row as int, addr.col as int),
    {
        if addr.row < self.height && addr.col < self.width {
            proof {
                lemma_index_facts(addr.row as int, addr.col as int, self.width as int, self.height as int);
            }
            let idx = addr.to_linear(self.stride);
            if idx < self.data.len() as u64 {
                Some(self.data[idx as usize])
            } else {
                None
            }
        } else {
            None
        }
    }

    /// Set a trit at the given address. Returns false if out of bounds.
    pub fn set(&mut self, addr: SurfaceAddress, value: Trit) -> (r: bool)
        requires
            old(self)@.wf(),
        ensures
            r == old(self)@.in_bounds(addr.row as int, addr.col as int),
            final(self)@ == old(self)@.store(addr.row as int, addr.col as int, value),
            final(self)@.wf(),
    {
        if addr.row < self.height && addr.col < self.width {
            let idx = self.cell_index(addr.row as u64, addr.col as u64);
            self.data[idx] = value;
            true
        } else {
            false
        }
    }

    /// Get a trit with boundary handling.
    ///
    /// The surface must have at least one row and one column; under `Mirror` the
    /// coordinates must be above `i64::MIN`, whose magnitude no `i64` holds.
    pub fn get_with_boundary(&self, row: i64, col: i64, mode: BoundaryMode) -> (r: Trit)
        requires
            self@.wf(),
            self@.width > 0,
            self@.height > 0,
            mode == BoundaryMode::Mirror ==> row > i64::MIN && col > i64::MIN,
        ensures
            r == self@.boundary_cell(row as int, col as int, mode),
    {
        let r = self.apply_boundary(row, self.height, mode);
        let c = self.apply_boundary(col, self.width, mode);
        self.data[self.cell_index(r, c)]
    }

    /// The four trits around a sample point whose grid cell starts at `(r0, c0)`, each
    /// read with boundary handling: at `(r0, c0)`, `(r0, c0 + 1)`, `(r0 + 1, c0)` and
    /// `(r0 + 1, c0 + 1)`. These are the samples that bilinear interpolation weighs.
    pub fn bilinear_corners(&self, r0: i64, c0: i64, mode: BoundaryMode) -> (r: (
        Trit,
        Trit,
        Trit,
        Trit,
    ))
        requires
            self@.wf(),
            self@.width > 0,
            self@.height > 0,
            r0 < i64::MAX,
            c0 < i64::MAX,
            mode == BoundaryMode::Mirror ==> r0 > i64::MIN && c0 > i64::MIN,
        ensures
            r.0 == self@.boundary_cell(r0 as int, c0 as int, mode),
            r.1 == self@.boundary_cell(r0 as int, c0 + 1, mode),
            r.2 == self@.boundary_cell(r0 + 1, c0 as int, mode),
            r.3 == self@.boundary_cell(r0 + 1, c0 + 1, mode),
    {
        let r1 = r0 + 1;
        let c1 = c0 + 1;
        (
            self.get_with_boundary(r0, c0, mode),
            self.get_with_boundary(r0, c1, mode),
            self.get_with_boundary(r1, c0, mode),
            self.get_with_boundary(r1, c1, mode),
        )
    }

    /// Copy a rectangular region from one surface to another (or within the same surface).
    ///
    /// Succeeds exactly when the `width` x `height` rectangle fits on both surfaces
    /// at the given origins; `dst` is left unchanged otherwise.
    pub fn copy_region(
        src: &SurfaceMemory,
        src_origin: SurfaceAddress,
        dst: &mut SurfaceMemory,
        dst_origin: SurfaceAddress,
        width: u32,
        height: u32,
    ) -> (r: bool)
        requires
            src@.wf(),
            old(dst)@.wf(),
        ensures
            r == (src@.region_fits(src_origin, width as int, height as int)
                && old(dst)@.region_fits(dst_origin, width as int, height as int)),
            final(dst)@ == (if r {
                old(dst)@.with_region(src@, src_origin, dst_origin, width as int, height as int)
            } else {
                old(dst)@
            }),
            final(dst)@.wf(),
    {
        // Bounds check source
        if src_origin.row as u64 + height as u64 > src.height as u64 || src_origin.col as u64
            + width as u64 > src.width as u64 {
            return false;
        }
        // Bounds check destination
        if dst_origin.row as u64 + height as u64 > dst.height as u64 || dst_origin.col as u64
            + width as u64 > dst.width as u64 {
            return false;
        }
        let ghost before = dst@;
        // Copy row by row
        let mut dr: u32 = 0;
        while dr < height
            invariant
                src@.wf(),
                before.wf(),
                src@.region_fits(src_origin, width as int, height as int),
                before.region_fits(dst_origin, width as int, height as int),
                dr <= height,
                dst@.width == before.width,
                dst@.height == before.height,
                dst@.stride == before.stride,
                dst@.cells.len() == before.cells.len(),
                forall|row: int, col: int|
                    #![trigger dst@.cell(row, col)]
                    before.in_bounds(row, col) ==> dst@.cell(row, col) == before.copied_cell(
                        src@,
                        src_origin,
                        dst_origin,
                        width as int,
                        dr as int,
                        row,
                        col,
                    ),
            decreases height - dr,
        {
            let src_row = src_origin.row + dr;
            let dst_row = dst_origin.row + dr;
            let mut dc: u32 = 0;
            while dc < width
                invariant
                    src@.wf(),
                    before.wf(),
                    src@.region_fits(src_origin, width as int, height as int),
                    before.region_fits(dst_origin, width as int, height as int),
                    dr < height,
                    dc <= width,
                    src_row == src_origin.row + dr,
                    dst_row == dst_origin.row + dr,
                    dst@.width == before.width,
                    dst@.height == before.height,
                    dst@.stride == before.stride,
                    dst@.cells.len() == before.cells.len(),
                    forall|row: int, col: int|
                        #![trigger dst@.cell(row, col)]
                        before.in_bounds(row, col) ==> dst@.cell(row, col) == (if row == dst_row
                            && dst_origin.col <= col < dst_origin.col + dc {
                            src@.cell(src_row as int, col - dst_origin.col + src_origin.col)
                        } else {
                            before.copied_cell(
                                src@,
                                src_origin,
                                dst_origin,
                                width as int,
                                dr as int,
                                row,
                                col,
                            )
                        }),
                decreases width - dc,
            {
                let src_col = src_origin.col + dc;
                let dst_col = dst_origin.col + dc;
                let val = src.data[src.cell_index(src_row as u64, src_col as u64)];
                let idx = dst.cell_index(dst_row as u64, dst_col as u64);
                let ghost mid = dst@;
                dst.data[idx] = val;
                proof {
                    assert forall|row: int, col: int|
                        #![trigger dst@.cell(row, col)]
                        before.in_bounds(row, col) implies dst@.cell(row, col) == (if row
                            == dst_row && dst_origin.col <= col < dst_origin.col + dc + 1 {
                            src@.cell(src_row as int, col - dst_origin.col + src_origin.col)
                        } else {
                            before.copied_cell(
                                src@,
                                src_origin,
                                dst_origin,
                                width as int,
                                dr as int,
                                row,
                                col,
                            )
                        }) by {
                        lemma_index_injective(
                            row,
                            col,
                            dst_row as int,
                            dst_col as int,
                            before.width as int,
                            before.height as int,
                        );
                        lemma_index_facts(row, col, before.width as int, before.height as int);
                        assert(mid.cell(row, col) == mid.cells[linear_index(
                            row,
                            col,
                            before.stride as int,
                        )]);
                    }
                }
                dc = dc + 1;
            }
            dr = dr + 1;
        }
        proof {
            let target = before.with_region(src@, src_origin, dst_origin, width as int, height as int);
            assert forall|i: int| 0 <= i < dst@.cells.len() implies dst@.cells[i] == target.cells[i] by {
                lemma_index_split(i, before.width as int, before.height as int);
                let row = i / (before.width as int);
                let col = i % (before.width as int);
                assert(dst@.cell(row, col) == dst@.cells[i]);
            }
            assert(dst@.cells =~= target.cells);
        }
        true
    }

    /// Fill the entire surface with a trit value.
    pub fn fill(&mut self, value: Trit)
        ensures
            final(self)@ == old(self)@.filled(value),
            old(self)@.wf() ==> final(self)@.wf(),
    {
        let n = self.data.len();
        let mut i: usize = 0;
        while i < n
            invariant
                n == self.data@.len(),
                i <= n,
                self.width == old(self).width,
                self.height == old(self).height,
                self.stride == old(self).stride,
                self.data@.len() == old(self).data@.len(),
                forall|j: int| 0 <= j < i ==> self.data@[j] == value,
            decreases n - i,
        {
            self.data[i] = value;
            i = i + 1;
        }
        assert(self@.cells =~= old(self)@.filled(value).cells);
    }

    /// Get the raw data slice.
    pub fn data(&self) -> (r: &[Trit])
        ensures
            r@ == self@.cells,
    {
        self.data.as_slice()
    }

    /// Get the raw data slice mutably. The slice's length is fixed, so the surface
    /// keeps one trit per cell whatever the caller writes through it.
    pub fn data_mut(&mut self) -> (r: &mut [Trit])
        ensures
            r@ == old(self)@.cells,
            final(self)@ == (SurfaceView {
                width: old(self)@.width,
                height: old(self)@.height,
                stride: old(self)@.stride,
                cells: final(r)@,
            }),
    {
        self.data.as_mut_slice()
    }

    /// Total number of trits in the surface.
    pub fn len(&self) -> (r: usize)
        ensures
            r == self@.cells.len(),
            self@.wf() ==> r == self@.width * self@.height,
    {
        self.data.len()
    }

    /// Whether the surface is empty.
    pub fn is_empty(&self) -> (r: bool)
        ensures
            r == (self@.cells.len() == 0),
    {
        self.data.len() == 0
    }

    /// Position in `data` of the cell at `(row, col)`.
    fn cell_index(&self, row: u64, col: u64) -> (idx: usize)
        requires
            self@.wf(),
            row < self@.height,
            col < self@.width,
        ensures
            idx == linear_index(row as int, col as int, self@.stride as int),
            idx < self@.width * self@.height,
            idx < self@.cells.len(),
    {
        proof {
            lemma_index_facts(row as int, col as int, self.width as int, self.height as int);
        }
        let len = self.data.len();
        assert(row * self.stride + col < len);
        (row * self.stride as u64 + col) as usize
    }

    /// Apply boundary mode to a coordinate.
    fn apply_boundary(&self, coord: i64, size: u32, mode: BoundaryMode) -> (r: u64)
        requires
            size > 0,
            mode == BoundaryMode::Mirror ==> coord > i64::MIN,
        ensures
            r == boundary_coord(coord as int, size as int, mode),
            r < size,
    {
        proof {
            lemma_boundary_in_range(coord as int, size as int, mode);
        }
        let s = size as i64;
        match mode {
            BoundaryMode::Clamp => {
                if coord < 0 {
                    0
                } else if coord > s - 1 {
                    (s - 1) as u64
                } else {
                    coord as u64
                }
            },
            BoundaryMode::Wrap => {
                let result = coord % s;
                proof {
                    if coord < 0 {
                        lemma_neg_mod(-coord, s as int);
                    }
                }
                if result < 0 {
                    (result + s) as u64
                } else {
                    result as u64
                }
            },
            BoundaryMode::Mirror => {
                proof {
                    lemma_mirror_by_bounces(coord as int, size as int);
                }
                if coord < 0 {
                    let abs = (-coord) as u64;
                    let idx = abs % (size as u64);
                    if (abs / (size as u64)) % 2 == 0 {
                        if idx < size as u64 - 1 {
                            idx
                        } else {
                            size as u64 - 1
                        }
                    } else {
                        (size as u64 - 1).saturating_sub(idx)
                    }
                } else if coord >= s {
                    let overshoot = (coord - s) as u64;
                    let total = size as u64;
                    let idx = overshoot % total;
                    if (overshoot / total) % 2 == 0 {
                        let low = if idx < total - 1 {
                            idx
                        } else {
                            total - 1
                        };
                        (total - 1).saturating_sub(low)
                    } else if idx < total - 1 {
                        idx
                    } else {
                        total - 1
                    }
                } else {
                    coord as u64
                }
            },
        }
    }
}

} // verus!
