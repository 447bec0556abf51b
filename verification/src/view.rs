use vstd::prelude::*;
use vstd::arithmetic::div_mod::lemma_fundamental_div_mod_converse;

use crate::address::{SurfaceAddress, linear_index};
use crate::boundary::{
    BoundaryMode,
    boundary_coord,
    lemma_boundary_identity,
    lemma_mirror_periodic,
    lemma_mirror_reflects,
    lemma_mirror_symmetric,
    lemma_wrap_periodic,
};
use crate::trit::Trit;

verus! {

/// The mathematical model of a surface: its dimensions and its cells in row-major order.
pub struct SurfaceView {
    pub width: nat,
    pub height: nat,
    pub stride: nat,
    pub cells: Seq<Trit>,
}

/// Whether `(row, col)` lies in the `width` x `height` rectangle whose top-left cell is `origin`.
pub open spec fn in_region(origin: SurfaceAddress, width: int, height: int, row: int, col: int) -> bool {
    &&& origin.row <= row < origin.row + height
    &&& origin.col <= col < origin.col + width
}

impl SurfaceView {
    /// A well-formed surface has one cell per (row, column) pair, rows `stride` = `width` apart.
    pub open spec fn wf(self) -> bool {
        &&& self.stride == self.width
        &&& self.cells.len() == self.width * self.height
    }

    pub open spec fn in_bounds(self, row: int, col: int) -> bool {
        0 <= row < self.height && 0 <= col < self.width
    }

    /// The trit stored at `(row, col)`.
    pub open spec fn cell(self, row: int, col: int) -> Trit {
        self.cells[linear_index(row, col, self.stride as int)]
    }

    /// The trit at `(row, col)`, or `None` off the surface.
    pub open spec fn lookup(self, row: int, col: int) -> Option<Trit> {
        if self.in_bounds(row, col) {
            Some(self.cell(row, col))
        } else {
            None
        }
    }

    /// The trit read at `(row, col)` once both coordinates have been brought onto the
    /// surface under `mode`.
    pub open spec fn boundary_cell(self, row: int, col: int, mode: BoundaryMode) -> Trit {
        self.cell(
            boundary_coord(row, self.height as int, mode),
            boundary_coord(col, self.width as int, mode),
        )
    }

    /// A `width` x `height` surface of zeros.
    pub open spec fn blank(width: nat, height: nat) -> SurfaceView {
        SurfaceView {
            width,
            height,
            stride: width,
            cells: Seq::new(width * height, |i: int| Trit::Zero),
        }
    }

    /// The surface with `value` written at `(row, col)`; unchanged when that is off the surface.
    pub open spec fn store(self, row: int, col: int, value: Trit) -> SurfaceView {
        if self.in_bounds(row, col) {
            SurfaceView {
                width: self.width,
                height: self.height,
                stride: self.stride,
                cells: self.cells.update(linear_index(row, col, self.stride as int), value),
            }
        } else {
            self
        }
    }

    /// The surface with every cell set to `value`.
    pub open spec fn filled(self, value: Trit) -> SurfaceView {
        SurfaceView {
            width: self.width,
            height: self.height,
            stride: self.stride,
            cells: Seq::new(self.cells.len(), |i: int| value),
        }
    }

    /// Whether the `width` x `height` rectangle at `origin` lies on the surface.
    pub open spec fn region_fits(self, origin: SurfaceAddress, width: int, height: int) -> bool {
        &&& origin.row + height <= self.height
        &&& origin.col + width <= self.width
    }

    /// What `(row, col)` holds once the `width` x `height` rectangle of `src` at
    /// `src_origin` has been copied onto this surface at `dst_origin`.
    pub open spec fn copied_cell(
        self,
        src: SurfaceView,
        src_origin: SurfaceAddress,
        dst_origin: SurfaceAddress,
        width: int,
        height: int,
        row: int,
        col: int,
    ) -> Trit {
        if in_region(dst_origin, width, height, row, col) {
            src.cell(row - dst_origin.row + src_origin.row, col - dst_origin.col + src_origin.col)
        } else {
            self.cell(row, col)
        }
    }

    /// This surface once the `width` x `height` rectangle of `src` at `src_origin`
    /// has been copied onto it at `dst_origin`.
    pub open spec fn with_region(
        self,
        src: SurfaceView,
        src_origin: SurfaceAddress,
        dst_origin: SurfaceAddress,
        width: int,
        height: int,
    ) -> SurfaceView {
        SurfaceView {
            width: self.width,
            height: self.height,
            stride: self.stride,
            cells: Seq::new(
                self.cells.len(),
                |i: int|
                    self.copied_cell(
                        src,
                        src_origin,
                        dst_origin,
                        width,
                        height,
                        i / (self.stride as int),
                        i % (self.stride as int),
                    ),
            ),
        }
    }
}

/// Row-major indices of in-range cells are in range and tell the cell apart.
pub proof fn lemma_index_facts(row: int, col: int, width: int, height: int)
    requires
        0 <= row < height,
        0 <= col < width,
    ensures
        0 <= linear_index(row, col, width) < width * height,
        linear_index(row, col, width) / width == row,
        linear_index(row, col, width) % width == col,
{
    assert(0 <= row * width + col < width * height) by (nonlinear_arith)
        requires
            0 <= row < height,
            0 <= col < width,
    ;
    lemma_fundamental_div_mod_converse(row * width + col, width, row, col);
}

/// Two in-range cells share a row-major index only if they are the same cell.
pub proof fn lemma_index_injective(r1: int, c1: int, r2: int, c2: int, width: int, height: int)
    requires
        0 <= r1 < height,
        0 <= c1 < width,
        0 <= r2 < height,
        0 <= c2 < width,
    ensures
        linear_index(r1, c1, width) == linear_index(r2, c2, width) <==> (r1 == r2 && c1 == c2),
{
    lemma_index_facts(r1, c1, width, height);
    lemma_index_facts(r2, c2, width, height);
}

/// Every index of a `width` x `height` row-major layout is the index of one in-range cell.
pub proof fn lemma_index_split(i: int, width: int, height: int)
    requires
        0 <= i < width * height,
        width >= 0,
        height >= 0,
    ensures
        0 <= i / width < height,
        0 <= i % width < width,
        linear_index(i / width, i % width, width) == i,
{
    assert(width > 0) by (nonlinear_arith)
        requires
            0 <= i < width * height,
            width >= 0,
            height >= 0,
    ;
    vstd::arithmetic::div_mod::lemma_fundamental_div_mod(i, width);
    let q = i / width;
    let r = i % width;
    assert(0 <= q < height) by (nonlinear_arith)
        requires
            i == width * q + r,
            0 <= r < width,
            0 <= i < width * height,
            width > 0,
    ;
    assert(q * width == width * q) by (nonlinear_arith);
}

/// A fresh surface reads zero on every cell and nothing off it.
pub proof fn lemma_lookup_blank(width: nat, height: nat, row: int, col: int)
    ensures
        SurfaceView::blank(width, height).wf(),
        SurfaceView::blank(width, height).lookup(row, col) == (if 0 <= row < height && 0 <= col
            < width {
            Some(Trit::Zero)
        } else {
            None
        }),
{
    if 0 <= row < height && 0 <= col < width {
        lemma_index_facts(row, col, width as int, height as int);
    }
}

/// A read after a write: the written cell reads the written value, every other cell
/// reads what it read before, and a write off the surface changes nothing.
pub proof fn lemma_lookup_store(v: SurfaceView, row: int, col: int, value: Trit, r2: int, c2: int)
    requires
        v.wf(),
    ensures
        v.store(row, col, value).wf(),
        v.store(row, col, value).width == v.width,
        v.store(row, col, value).height == v.height,
        v.store(row, col, value).lookup(r2, c2) == (if r2 == row && c2 == col && v.in_bounds(
            row,
            col,
        ) {
            Some(value)
        } else {
            v.lookup(r2, c2)
        }),
{
    if v.in_bounds(row, col) {
        lemma_index_facts(row, col, v.width as int, v.height as int);
        if v.in_bounds(r2, c2) {
            lemma_index_injective(row, col, r2, c2, v.width as int, v.height as int);
            lemma_index_facts(r2, c2, v.width as int, v.height as int);
        }
    }
}

/// After a fill every cell of the surface reads the fill value.
pub proof fn lemma_lookup_filled(v: SurfaceView, value: Trit, row: int, col: int)
    requires
        v.wf(),
    ensures
        v.filled(value).wf(),
        v.filled(value).lookup(row, col) == (if v.in_bounds(row, col) {
            Some(value)
        } else {
            None
        }),
{
    if v.in_bounds(row, col) {
        lemma_index_facts(row, col, v.width as int, v.height as int);
    }
}

/// After a region copy the destination rectangle reads what the source rectangle
/// reads, cell for cell, and every other destination cell is unchanged.
pub proof fn lemma_lookup_with_region(
    dst: SurfaceView,
    src: SurfaceView,
    src_origin: SurfaceAddress,
    dst_origin: SurfaceAddress,
    width: int,
    height: int,
    row: int,
    col: int,
)
    requires
        dst.wf(),
        src.wf(),
        width >= 0,
        height >= 0,
        src.region_fits(src_origin, width, height),
        dst.region_fits(dst_origin, width, height),
    ensures
        dst.with_region(src, src_origin, dst_origin, width, height).wf(),
        dst.with_region(src, src_origin, dst_origin, width, height).lookup(row, col) == (if in_region(
            dst_origin,
            width,
            height,
            row,
            col,
        ) {
            src.lookup(row - dst_origin.row + src_origin.row, col - dst_origin.col + src_origin.col)
        } else {
            dst.lookup(row, col)
        }),
{
    if dst.in_bounds(row, col) {
        lemma_index_facts(row, col, dst.width as int, dst.height as int);
    }
}

/// Inside the surface a boundary-handled read is a plain read, whatever the mode.
pub proof fn lemma_boundary_lookup(v: SurfaceView, row: int, col: int, mode: BoundaryMode)
    requires
        v.in_bounds(row, col),
    ensures
        v.lookup(row, col) == Some(v.boundary_cell(row, col, mode)),
{
    lemma_boundary_identity(row, v.height as int, mode);
    lemma_boundary_identity(col, v.width as int, mode);
}

/// Inside the surface a boundary-handled read is the cell itself, whatever the mode.
pub proof fn lemma_boundary_cell_inside(v: SurfaceView, row: int, col: int, mode: BoundaryMode)
    requires
        v.in_bounds(row, col),
    ensures
        v.boundary_cell(row, col, mode) == v.cell(row, col),
{
    lemma_boundary_identity(row, v.height as int, mode);
    lemma_boundary_identity(col, v.width as int, mode);
}

/// Clamp: a row above the surface reads row 0 and a row at or past the end reads the
/// last row; likewise for columns. With the reads inside the surface, this fixes
/// every clamped read.
pub proof fn lemma_clamp_cells(v: SurfaceView, row: int, col: int)
    requires
        v.height > 0,
        v.width > 0,
    ensures
        row < 0 ==> v.boundary_cell(row, col, BoundaryMode::Clamp) == v.boundary_cell(
            0,
            col,
            BoundaryMode::Clamp,
        ),
        row >= v.height ==> v.boundary_cell(row, col, BoundaryMode::Clamp) == v.boundary_cell(
            v.height - 1,
            col,
            BoundaryMode::Clamp,
        ),
        col < 0 ==> v.boundary_cell(row, col, BoundaryMode::Clamp) == v.boundary_cell(
            row,
            0,
            BoundaryMode::Clamp,
        ),
        col >= v.width ==> v.boundary_cell(row, col, BoundaryMode::Clamp) == v.boundary_cell(
            row,
            v.width - 1,
            BoundaryMode::Clamp,
        ),
{
    lemma_boundary_identity(0, v.height as int, BoundaryMode::Clamp);
    lemma_boundary_identity(v.height - 1, v.height as int, BoundaryMode::Clamp);
    lemma_boundary_identity(0, v.width as int, BoundaryMode::Clamp);
    lemma_boundary_identity(v.width - 1, v.width as int, BoundaryMode::Clamp);
}

/// Wrap: moving a read by the surface's height in rows, or by its width in columns,
/// does not change it. With the reads inside the surface, this fixes every wrapped read.
pub proof fn lemma_wrap_cells(v: SurfaceView, row: int, col: int)
    requires
        v.height > 0,
        v.width > 0,
    ensures
        v.boundary_cell(row + v.height, col, BoundaryMode::Wrap) == v.boundary_cell(
            row,
            col,
            BoundaryMode::Wrap,
        ),
        v.boundary_cell(row, col + v.width, BoundaryMode::Wrap) == v.boundary_cell(
            row,
            col,
            BoundaryMode::Wrap,
        ),
{
    lemma_wrap_periodic(row, v.height as int, 1);
    lemma_wrap_periodic(col, v.width as int, 1);
}

/// Mirror: reads are symmetric about row 0 and column 0; the `k`-th row past the end
/// reads as the `k`-th row from the end (`height + k` as `height - 1 - k`), likewise for
/// columns; and from row (column) 0 on, reads repeat every two heights (widths).
/// With the reads inside the surface, this fixes every mirrored read.
pub proof fn lemma_mirror_cells(v: SurfaceView, row: int, col: int, k: int)
    requires
        v.height > 0,
        v.width > 0,
    ensures
        v.boundary_cell(-row, col, BoundaryMode::Mirror) == v.boundary_cell(
            row,
            col,
            BoundaryMode::Mirror,
        ),
        v.boundary_cell(row, -col, BoundaryMode::Mirror) == v.boundary_cell(
            row,
            col,
            BoundaryMode::Mirror,
        ),
        0 <= k < v.height ==> v.boundary_cell(v.height + k, col, BoundaryMode::Mirror)
            == v.boundary_cell(v.height - 1 - k, col, BoundaryMode::Mirror),
        0 <= k < v.width ==> v.boundary_cell(row, v.width + k, BoundaryMode::Mirror)
            == v.boundary_cell(row, v.width - 1 - k, BoundaryMode::Mirror),
        row >= 0 ==> v.boundary_cell(row + 2 * v.height, col, BoundaryMode::Mirror)
            == v.boundary_cell(row, col, BoundaryMode::Mirror),
        col >= 0 ==> v.boundary_cell(row, col + 2 * v.width, BoundaryMode::Mirror)
            == v.boundary_cell(row, col, BoundaryMode::Mirror),
{
    let h = v.height as int;
    let w = v.width as int;
    lemma_mirror_symmetric(row, h);
    lemma_mirror_symmetric(col, w);
    if 0 <= k < h {
        lemma_mirror_reflects(k, h);
        lemma_boundary_identity(h - 1 - k, h, BoundaryMode::Mirror);
    }
    if 0 <= k < w {
        lemma_mirror_reflects(k, w);
        lemma_boundary_identity(w - 1 - k, w, BoundaryMode::Mirror);
    }
    if row >= 0 {
        lemma_mirror_periodic(row, h);
    }
    if col >= 0 {
        lemma_mirror_periodic(col, w);
    }
}

/// A region fits on a surface exactly when its origin plus its height stays within the
/// surface's height and its origin plus its width within the surface's width; a
/// non-empty region fits exactly when every one of its cells lies on the surface.
pub proof fn lemma_region_fits(v: SurfaceView, origin: SurfaceAddress, width: int, height: int)
    ensures
        v.region_fits(origin, width, height) <==> (origin.row + height <= v.height && origin.col
            + width <= v.width),
        width > 0 && height > 0 ==> (v.region_fits(origin, width, height) <==> forall|
            i: int,
            j: int,
        |
            0 <= i < height && 0 <= j < width ==> #[trigger] v.in_bounds(
                origin.row + i,
                origin.col + j,
            )),
{
    if width > 0 && height > 0 && (forall|i: int, j: int|
        0 <= i < height && 0 <= j < width ==> #[trigger] v.in_bounds(
            origin.row + i,
            origin.col + j,
        )) {
        assert(v.in_bounds(origin.row + (height - 1), origin.col + (width - 1)));
    }
}

/// After a region copy, the destination cell `i` rows and `j` columns from the
/// destination origin reads the source cell `i` rows and `j` columns from the source
/// origin, for every `i < height` and `j < width`.
pub proof fn lemma_with_region_copies(
    dst: SurfaceView,
    src: SurfaceView,
    src_origin: SurfaceAddress,
    dst_origin: SurfaceAddress,
    width: int,
    height: int,
    i: int,
    j: int,
)
    requires
        dst.wf(),
        src.wf(),
        src.region_fits(src_origin, width, height),
        dst.region_fits(dst_origin, width, height),
        0 <= i < height,
        0 <= j < width,
    ensures
        dst.with_region(src, src_origin, dst_origin, width, height).lookup(
            dst_origin.row + i,
            dst_origin.col + j,
        ) == src.lookup(src_origin.row + i, src_origin.col + j),
        src.lookup(src_origin.row + i, src_origin.col + j) is Some,
{
    lemma_lookup_with_region(
        dst,
        src,
        src_origin,
        dst_origin,
        width,
        height,
        dst_origin.row + i,
        dst_origin.col + j,
    );
}

/// After a region copy, every destination cell above, below, left or right of the
/// copied rectangle reads what it read before.
pub proof fn lemma_with_region_keeps(
    dst: SurfaceView,
    src: SurfaceView,
    src_origin: SurfaceAddress,
    dst_origin: SurfaceAddress,
    width: int,
    height: int,
    row: int,
    col: int,
)
    requires
        dst.wf(),
        src.wf(),
        width >= 0,
        height >= 0,
        src.region_fits(src_origin, width, height),
        dst.region_fits(dst_origin, width, height),
        row < dst_origin.row || row >= dst_origin.row + height || col < dst_origin.col || col
            >= dst_origin.col + width,
    ensures
        dst.with_region(src, src_origin, dst_origin, width, height).lookup(row, col)
            == dst.lookup(row, col),
{
    lemma_lookup_with_region(dst, src, src_origin, dst_origin, width, height, row, col);
}

} // verus!
