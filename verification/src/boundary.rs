use vstd::prelude::*;
use vstd::arithmetic::div_mod::lemma_fundamental_div_mod;
use vstd::arithmetic::div_mod::lemma_fundamental_div_mod_converse;
use vstd::arithmetic::div_mod::lemma_mod_multiples_vanish;

verus! {

/// Boundary mode for out-of-bounds access.
#[derive(Debug, Clone, Copy, PartialEq, Eq, Structural)]
pub enum BoundaryMode {
    /// Clamp coordinates to valid range.
    Clamp,
    /// Wrap coordinates using modular arithmetic.
    Wrap,
    /// Mirror coordinates at boundaries.
    Mirror,
}

/// Where a coordinate lands on an axis of `size` cells under `mode`.
///
/// - `Clamp` takes the nearest cell of `[0, size)`.
/// - `Wrap` takes the coordinate modulo `size` (the least non-negative residue).
/// - `Mirror` folds the axis back and forth: with `m = |coord| % (2 * size)`, the
///   coordinate lands on `m` when `m < size` and on `2 * size - 1 - m` otherwise.
pub open spec fn boundary_coord(coord: int, size: int, mode: BoundaryMode) -> int {
    match mode {
        BoundaryMode::Clamp => {
            if coord < 0 {
                0
            } else if coord >= size {
                size - 1
            } else {
                coord
            }
        },
        BoundaryMode::Wrap => coord % size,
        BoundaryMode::Mirror => {
            let a = if coord < 0 {
                -coord
            } else {
                coord
            };
            let m = a % (2 * size);
            if m < size {
                m
            } else {
                2 * size - 1 - m
            }
        },
    }
}

/// The residue of `-a` modulo `s`, from that of `a`.
pub proof fn lemma_neg_mod(a: int, s: int)
    requires
        a >= 0,
        s > 0,
    ensures
        a % s == 0 ==> (-a) % s == 0,
        a % s != 0 ==> (-a) % s == s - a % s,
{
    lemma_fundamental_div_mod(a, s);
    let q = a / s;
    let m = a % s;
    if m == 0 {
        assert(-a == (-q) * s + 0) by (nonlinear_arith)
            requires a == s * q + m, m == 0;
        lemma_fundamental_div_mod_converse(-a, s, -q, 0);
    } else {
        assert(-a == (-q - 1) * s + (s - m)) by (nonlinear_arith)
            requires a == s * q + m;
        lemma_fundamental_div_mod_converse(-a, s, -q - 1, s - m);
    }
}

/// Every mode sends every coordinate to a cell of a non-empty axis.
pub proof fn lemma_boundary_in_range(coord: int, size: int, mode: BoundaryMode)
    requires
        size > 0,
    ensures
        0 <= boundary_coord(coord, size, mode) < size,
{
}

/// A coordinate already on the axis is left where it is, whatever the mode.
pub proof fn lemma_boundary_identity(coord: int, size: int, mode: BoundaryMode)
    requires
        0 <= coord < size,
    ensures
        boundary_coord(coord, size, mode) == coord,
{
    if mode == BoundaryMode::Wrap {
        lemma_fundamental_div_mod_converse(coord, size, 0, coord);
    } else if mode == BoundaryMode::Mirror {
        lemma_fundamental_div_mod_converse(coord, 2 * size, 0, coord);
    }
}

/// Clamping picks the cell of the axis nearest to the coordinate.
pub proof fn lemma_clamp_nearest(coord: int, size: int, other: int)
    requires
        0 <= other < size,
    ensures
        ({
            let r = boundary_coord(coord, size, BoundaryMode::Clamp);
            let d_r = if coord >= r { coord - r } else { r - coord };
            let d_o = if coord >= other { coord - other } else { other - coord };
            d_r <= d_o
        }),
{
}

/// Wrapping is periodic: moving a coordinate by whole axis lengths does not move
/// where it lands.
pub proof fn lemma_wrap_periodic(coord: int, size: int, k: int)
    requires
        size > 0,
    ensures
        boundary_coord(coord + k * size, size, BoundaryMode::Wrap) == boundary_coord(
            coord,
            size,
            BoundaryMode::Wrap,
        ),
{
    lemma_mod_multiples_vanish(k, coord, size);
    assert(size * k + coord == coord + k * size) by (nonlinear_arith);
}

/// Wrapping keeps a coordinate's residue: it lands a whole number of axis lengths away.
pub proof fn lemma_wrap_congruent(coord: int, size: int)
    requires
        size > 0,
    ensures
        coord == (coord / size) * size + boundary_coord(coord, size, BoundaryMode::Wrap),
{
    lemma_fundamental_div_mod(coord, size);
    assert(size * (coord / size) == (coord / size) * size) by (nonlinear_arith);
}

/// Mirroring reflects the first axis length past either edge back onto the axis:
/// `size + k` lands on `size - 1 - k`, and `-k` lands on `k`.
pub proof fn lemma_mirror_reflects(k: int, size: int)
    requires
        0 <= k < size,
    ensures
        boundary_coord(size + k, size, BoundaryMode::Mirror) == size - 1 - k,
        k > 0 ==> boundary_coord(-k, size, BoundaryMode::Mirror) == k,
{
    lemma_fundamental_div_mod_converse(size + k, 2 * size, 0, size + k);
    lemma_fundamental_div_mod_converse(k, 2 * size, 0, k);
}

/// The residue modulo twice the axis length, from the quotient and residue modulo the axis length.
pub proof fn lemma_mod_double(x: int, size: int)
    requires
        x >= 0,
        size > 0,
    ensures
        x % (2 * size) == (if (x / size) % 2 == 0 {
            x % size
        } else {
            size + x % size
        }),
{
    lemma_fundamental_div_mod(x, size);
    let q = x / size;
    let r = x % size;
    let p = q / 2;
    if q % 2 == 0 {
        assert(x == p * (2 * size) + r) by (nonlinear_arith)
            requires
                x == size * q + r,
                q == 2 * p,
        ;
        lemma_fundamental_div_mod_converse(x, 2 * size, p, r);
    } else {
        assert(x == p * (2 * size) + (size + r)) by (nonlinear_arith)
            requires
                x == size * q + r,
                q == 2 * p + 1,
        ;
        lemma_fundamental_div_mod_converse(x, 2 * size, p, size + r);
    }
}

/// Mirroring counted in bounces: a coordinate `-a` below the axis lands on `a % size`
/// after an even number `a / size` of whole axis lengths and on `size - 1 - a % size`
/// after an odd one; a coordinate `size + o` past the end lands on `size - 1 - o % size`
/// when `o / size` is even and on `o % size` when it is odd.
pub proof fn lemma_mirror_by_bounces(coord: int, size: int)
    requires
        size > 0,
    ensures
        boundary_coord(coord, size, BoundaryMode::Mirror) == (if coord < 0 {
            let a = -coord;
            if (a / size) % 2 == 0 {
                a % size
            } else {
                size - 1 - a % size
            }
        } else if coord >= size {
            let o = coord - size;
            if (o / size) % 2 == 0 {
                size - 1 - o % size
            } else {
                o % size
            }
        } else {
            coord
        }),
{
    if coord < 0 {
        lemma_mod_double(-coord, size);
    } else if coord >= size {
        let o = coord - size;
        lemma_fundamental_div_mod(o, size);
        assert(coord == (o / size + 1) * size + o % size) by (nonlinear_arith)
            requires
                o == size * (o / size) + o % size,
                coord == o + size,
        ;
        lemma_fundamental_div_mod_converse(coord, size, o / size + 1, o % size);
        lemma_mod_double(coord, size);
    } else {
        lemma_fundamental_div_mod_converse(coord, 2 * size, 0, coord);
    }
}

/// Mirroring is symmetric about coordinate 0: `coord` and `-coord` land on the same cell.
pub proof fn lemma_mirror_symmetric(coord: int, size: int)
    ensures
        boundary_coord(coord, size, BoundaryMode::Mirror) == boundary_coord(
            -coord,
            size,
            BoundaryMode::Mirror,
        ),
{
}

/// Mirroring repeats every two axis lengths on each side of the axis.
pub proof fn lemma_mirror_periodic(coord: int, size: int)
    requires
        size > 0,
        coord >= 0,
    ensures
        boundary_coord(coord + 2 * size, size, BoundaryMode::Mirror) == boundary_coord(
            coord,
            size,
            BoundaryMode::Mirror,
        ),
{
    lemma_mod_multiples_vanish(1, coord, 2 * size);
}

} // verus!
