//! Force interpolation stencil and the periodic position update.
//!
//! The force on a particle along one axis is the cloud-in-cell average of
//! centred potential differences: for each corner `c` of the particle's cloud,
//! the potential one cell below the corner cell minus the potential one cell
//! above it, weighted by the corner's weight and halved. This module gives,
//! for each corner, that weight and the two cells; the caller reads the
//! potentials there.
use vstd::prelude::*;
use vstd::arithmetic::div_mod::lemma_add_mod_noop_right;
use crate::lattice::{CELL, flat, wrap, cell_of, valid_side, locate, flat_index, neighbor};
use crate::density::{
    Position, corner_step, corner_weight, corner_cell, cic_weights, same_modulo_box,
    lemma_cloud_periodic,
};

verus! {

/// One corner of a particle's cloud in the force stencil along an axis.
#[derive(Clone, Copy, Debug, PartialEq, Eq)]
pub struct StencilTerm {
    /// Weight of the corner, in units of `1 / MASS_UNITS`.
    pub weight: u64,
    /// Row-major index of the cell one step above the corner cell.
    pub plus: usize,
    /// Row-major index of the cell one step below the corner cell.
    pub minus: usize,
}

/// Periodic coordinate along `a` of corner `c` of the cloud of `p`, moved by
/// `d` cells when `a` is the stencil's axis.
pub open spec fn shifted_coord(p: Position, n: int, c: int, axis: int, d: int, a: int) -> int {
    wrap(cell_of(p[a] as int, n) + corner_step(c, a) + if a == axis { d } else { 0 }, n)
}

/// Row-major index of corner `c` of the cloud of `p` moved by `d` cells along `axis`.
pub open spec fn shifted_cell(p: Position, n: int, c: int, axis: int, d: int) -> int {
    flat(
        n,
        shifted_coord(p, n, c, axis, d, 0),
        shifted_coord(p, n, c, axis, d, 1),
        shifted_coord(p, n, c, axis, d, 2),
    )
}

/// Interpolation reads the cells that deposition fills: unmoved, the stencil
/// cell of corner `c` is the cell that deposition gives corner `c`.
pub proof fn lemma_stencil_centre(p: Position, n: int, c: int, axis: int)
    ensures
        shifted_cell(p, n, c, axis, 0) == corner_cell(p, n, c),
{
}

/// The force stencil is periodic: positions equal up to whole periods of the
/// box have the same weights and the same stencil cells.
pub proof fn lemma_stencil_periodic(p: Position, q: Position, n: int, axis: int)
    requires
        valid_side(n),
        same_modulo_box(p, q, n),
    ensures
        forall|c: int| #[trigger] corner_weight(p, c) == corner_weight(q, c),
        forall|c: int, d: int| #[trigger] shifted_cell(p, n, c, axis, d) == shifted_cell(q, n, c, axis, d),
{
    lemma_cloud_periodic(p, q, n);
    assert(cell_of(p[0] as int, n) == cell_of(q[0] as int, n));
    assert(cell_of(p[1] as int, n) == cell_of(q[1] as int, n));
    assert(cell_of(p[2] as int, n) == cell_of(q[2] as int, n));
}

/// A fixed-point coordinate wrapped into the box `0 .. n * CELL`.
pub open spec fn wrap_position(p: int, n: int) -> int {
    p % (n * CELL)
}

proof fn lemma_wrap_twice(i: int, d: int, n: int)
    requires
        0 < n,
    ensures
        wrap(wrap(i, n) + d, n) == wrap(i + d, n),
{
    lemma_add_mod_noop_right(d, i, n);
}

/// Coordinate of one axis of a stencil cell: `lo` is the particle's cell on
/// that axis; `step` picks the corner; `d` moves it.
fn stencil_coord(lo: usize, n: usize, step: bool, d: i64) -> (r: usize)
    requires
        valid_side(n as int),
        lo < n,
        -1 <= d <= 1,
    ensures
        r < n,
        r == wrap(lo + (if step { 1int } else { 0int }) + d, n as int),
{
    let ghost nn = n as int;
    let s: i64 = if step { 1 } else { 0 };
    let base = if step { neighbor(lo, n, true) } else { lo };
    proof {
        assert(wrap(lo as int, nn) == lo) by (nonlinear_arith)
            requires
                0 <= lo < nn,
        ;
        assert(base == wrap(lo + s, nn));
    }
    if d == 0 {
        proof {
            lemma_wrap_twice(lo + s, 0, nn);
            assert(wrap(base as int, nn) == base) by (nonlinear_arith)
                requires
                    0 <= base < nn,
            ;
        }
        base
    } else {
        let r = neighbor(base, n, d == 1);
        proof {
            lemma_wrap_twice(lo + s, d as int, nn);
        }
        r
    }
}

/// The force stencil of a particle at `p` along `axis` on a grid of side `n`:
/// term `c` holds the weight of corner `c` of the cloud and the cells one
/// step above and below the corner cell along `axis`.
pub fn force_stencil(p: &Position, n: usize, axis: usize) -> (r: Vec<StencilTerm>)
    requires
        valid_side(n as int),
        axis < 3,
    ensures
        r@.len() == 8,
        forall|c: int| 0 <= c < 8 ==> (#[trigger] r@[c]).weight == corner_weight(*p, c),
        forall|c: int|
            0 <= c < 8 ==> (#[trigger] r@[c]).plus == shifted_cell(*p, n as int, c, axis as int, 1),
        forall|c: int|
            0 <= c < 8 ==> (#[trigger] r@[c]).minus == shifted_cell(
                *p,
                n as int,
                c,
                axis as int,
                -1,
            ),
{
    let w = cic_weights(p);
    let (x0, _) = locate(p[0], n);
    let (y0, _) = locate(p[1], n);
    let (z0, _) = locate(p[2], n);
    let mut r: Vec<StencilTerm> = Vec::new();
    let mut c: usize = 0;
    while c < 8
        invariant
            valid_side(n as int),
            axis < 3,
            c <= 8,
            r@.len() == c,
            x0 == cell_of(p[0] as int, n as int),
            y0 == cell_of(p[1] as int, n as int),
            z0 == cell_of(p[2] as int, n as int),
            x0 < n,
            y0 < n,
            z0 < n,
            forall|j: int| 0 <= j < 8 ==> #[trigger] w[j] as int == corner_weight(*p, j),
            forall|j: int| 0 <= j < c ==> (#[trigger] r@[j]).weight == corner_weight(*p, j),
            forall|j: int|
                0 <= j < c ==> (#[trigger] r@[j]).plus == shifted_cell(
                    *p,
                    n as int,
                    j,
                    axis as int,
                    1,
                ),
            forall|j: int|
                0 <= j < c ==> (#[trigger] r@[j]).minus == shifted_cell(
                    *p,
                    n as int,
                    j,
                    axis as int,
                    -1,
                ),
        decreases 8 - c,
    {
        let sx = c / 4 == 1;
        let sy = (c / 2) % 2 == 1;
        let sz = c % 2 == 1;
        let dx: i64 = if axis == 0 { 1 } else { 0 };
        let dy: i64 = if axis == 1 { 1 } else { 0 };
        let dz: i64 = if axis == 2 { 1 } else { 0 };
        let plus = flat_index(
            n,
            stencil_coord(x0, n, sx, dx),
            stencil_coord(y0, n, sy, dy),
            stencil_coord(z0, n, sz, dz),
        );
        let minus = flat_index(
            n,
            stencil_coord(x0, n, sx, -dx),
            stencil_coord(y0, n, sy, -dy),
            stencil_coord(z0, n, sz, -dz),
        );
        r.push(StencilTerm { weight: w[c], plus, minus });
        c = c + 1;
    }
    r
}

/// Fixed-point coordinate `p` moved by `delta` and wrapped into the box
/// `0 .. n * CELL`.
pub fn advance(p: i64, delta: i64, n: usize) -> (r: i64)
    requires
        valid_side(n as int),
    ensures
        r == wrap_position(p + delta, n as int),
        0 <= r < n * CELL,
{
    let extent = (n as i128) * (CELL as i128);
    let moved = (p as i128) + (delta as i128);
    let r = moved.checked_rem_euclid(extent).unwrap();
    r as i64
}

/// Moves every particle along `axis` by its own displacement and wraps it
/// into the periodic box; the other coordinates stay as they were.
pub fn advance_axis(positions: &mut Vec<Position>, deltas: &Vec<i64>, axis: usize, n: usize)
    requires
        valid_side(n as int),
        axis < 3,
        old(positions)@.len() == deltas@.len(),
    ensures
        final(positions)@.len() == old(positions)@.len(),
        forall|i: int, a: int|
            0 <= i < old(positions)@.len() && 0 <= a < 3 ==> (#[trigger] final(positions)@[i][a])
                == if a == axis {
                wrap_position(old(positions)@[i][a] + deltas@[i], n as int) as i64
            } else {
                old(positions)@[i][a]
            },
{
    let ghost start = positions@;
    let mut i: usize = 0;
    while i < positions.len()
        invariant
            valid_side(n as int),
            axis < 3,
            start.len() == deltas@.len(),
            positions@.len() == start.len(),
            i <= start.len(),
            forall|j: int, a: int|
                0 <= j < i && 0 <= a < 3 ==> (#[trigger] positions@[j][a]) == if a == axis {
                    wrap_position(start[j][a] + deltas@[j], n as int) as i64
                } else {
                    start[j][a]
                },
            forall|j: int| i <= j < start.len() ==> #[trigger] positions@[j] == start[j],
        decreases start.len() - i,
    {
        let mut p = positions[i];
        let moved = advance(p[axis], deltas[i], n);
        p[axis] = moved;
        positions.set(i, p);
        i = i + 1;
    }
}

} // verus!
