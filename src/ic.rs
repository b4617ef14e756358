//! Initial particle lattice for Zel'dovich initial conditions.
//!
//! Particles start on a uniform cubic lattice of `per_axis` sites per axis,
//! spaced `n / per_axis` cells apart and offset by half a cell; the
//! Zel'dovich displacements are then applied with `integrate::advance_axis`.
use vstd::prelude::*;
use crate::lattice::{CELL, cube, flat, valid_side, cell_coords, lemma_unflatten, lemma_flat_bounds};
use crate::density::Position;
use crate::integrate::wrap_position;

verus! {

/// Fixed-point coordinate of lattice site `i` of `per_axis` sites per axis in
/// a box of side `n` cells: `i * n / per_axis + 1/2` cells, wrapped into the box.
pub open spec fn lattice_coord(i: int, per_axis: int, n: int) -> int {
    wrap_position((i * n * CELL) / per_axis + CELL / 2, n)
}

/// The particle lattice: particle `flat(per_axis, i, j, k)` sits at site
/// `(i, j, k)`.
pub fn lattice_positions(per_axis: usize, n: usize) -> (r: Vec<Position>)
    requires
        valid_side(per_axis as int),
        valid_side(n as int),
    ensures
        r@.len() == cube(per_axis as int),
        forall|i: int, j: int, k: int|
            0 <= i < per_axis && 0 <= j < per_axis && 0 <= k < per_axis ==> {
                &&& (#[trigger] r@[flat(per_axis as int, i, j, k)])[0] == lattice_coord(
                    i,
                    per_axis as int,
                    n as int,
                )
                &&& r@[flat(per_axis as int, i, j, k)][1] == lattice_coord(j, per_axis as int, n as int)
                &&& r@[flat(per_axis as int, i, j, k)][2] == lattice_coord(k, per_axis as int, n as int)
            },
{
    proof {
        lemma_flat_bounds(per_axis as int, 0, 0, 0);
    }
    let count = per_axis * per_axis * per_axis;
    let mut r: Vec<Position> = Vec::new();
    let mut m: usize = 0;
    while m < count
        invariant
            valid_side(per_axis as int),
            valid_side(n as int),
            count == cube(per_axis as int),
            m <= count,
            r@.len() == m,
            forall|q: int|
                0 <= q < m ==> {
                    &&& (#[trigger] r@[q])[0] == lattice_coord(
                        q / (per_axis * per_axis),
                        per_axis as int,
                        n as int,
                    )
                    &&& r@[q][1] == lattice_coord((q / per_axis as int) % (per_axis as int), per_axis as int, n as int)
                    &&& r@[q][2] == lattice_coord(q % (per_axis as int), per_axis as int, n as int)
                },
        decreases count - m,
    {
        proof {
            lemma_unflatten(per_axis as int, m as int);
        }
        let (i, j, k) = cell_coords(per_axis, m);
        proof {
            lemma_flat_injective_at(per_axis as int, m as int, i as int, j as int, k as int);
        }
        let p: Position = [site_coord(i, per_axis, n), site_coord(j, per_axis, n), site_coord(k, per_axis, n)];
        r.push(p);
        m = m + 1;
    }
    proof {
        assert forall|i: int, j: int, k: int|
            0 <= i < per_axis && 0 <= j < per_axis && 0 <= k < per_axis implies {
                &&& (#[trigger] r@[flat(per_axis as int, i, j, k)])[0] == lattice_coord(
                    i,
                    per_axis as int,
                    n as int,
                )
                &&& r@[flat(per_axis as int, i, j, k)][1] == lattice_coord(j, per_axis as int, n as int)
                &&& r@[flat(per_axis as int, i, j, k)][2] == lattice_coord(k, per_axis as int, n as int)
            } by {
            let q = flat(per_axis as int, i, j, k);
            lemma_flat_bounds(per_axis as int, i, j, k);
            lemma_unflatten(per_axis as int, q);
            crate::lattice::lemma_flat_injective(
                per_axis as int,
                i,
                j,
                k,
                q / (per_axis * per_axis),
                (q / per_axis as int) % (per_axis as int),
                q % (per_axis as int),
            );
        }
    }
    r
}

/// The coordinates read back from a cell index are those the index was made of.
proof fn lemma_flat_injective_at(n: int, idx: int, i: int, j: int, k: int)
    requires
        0 < n,
        0 <= idx < cube(n),
        0 <= i < n,
        0 <= j < n,
        0 <= k < n,
        flat(n, i, j, k) == idx,
    ensures
        i == idx / (n * n),
        j == (idx / n) % n,
        k == idx % n,
{
    lemma_unflatten(n, idx);
    crate::lattice::lemma_flat_injective(n, i, j, k, idx / (n * n), (idx / n) % n, idx % n);
}

/// Fixed-point coordinate of lattice site `i`.
fn site_coord(i: usize, per_axis: usize, n: usize) -> (r: i64)
    requires
        valid_side(per_axis as int),
        valid_side(n as int),
        i < per_axis,
    ensures
        r == lattice_coord(i as int, per_axis as int, n as int),
{
    let extent = (n as i128) * (CELL as i128);
    proof {
        assert(i * (n * CELL) <= usize::MAX * i64::MAX) by (nonlinear_arith)
            requires
                i < per_axis <= usize::MAX,
                0 <= n * CELL <= i64::MAX,
        ;
        assert(i * (n * CELL) == i * n * CELL) by (nonlinear_arith);
    }
    let span = (i as i128) * extent;
    let shifted = span / (per_axis as i128) + (CELL as i128) / 2;
    let wrapped = shifted.checked_rem_euclid(extent).unwrap();
    wrapped as i64
}

} // verus!
