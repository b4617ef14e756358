//! Cloud-in-cell mass assignment of particles held at fixed-point positions.
//!
//! A particle at fixed-point position `p` shares its mass among the eight
//! cells around it, in proportion to the trilinear volume fractions. A weight
//! is counted in units of `1 / CELL^3` of the particle's mass, so the shares
//! of one particle are exact integers that add up to `CELL^3`.
use vstd::prelude::*;
use vstd::arithmetic::div_mod::{lemma_hoist_over_denominator, lemma_mod_multiples_vanish};
use crate::lattice::{
    CELL, cube, flat, wrap, cell_of, offset_of, valid_side, locate, flat_index, neighbor,
    lemma_flat_bounds, cell_coords,
};
use crate::grid::{MassGrid, mass_cells, mass_side, allocatable};

verus! {

/// A particle position: one fixed-point coordinate per axis.
pub type Position = [i64; 3];

/// Mass of one particle in grid units: `CELL^3`, the sum of the eight weights
/// of its cloud.
pub const MASS_UNITS: u128 = 1152921504606846976;

/// Step, 0 or 1, of corner `c` (in `0..8`) of the cloud along `axis`: bit 2 of
/// `c` steps along axis 0, bit 1 along axis 1, bit 0 along axis 2.
pub open spec fn corner_step(c: int, axis: int) -> int {
    if axis == 0 {
        c / 4
    } else if axis == 1 {
        (c / 2) % 2
    } else {
        c % 2
    }
}

/// Length of the overlap, along one axis, of a particle whose in-cell offset is
/// `d` with its own cell (`step == 0`) or the next cell up (`step == 1`).
pub open spec fn axis_share(d: int, step: int) -> int {
    if step == 1 {
        d
    } else {
        CELL - d
    }
}

/// Weight that a particle at `p` gives to corner `c` of its cloud.
pub open spec fn corner_weight(p: Position, c: int) -> int {
    axis_share(offset_of(p[0] as int), corner_step(c, 0)) * axis_share(
        offset_of(p[1] as int),
        corner_step(c, 1),
    ) * axis_share(offset_of(p[2] as int), corner_step(c, 2))
}

/// Periodic cell coordinate along `axis` of corner `c` of the cloud of `p`.
pub open spec fn corner_coord(p: Position, n: int, c: int, axis: int) -> int {
    wrap(cell_of(p[axis] as int, n) + corner_step(c, axis), n)
}

/// Row-major index of the cell that corner `c` of the cloud of `p` falls in.
pub open spec fn corner_cell(p: Position, n: int, c: int) -> int {
    flat(n, corner_coord(p, n, c, 0), corner_coord(p, n, c, 1), corner_coord(p, n, c, 2))
}

/// Sum of the weights of corners `0..k`.
pub open spec fn weight_upto(p: Position, k: int) -> int
    decreases k,
{
    if k <= 0 {
        0
    } else {
        weight_upto(p, k - 1) + corner_weight(p, k - 1)
    }
}

/// Sum of the values of a grid.
pub open spec fn total(g: Seq<int>) -> int
    decreases g.len(),
{
    if g.len() == 0 {
        0
    } else {
        total(g.drop_last()) + g.last()
    }
}

/// Grid values as integers.
pub open spec fn as_ints(g: Seq<u128>) -> Seq<int> {
    g.map_values(|v: u128| v as int)
}

/// `g` with `v` added at index `i`.
pub open spec fn add_at(g: Seq<int>, i: int, v: int) -> Seq<int> {
    g.update(i, g[i] + v)
}

/// `g` after corners `0..k` of the cloud of `p` were added to it.
pub open spec fn deposit_corners(g: Seq<int>, p: Position, n: int, k: int) -> Seq<int>
    decreases k,
{
    if k <= 0 {
        g
    } else {
        add_at(deposit_corners(g, p, n, k - 1), corner_cell(p, n, k - 1), corner_weight(p, k - 1))
    }
}

/// The grid of side `n` that the particles `ps` deposit, one after the other,
/// on an empty grid.
pub open spec fn deposit(ps: Seq<Position>, n: int) -> Seq<int>
    decreases ps.len(),
{
    if ps.len() == 0 {
        Seq::new(cube(n) as nat, |i: int| 0)
    } else {
        deposit_corners(deposit(ps.drop_last(), n), ps.last(), n, 8)
    }
}

/// Positions whose coordinates agree, axis by axis, up to whole periods `n`.
pub open spec fn same_modulo_box(p: Position, q: Position, n: int) -> bool {
    forall|a: int|
        0 <= a < 3 ==> (#[trigger] p[a] as int - q[a] as int) % (n * CELL) == 0
}

/// Replacing one value of a grid changes its total by the difference.
pub proof fn lemma_total_update(g: Seq<int>, i: int, v: int)
    requires
        0 <= i < g.len(),
    ensures
        total(g.update(i, v)) == total(g) - g[i] + v,
    decreases g.len(),
{
    let h = g.update(i, v);
    if i == g.len() - 1 {
        assert(h.drop_last() =~= g.drop_last());
    } else {
        assert(h.drop_last() =~= g.drop_last().update(i, v));
        lemma_total_update(g.drop_last(), i, v);
    }
}

/// An empty grid holds no mass.
pub proof fn lemma_total_zeros(len: nat)
    ensures
        total(Seq::new(len, |i: int| 0int)) == 0,
    decreases len,
{
    if len > 0 {
        assert(Seq::new(len, |i: int| 0int).drop_last() =~= Seq::new((len - 1) as nat, |i: int| 0int));
        lemma_total_zeros((len - 1) as nat);
    }
}

/// No value of a grid without negative values exceeds the grid's total.
pub proof fn lemma_total_bound(g: Seq<int>, i: int)
    requires
        0 <= i < g.len(),
        forall|j: int| 0 <= j < g.len() ==> g[j] >= 0,
    ensures
        0 <= g[i] <= total(g),
    decreases g.len(),
{
    lemma_total_nonneg(g.drop_last());
    if i < g.len() - 1 {
        lemma_total_bound(g.drop_last(), i);
    }
}

/// A grid without negative values has a non-negative total.
pub proof fn lemma_total_nonneg(g: Seq<int>)
    requires
        forall|j: int| 0 <= j < g.len() ==> g[j] >= 0,
    ensures
        total(g) >= 0,
    decreases g.len(),
{
    if g.len() > 0 {
        lemma_total_nonneg(g.drop_last());
    }
}

proof fn lemma_distribute(a: int, u: int, v: int)
    ensures
        a * u + a * v == a * (u + v),
{
    assert(a * u + a * v == a * (u + v)) by (nonlinear_arith);
}

/// The eight weights of a particle add up to one particle's mass.
pub proof fn lemma_weights_sum(p: Position)
    ensures
        weight_upto(p, 8) == CELL * CELL * CELL,
        forall|c: int| 0 <= c < 8 ==> 0 <= #[trigger] corner_weight(p, c) <= CELL * CELL * CELL,
{
    let e = CELL as int;
    let x = offset_of(p[0] as int);
    let y = offset_of(p[1] as int);
    let z = offset_of(p[2] as int);
    reveal_with_fuel(weight_upto, 9);
    assert(corner_step(0, 0) == 0 && corner_step(0, 1) == 0 && corner_step(0, 2) == 0);
    assert(corner_step(1, 0) == 0 && corner_step(1, 1) == 0 && corner_step(1, 2) == 1);
    assert(corner_step(2, 0) == 0 && corner_step(2, 1) == 1 && corner_step(2, 2) == 0);
    assert(corner_step(3, 0) == 0 && corner_step(3, 1) == 1 && corner_step(3, 2) == 1);
    assert(corner_step(4, 0) == 1 && corner_step(4, 1) == 0 && corner_step(4, 2) == 0);
    assert(corner_step(5, 0) == 1 && corner_step(5, 1) == 0 && corner_step(5, 2) == 1);
    assert(corner_step(6, 0) == 1 && corner_step(6, 1) == 1 && corner_step(6, 2) == 0);
    assert(corner_step(7, 0) == 1 && corner_step(7, 1) == 1 && corner_step(7, 2) == 1);
    let a = (e - x) * (e - y);
    let b = (e - x) * y;
    let c = x * (e - y);
    let d = x * y;
    lemma_distribute(a, e - z, z);
    lemma_distribute(b, e - z, z);
    lemma_distribute(c, e - z, z);
    lemma_distribute(d, e - z, z);
    lemma_distribute(e - x, e - y, y);
    lemma_distribute(x, e - y, y);
    lemma_distribute(e, e - x, x);
    assert(e * (e - x) == (e - x) * e && e * x == x * e) by (nonlinear_arith);
    lemma_distribute(e, a + b, c + d);
    assert(e * (a + b + c + d) == (a + b + c + d) * e) by (nonlinear_arith);
    lemma_distribute(e, a, b);
    lemma_distribute(e, c, d);
    assert(a * e + b * e == (a + b) * e) by (nonlinear_arith);
    assert(c * e + d * e == (c + d) * e) by (nonlinear_arith);
    assert forall|c: int| 0 <= c < 8 implies 0 <= #[trigger] corner_weight(p, c) <= e * e * e by {
        let a = axis_share(x, corner_step(c, 0));
        let b = axis_share(y, corner_step(c, 1));
        let d = axis_share(z, corner_step(c, 2));
        assert(0 <= a <= e && 0 <= b <= e && 0 <= d <= e);
        assert(0 <= a * b * d <= e * e * e) by (nonlinear_arith)
            requires
                0 <= a <= e,
                0 <= b <= e,
                0 <= d <= e,
        ;
    }
}

/// Depositing a particle keeps the grid's length and adds the particle's
/// weights to its total.
pub proof fn lemma_deposit_corners(g: Seq<int>, p: Position, n: int, k: int)
    requires
        valid_side(n),
        g.len() == cube(n),
        0 <= k <= 8,
    ensures
        deposit_corners(g, p, n, k).len() == g.len(),
        total(deposit_corners(g, p, n, k)) == total(g) + weight_upto(p, k),
    decreases k,
{
    if k > 0 {
        lemma_deposit_corners(g, p, n, k - 1);
        lemma_corner_cell_bounds(p, n, k - 1);
        let h = deposit_corners(g, p, n, k - 1);
        let i = corner_cell(p, n, k - 1);
        lemma_total_update(h, i, h[i] + corner_weight(p, k - 1));
    }
}

/// Every corner of a cloud falls inside the grid.
pub proof fn lemma_corner_cell_bounds(p: Position, n: int, c: int)
    requires
        valid_side(n),
    ensures
        0 <= corner_coord(p, n, c, 0) < n,
        0 <= corner_coord(p, n, c, 1) < n,
        0 <= corner_coord(p, n, c, 2) < n,
        0 <= corner_cell(p, n, c) < cube(n),
{
    lemma_flat_bounds(
        n,
        corner_coord(p, n, c, 0),
        corner_coord(p, n, c, 1),
        corner_coord(p, n, c, 2),
    );
}

/// Mass conservation: whatever the positions, the deposited grid holds
/// exactly the mass of all the particles, `MASS_UNITS` for each.
pub proof fn lemma_mass_conservation(ps: Seq<Position>, n: int)
    requires
        valid_side(n),
    ensures
        deposit(ps, n).len() == cube(n),
        total(deposit(ps, n)) == ps.len() * MASS_UNITS,
    decreases ps.len(),
{
    if ps.len() == 0 {
        lemma_total_zeros(cube(n) as nat);
    } else {
        lemma_mass_conservation(ps.drop_last(), n);
        lemma_deposit_corners(deposit(ps.drop_last(), n), ps.last(), n, 8);
        lemma_weights_sum(ps.last());
    }
}

/// A coordinate moved by whole periods lies at the same offset of the same
/// periodic cell.
pub proof fn lemma_shift_by_periods(q: int, m: int, n: int)
    requires
        0 < n,
    ensures
        offset_of(q + m * (n * CELL)) == offset_of(q),
        cell_of(q + m * (n * CELL), n) == cell_of(q, n),
{
    let e = CELL as int;
    assert(m * (n * e) == (m * n) * e) by (nonlinear_arith);
    lemma_hoist_over_denominator(q, m * n, e as nat);
    assert(e * (m * n) + q == q + (m * n) * e) by (nonlinear_arith);
    lemma_mod_multiples_vanish(m * n, q, e);
    assert(n * m + q / e == q / e + m * n) by (nonlinear_arith);
    lemma_mod_multiples_vanish(m, q / e, n);
}

/// Two positions equal up to whole periods have the same cloud.
pub proof fn lemma_cloud_periodic(p: Position, q: Position, n: int)
    requires
        valid_side(n),
        same_modulo_box(p, q, n),
    ensures
        forall|a: int| 0 <= a < 3 ==> #[trigger] cell_of(p[a] as int, n) == cell_of(q[a] as int, n),
        forall|c: int| #[trigger] corner_weight(p, c) == corner_weight(q, c),
        forall|c: int| #[trigger] corner_cell(p, n, c) == corner_cell(q, n, c),
{
    assert forall|a: int| 0 <= a < 3 implies offset_of(#[trigger] p[a] as int) == offset_of(
        q[a] as int,
    ) && cell_of(p[a] as int, n) == cell_of(q[a] as int, n) by {
        let diff = p[a] as int - q[a] as int;
        assert(diff % (n * CELL) == 0);
        let m = diff / (n * CELL);
        assert(diff == m * (n * CELL)) by (nonlinear_arith)
            requires
                diff % (n * CELL) == 0,
                m == diff / (n * CELL),
                n * CELL > 0,
        ;
        lemma_shift_by_periods(q[a] as int, m, n);
    }
    assert(p[0] == p[0] && p[1] == p[1] && p[2] == p[2]);
}

/// Positions equal up to whole periods deposit the same corners.
pub proof fn lemma_deposit_corners_periodic(g: Seq<int>, p: Position, q: Position, n: int, k: int)
    requires
        valid_side(n),
        same_modulo_box(p, q, n),
    ensures
        deposit_corners(g, p, n, k) == deposit_corners(g, q, n, k),
    decreases k,
{
    lemma_cloud_periodic(p, q, n);
    if k > 0 {
        lemma_deposit_corners_periodic(g, p, q, n, k - 1);
    }
}

/// Periodicity: moving any particles by whole periods of the box, on any axes,
/// leaves the deposited grid unchanged.
pub proof fn lemma_periodic_deposit(ps: Seq<Position>, qs: Seq<Position>, n: int)
    requires
        valid_side(n),
        ps.len() == qs.len(),
        forall|i: int| 0 <= i < ps.len() ==> same_modulo_box(#[trigger] ps[i], qs[i], n),
    ensures
        deposit(ps, n) == deposit(qs, n),
    decreases ps.len(),
{
    if ps.len() > 0 {
        lemma_periodic_deposit(ps.drop_last(), qs.drop_last(), n);
        assert(same_modulo_box(ps[ps.len() - 1], qs[ps.len() - 1], n));
        lemma_deposit_corners_periodic(deposit(ps.drop_last(), n), ps.last(), qs.last(), n, 8);
    }
}

/// The eight cloud-in-cell weights of a particle at `p`, corner `c` at index `c`.
pub fn cic_weights(p: &Position) -> (r: [u64; 8])
    ensures
        forall|c: int| 0 <= c < 8 ==> #[trigger] r[c] as int == corner_weight(*p, c),
{
    let dx = p[0].checked_rem_euclid(CELL).unwrap() as u64;
    let dy = p[1].checked_rem_euclid(CELL).unwrap() as u64;
    let dz = p[2].checked_rem_euclid(CELL).unwrap() as u64;
    let e = CELL as u64;
    let tx = e - dx;
    let ty = e - dy;
    let tz = e - dz;
    proof {
        lemma_weights_sum(*p);
        reveal_with_fuel(weight_upto, 9);
        assert(corner_step(0, 0) == 0 && corner_step(0, 1) == 0 && corner_step(0, 2) == 0);
        assert(corner_step(1, 0) == 0 && corner_step(1, 1) == 0 && corner_step(1, 2) == 1);
        assert(corner_step(2, 0) == 0 && corner_step(2, 1) == 1 && corner_step(2, 2) == 0);
        assert(corner_step(3, 0) == 0 && corner_step(3, 1) == 1 && corner_step(3, 2) == 1);
        assert(corner_step(4, 0) == 1 && corner_step(4, 1) == 0 && corner_step(4, 2) == 0);
        assert(corner_step(5, 0) == 1 && corner_step(5, 1) == 0 && corner_step(5, 2) == 1);
        assert(corner_step(6, 0) == 1 && corner_step(6, 1) == 1 && corner_step(6, 2) == 0);
        assert(corner_step(7, 0) == 1 && corner_step(7, 1) == 1 && corner_step(7, 2) == 1);
        assert(0 <= corner_weight(*p, 0) <= CELL * CELL * CELL);
        assert(0 <= corner_weight(*p, 7) <= CELL * CELL * CELL);
        assert forall|a: u64, b: u64| a <= e && b <= e implies #[trigger] (a * b) <= e * e by {
            assert(a * b <= e * e) by (nonlinear_arith)
                requires
                    a <= e,
                    b <= e,
            ;
        }
    }
    let r = [
        tx * ty * tz,
        tx * ty * dz,
        tx * dy * tz,
        tx * dy * dz,
        dx * ty * tz,
        dx * ty * dz,
        dx * dy * tz,
        dx * dy * dz,
    ];
    r
}

/// The cells, as row-major indices into a grid of side `n`, that the eight
/// corners of the cloud of a particle at `p` fall in; corner `c` at index `c`.
pub fn cic_cells(p: &Position, n: usize) -> (r: [usize; 8])
    requires
        valid_side(n as int),
    ensures
        forall|c: int| 0 <= c < 8 ==> #[trigger] r[c] as int == corner_cell(*p, n as int, c),
        forall|c: int| 0 <= c < 8 ==> #[trigger] r[c] < cube(n as int),
{
    let (x0, _) = locate(p[0], n);
    let (y0, _) = locate(p[1], n);
    let (z0, _) = locate(p[2], n);
    let x1 = neighbor(x0, n, true);
    let y1 = neighbor(y0, n, true);
    let z1 = neighbor(z0, n, true);
    proof {
        let nn = n as int;
        assert forall|i: int| 0 <= i < nn implies #[trigger] wrap(i, nn) == i by {
            assert(i % nn == i) by (nonlinear_arith)
                requires
                    0 <= i < nn,
            ;
        }
        assert(corner_step(0, 0) == 0 && corner_step(0, 1) == 0 && corner_step(0, 2) == 0);
        assert(corner_step(1, 0) == 0 && corner_step(1, 1) == 0 && corner_step(1, 2) == 1);
        assert(corner_step(2, 0) == 0 && corner_step(2, 1) == 1 && corner_step(2, 2) == 0);
        assert(corner_step(3, 0) == 0 && corner_step(3, 1) == 1 && corner_step(3, 2) == 1);
        assert(corner_step(4, 0) == 1 && corner_step(4, 1) == 0 && corner_step(4, 2) == 0);
        assert(corner_step(5, 0) == 1 && corner_step(5, 1) == 0 && corner_step(5, 2) == 1);
        assert(corner_step(6, 0) == 1 && corner_step(6, 1) == 1 && corner_step(6, 2) == 0);
        assert(corner_step(7, 0) == 1 && corner_step(7, 1) == 1 && corner_step(7, 2) == 1);
        assert(wrap(x0 as int, nn) == x0 && wrap(y0 as int, nn) == y0 && wrap(z0 as int, nn) == z0);
    }
    [
        flat_index(n, x0, y0, z0),
        flat_index(n, x0, y0, z1),
        flat_index(n, x0, y1, z0),
        flat_index(n, x0, y1, z1),
        flat_index(n, x1, y0, z0),
        flat_index(n, x1, y0, z1),
        flat_index(n, x1, y1, z0),
        flat_index(n, x1, y1, z1),
    ]
}

/// Cloud-in-cell density of the particles at `positions` on a periodic grid
/// of side `n`, in units of `1 / MASS_UNITS` of one particle's mass.
pub fn density(positions: &Vec<Position>, n: usize) -> (r: MassGrid)
    requires
        valid_side(n as int),
        allocatable(n as int),
    ensures
        mass_side(r) == n,
        as_ints(mass_cells(r)) == deposit(positions@, n as int),
        mass_cells(r).len() == cube(n as int),
        total(as_ints(mass_cells(r))) == positions@.len() * MASS_UNITS,
{
    let mut grid = MassGrid::zeros(n);
    proof {
        assert(as_ints(mass_cells(grid)) =~= deposit(positions@.subrange(0, 0), n as int));
        lemma_mass_conservation(positions@.subrange(0, 0), n as int);
    }
    let mut k: usize = 0;
    while k < positions.len()
        invariant
            valid_side(n as int),
            mass_side(grid) == n,
            k <= positions@.len(),
            mass_cells(grid).len() == cube(n as int),
            as_ints(mass_cells(grid)) == deposit(positions@.subrange(0, k as int), n as int),
            total(as_ints(mass_cells(grid))) == k * MASS_UNITS,
        decreases positions@.len() - k,
    {
        let p = &positions[k];
        let w = cic_weights(p);
        let cells = cic_cells(p, n);
        let ghost before = as_ints(mass_cells(grid));
        proof {
            lemma_weights_sum(*p);
            let ps = positions@.subrange(0, k as int + 1);
            assert(ps.drop_last() =~= positions@.subrange(0, k as int));
            assert(ps.last() == *p);
        }
        let mut c: usize = 0;
        while c < 8
            invariant
                valid_side(n as int),
                mass_side(grid) == n,
                0 <= c <= 8,
                mass_cells(grid).len() == cube(n as int),
                before.len() == cube(n as int),
                as_ints(mass_cells(grid)) == deposit_corners(before, *p, n as int, c as int),
                total(as_ints(mass_cells(grid))) == total(before) + weight_upto(*p, c as int),
                total(before) == k * MASS_UNITS,
                k < positions@.len(),
                weight_upto(*p, 8) == MASS_UNITS,
                forall|j: int| 0 <= j < 8 ==> #[trigger] w[j] as int == corner_weight(*p, j),
                forall|j: int| 0 <= j < 8 ==> #[trigger] cells[j] as int == corner_cell(*p, n as int, j),
                forall|j: int| 0 <= j < 8 ==> #[trigger] cells[j] < cube(n as int),
            decreases 8 - c,
        {
            let cell = cells[c];
            let (x, y, z) = cell_coords(n, cell);
            let ghost g = as_ints(mass_cells(grid));
            proof {
                lemma_weights_sum(*p);
                assert(weight_upto(*p, c as int + 1) <= weight_upto(*p, 8)) by {
                    lemma_weight_upto_monotone(*p, c as int + 1);
                }
                lemma_total_bound(g, cell as int);
                assert(k + 1 <= usize::MAX + 1);
                assert((k + 1) * MASS_UNITS <= (usize::MAX + 1) * MASS_UNITS) by (nonlinear_arith)
                    requires
                        k + 1 <= usize::MAX + 1,
                ;
            }
            let v = grid.get(x, y, z) + w[c] as u128;
            grid.set(x, y, z, v);
            proof {
                assert(as_ints(mass_cells(grid)) =~= add_at(g, cell as int, w[c as int] as int));
                lemma_total_update(g, cell as int, g[cell as int] + w[c as int] as int);
            }
            c = c + 1;
        }
        k = k + 1;
    }
    proof {
        assert(positions@.subrange(0, positions@.len() as int) =~= positions@);
    }
    grid
}

proof fn lemma_weight_upto_monotone(p: Position, k: int)
    requires
        0 <= k <= 8,
    ensures
        weight_upto(p, k) <= weight_upto(p, 8),
    decreases 8 - k,
{
    lemma_weights_sum(p);
    if k < 8 {
        lemma_weight_upto_monotone(p, k + 1);
    }
}

} // verus!
