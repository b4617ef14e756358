//! Addressing of a periodic cubic lattice and fixed-point grid coordinates.
use vstd::prelude::*;

verus! {

/// Fixed-point units in one cell width: the coordinate `p` stands for the
/// grid-unit position `p / CELL`.
pub const CELL: i64 = 1048576;

/// Index of cell `(i, j, k)` in a cubic grid of side `n` stored in row-major
/// order, the last coordinate varying fastest.
pub open spec fn flat(n: int, i: int, j: int, k: int) -> int {
    (i * n + j) * n + k
}

/// Number of cells of a cubic grid of side `n`.
pub open spec fn cube(n: int) -> int {
    n * n * n
}

/// Sides whose grids can be stored and addressed: the `n^3` cells fit in a
/// `usize` and the fixed-point extent `n * CELL` of a side fits in an `i64`.
pub open spec fn valid_side(n: int) -> bool {
    &&& 0 < n
    &&& cube(n) <= usize::MAX
    &&& n * CELL <= i64::MAX
}

/// Periodic wrap of an integer onto `0..n`.
pub open spec fn wrap(i: int, n: int) -> int {
    i % n
}

/// The cell, in `0..n`, that holds fixed-point coordinate `p`.
pub open spec fn cell_of(p: int, n: int) -> int {
    (p / (CELL as int)) % n
}

/// Offset of fixed-point coordinate `p` inside its cell, in `0..CELL`.
pub open spec fn offset_of(p: int) -> int {
    p % (CELL as int)
}

/// Row-major indices of cells lie in `0 .. n^3`.
pub proof fn lemma_flat_bounds(n: int, i: int, j: int, k: int)
    requires
        0 <= i < n,
        0 <= j < n,
        0 <= k < n,
    ensures
        0 <= i * n + j < n * n,
        n * n <= cube(n),
        0 <= flat(n, i, j, k) < cube(n),
{
    assert(n * n <= n * n * n) by (nonlinear_arith)
        requires
            0 < n,
    ;
    assert(0 <= i * n + j < n * n) by (nonlinear_arith)
        requires
            0 <= i < n,
            0 <= j < n,
    ;
    let m = i * n + j;
    assert(0 <= m * n + k < n * n * n) by (nonlinear_arith)
        requires
            0 <= m < n * n,
            0 <= k < n,
    ;
}

/// Cells are addressed one to one: the row-major index determines the cell.
pub proof fn lemma_flat_injective(n: int, i: int, j: int, k: int, a: int, b: int, c: int)
    requires
        0 <= i < n,
        0 <= j < n,
        0 <= k < n,
        0 <= a < n,
        0 <= b < n,
        0 <= c < n,
        flat(n, i, j, k) == flat(n, a, b, c),
    ensures
        i == a,
        j == b,
        k == c,
{
    lemma_flat_bounds(n, i, j, k);
    lemma_flat_bounds(n, a, b, c);
    let m1 = i * n + j;
    let m2 = a * n + b;
    lemma_split(n, m1, k, m2, c);
    lemma_split(n, i, j, a, b);
}

/// `q * n + r` with `0 <= r < n` determines `q` and `r`.
proof fn lemma_split(n: int, q1: int, r1: int, q2: int, r2: int)
    requires
        0 <= r1 < n,
        0 <= r2 < n,
        0 <= q1,
        0 <= q2,
        q1 * n + r1 == q2 * n + r2,
    ensures
        q1 == q2,
        r1 == r2,
{
    if q1 < q2 {
        assert(q1 * n + n <= q2 * n) by (nonlinear_arith)
            requires
                q1 < q2,
                0 < n,
        ;
    } else if q2 < q1 {
        assert(q2 * n + n <= q1 * n) by (nonlinear_arith)
            requires
                q2 < q1,
                0 < n,
        ;
    }
}

/// Row-major index of cell `(i, j, k)`.
pub fn flat_index(n: usize, i: usize, j: usize, k: usize) -> (r: usize)
    requires
        valid_side(n as int),
        i < n,
        j < n,
        k < n,
    ensures
        r == flat(n as int, i as int, j as int, k as int),
        r < cube(n as int),
{
    proof {
        lemma_flat_bounds(n as int, i as int, j as int, k as int);
    }
    (i * n + j) * n + k
}

/// Row `idx / (n * n)`, column `(idx / n) % n` and depth `idx % n` are the
/// coordinates of the cell whose row-major index is `idx`.
pub proof fn lemma_unflatten(n: int, idx: int)
    requires
        0 < n,
        0 <= idx < cube(n),
    ensures
        0 <= idx / (n * n) < n,
        0 <= (idx / n) % n < n,
        0 <= idx % n < n,
        idx / (n * n) == (idx / n) / n,
        flat(n, idx / (n * n), (idx / n) % n, idx % n) == idx,
{
    let m = idx / n;
    let k = idx % n;
    let j = m % n;
    let i = m / n;
    assert(0 <= m < n * n) by (nonlinear_arith)
        requires
            0 <= idx < n * n * n,
            m == idx / n,
            0 < n,
    ;
    assert(0 <= i < n) by (nonlinear_arith)
        requires
            0 <= m < n * n,
            i == m / n,
            0 < n,
    ;
    assert(idx == m * n + k) by (nonlinear_arith)
        requires
            m == idx / n,
            k == idx % n,
            0 < n,
    ;
    assert(m == i * n + j) by (nonlinear_arith)
        requires
            i == m / n,
            j == m % n,
            0 < n,
    ;
    assert(idx / (n * n) == i) by (nonlinear_arith)
        requires
            idx == (i * n + j) * n + k,
            0 <= i,
            0 <= j < n,
            0 <= k < n,
            0 < n,
    ;
}

/// The cell `(i, j, k)` whose row-major index is `idx`.
pub fn cell_coords(n: usize, idx: usize) -> (r: (usize, usize, usize))
    requires
        valid_side(n as int),
        idx < cube(n as int),
    ensures
        r.0 < n,
        r.1 < n,
        r.2 < n,
        flat(n as int, r.0 as int, r.1 as int, r.2 as int) == idx,
{
    proof {
        lemma_unflatten(n as int, idx as int);
    }
    let k = idx % n;
    let m = idx / n;
    let j = m % n;
    let i = m / n;
    (i, j, k)
}

/// `i` wrapped periodically onto `0..n`.
pub fn wrap_index(i: i64, n: usize) -> (r: usize)
    requires
        valid_side(n as int),
    ensures
        r == wrap(i as int, n as int),
        r < n,
{
    let m = n as i64;
    let w = i.checked_rem_euclid(m).unwrap();
    w as usize
}

/// The periodic neighbour of cell index `i` one step up (`up`) or down.
pub fn neighbor(i: usize, n: usize, up: bool) -> (r: usize)
    requires
        valid_side(n as int),
        i < n,
    ensures
        r == wrap(if up { i + 1 } else { i - 1 }, n as int),
        r < n,
{
    let ghost nn = n as int;
    if up {
        if i + 1 == n {
            assert(wrap(nn, nn) == 0) by (nonlinear_arith)
                requires
                    0 < nn,
            ;
            0
        } else {
            assert(wrap(i + 1, nn) == i + 1) by (nonlinear_arith)
                requires
                    0 <= i + 1 < nn,
            ;
            i + 1
        }
    } else {
        if i == 0 {
            assert(wrap(-1, nn) == nn - 1) by (nonlinear_arith)
                requires
                    0 < nn,
            ;
            n - 1
        } else {
            assert(wrap(i - 1, nn) == i - 1) by (nonlinear_arith)
                requires
                    0 <= i - 1 < nn,
            ;
            i - 1
        }
    }
}

/// The cell that holds fixed-point coordinate `p`, and the offset of `p`
/// inside it.
pub fn locate(p: i64, n: usize) -> (r: (usize, i64))
    requires
        valid_side(n as int),
    ensures
        r.0 == cell_of(p as int, n as int),
        r.0 < n,
        r.1 == offset_of(p as int),
        0 <= r.1 < CELL,
{
    let q = p.checked_div_euclid(CELL).unwrap();
    let off = p.checked_rem_euclid(CELL).unwrap();
    let c = wrap_index(q, n);
    (c, off)
}

} // verus!
