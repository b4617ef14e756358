//! A cubic grid of deposited mass, stored in an `ndarray` array.
use vstd::prelude::*;
use ndarray::Array3;
use crate::lattice::{cube, flat, lemma_flat_bounds};

verus! {

/// A cubic grid of side `mass_side(g)` whose cell `(i, j, k)` holds
/// `mass_cells(g)[flat(side, i, j, k)]`.
#[verifier::external_body]
pub struct MassGrid {
    cells: Array3<u128>,
}

/// The cells of a mass grid, in row-major order.
pub uninterp spec fn mass_cells(g: MassGrid) -> Seq<u128>;

/// The side the mass grid was made with.
pub uninterp spec fn mass_side(g: MassGrid) -> nat;

/// Sides whose mass grids `ndarray` can allocate: the `n^3` cells of 16 bytes
/// fit in `isize::MAX` bytes.
pub open spec fn allocatable(n: int) -> bool {
    cube(n) * 16 <= isize::MAX
}

impl MassGrid {
    /// Relies on `ndarray::Array3::zeros` with shape `(n, n, n)`: every cell is
    /// zero; it panics only when the size overflows `isize`.
    #[verifier::external_body]
    pub(crate) fn zeros(n: usize) -> (r: MassGrid)
        requires
            allocatable(n as int),
        ensures
            mass_side(r) == n,
            mass_cells(r) == Seq::new(cube(n as int) as nat, |i: int| 0u128),
    {
        MassGrid { cells: Array3::zeros((n, n, n)) }
    }

    /// Relies on `ndarray::ArrayBase::dim`: the lengths of the three axes, whose
    /// product is the number of elements the array holds.
    #[verifier::external_body]
    pub(crate) fn side(&self) -> (r: usize)
        ensures
            r == mass_side(*self),
            cube(r as int) == mass_cells(*self).len(),
    {
        self.cells.dim().0
    }

    /// Relies on indexing an `ndarray` array by `[i, j, k]`: the element at
    /// that logical position; it panics only out of bounds.
    #[verifier::external_body]
    pub(crate) fn get(&self, i: usize, j: usize, k: usize) -> (r: u128)
        requires
            i < mass_side(*self),
            j < mass_side(*self),
            k < mass_side(*self),
        ensures
            r == mass_cells(*self)[flat(mass_side(*self) as int, i as int, j as int, k as int)],
    {
        self.cells[[i, j, k]]
    }

    /// Relies on indexing an `ndarray` array mutably by `[i, j, k]`: only the
    /// element at that logical position changes.
    #[verifier::external_body]
    pub(crate) fn set(&mut self, i: usize, j: usize, k: usize, v: u128)
        requires
            i < mass_side(*old(self)),
            j < mass_side(*old(self)),
            k < mass_side(*old(self)),
        ensures
            mass_side(*final(self)) == mass_side(*old(self)),
            mass_cells(*final(self)) == mass_cells(*old(self)).update(
                flat(mass_side(*old(self)) as int, i as int, j as int, k as int),
                v,
            ),
    {
        self.cells[[i, j, k]] = v;
    }

    /// The cells in row-major order.
    pub fn to_vec(&self) -> (r: Vec<u128>)
        ensures
            r@ == mass_cells(*self),
    {
        let n = self.side();
        let ghost cells = mass_cells(*self);
        let mut r: Vec<u128> = Vec::new();
        let mut i: usize = 0;
        while i < n
            invariant
                n == mass_side(*self),
                cells == mass_cells(*self),
                cells.len() == cube(n as int),
                i <= n,
                r@ == cells.subrange(0, i * n * n),
            decreases n - i,
        {
            let mut j: usize = 0;
            while j < n
                invariant
                    n == mass_side(*self),
                    cells == mass_cells(*self),
                    cells.len() == cube(n as int),
                    i < n,
                    j <= n,
                    r@ == cells.subrange(0, (i * n + j) * n),
                decreases n - j,
            {
                let mut k: usize = 0;
                while k < n
                    invariant
                        n == mass_side(*self),
                        cells == mass_cells(*self),
                        cells.len() == cube(n as int),
                        i < n,
                        j < n,
                        k <= n,
                        r@ == cells.subrange(0, (i * n + j) * n + k),
                    decreases n - k,
                {
                    proof {
                        lemma_flat_bounds(n as int, i as int, j as int, k as int);
                    }
                    r.push(self.get(i, j, k));
                    k = k + 1;
                    assert(r@ =~= cells.subrange(0, (i * n + j) * n + k));
                }
                proof {
                    assert((i * n + j) * n + n == (i * n + j + 1) * n) by (nonlinear_arith);
                }
                j = j + 1;
            }
            proof {
                assert((i * n + n) * n == (i + 1) * n * n) by (nonlinear_arith);
            }
            i = i + 1;
        }
        proof {
            assert(n * n * n == cube(n as int));
            assert(cells.subrange(0, cube(n as int)) =~= cells);
        }
        r
    }
}

} // verus!
