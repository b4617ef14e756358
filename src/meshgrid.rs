//! Coordinate meshes: fields that broadcast one-dimensional coordinate
//! arrays over a rectangular grid.
//!
//! In a three-dimensional mesh built from `xs`, `ys` and `zs`, the `x` field
//! holds `xs[i]` at cell `(i, j, k)`, the `y` field `ys[j]` and the `z` field
//! `zs[k]`. Fields are stored in row-major order, `k` varying fastest. An
//! elementwise map, or an elementwise combination of two meshes of the same
//! shape, acts on each axis array, since every field depends on one axis only.
use vstd::prelude::*;

verus! {

/// Row-major index of cell `(i, j, k)` of a field of shape `(_, ny, nz)`.
pub open spec fn mesh_index(ny: int, nz: int, i: int, j: int, k: int) -> int {
    (i * ny + j) * nz + k
}

/// Index `q` of a field of shape `(nx, ny, nz)` addresses cell
/// `(q / (ny * nz), (q / nz) % ny, q % nz)`, and no other.
pub proof fn lemma_mesh_index(nx: int, ny: int, nz: int, q: int)
    requires
        0 < ny,
        0 < nz,
        0 <= q < nx * ny * nz,
    ensures
        0 <= q / (ny * nz) < nx,
        0 <= (q / nz) % ny < ny,
        0 <= q % nz < nz,
        mesh_index(ny, nz, q / (ny * nz), (q / nz) % ny, q % nz) == q,
{
    let m = q / nz;
    let k = q % nz;
    let j = m % ny;
    let i = m / ny;
    assert(0 <= m < nx * ny) by (nonlinear_arith)
        requires
            0 <= q < nx * ny * nz,
            m == q / nz,
            0 < nz,
    ;
    assert(0 <= i < nx) by (nonlinear_arith)
        requires
            0 <= m < nx * ny,
            i == m / ny,
            0 < ny,
    ;
    assert(q == m * nz + k) by (nonlinear_arith)
        requires
            m == q / nz,
            k == q % nz,
            0 < nz,
    ;
    assert(m == i * ny + j) by (nonlinear_arith)
        requires
            i == m / ny,
            j == m % ny,
            0 < ny,
    ;
    assert(q / (ny * nz) == i) by (nonlinear_arith)
        requires
            q == (i * ny + j) * nz + k,
            0 <= i,
            0 <= j < ny,
            0 <= k < nz,
    ;
}

/// Cell `(i, j, k)` of a field of shape `(nx, ny, nz)` has an index in
/// `0 .. nx * ny * nz` from which its coordinates are read back.
pub proof fn lemma_mesh_cell(nx: int, ny: int, nz: int, i: int, j: int, k: int)
    requires
        0 <= i < nx,
        0 <= j < ny,
        0 <= k < nz,
    ensures
        0 <= mesh_index(ny, nz, i, j, k) < nx * ny * nz,
        mesh_index(ny, nz, i, j, k) / (ny * nz) == i,
        (mesh_index(ny, nz, i, j, k) / nz) % ny == j,
        mesh_index(ny, nz, i, j, k) % nz == k,
{
    let q = mesh_index(ny, nz, i, j, k);
    let m = i * ny + j;
    assert(0 <= m < nx * ny) by (nonlinear_arith)
        requires
            0 <= i < nx,
            0 <= j < ny,
            m == i * ny + j,
    ;
    assert(0 <= q < nx * ny * nz) by (nonlinear_arith)
        requires
            0 <= m < nx * ny,
            0 <= k < nz,
            q == m * nz + k,
    ;
    assert(q / nz == m && q % nz == k) by (nonlinear_arith)
        requires
            q == m * nz + k,
            0 <= m,
            0 <= k < nz,
    ;
    assert(m / ny == i && m % ny == j) by (nonlinear_arith)
        requires
            m == i * ny + j,
            0 <= i,
            0 <= j < ny,
    ;
    assert(q / (ny * nz) == i) by (nonlinear_arith)
        requires
            q == (i * ny + j) * nz + k,
            0 <= i,
            0 <= j < ny,
            0 <= k < nz,
    ;
}

/// A copy of `v`, element by element.
fn copy_of<T: Copy>(v: &Vec<T>) -> (r: Vec<T>)
    ensures
        r@ == v@,
{
    let mut r: Vec<T> = Vec::new();
    let mut i: usize = 0;
    while i < v.len()
        invariant
            i <= v@.len(),
            r@ == v@.subrange(0, i as int),
        decreases v@.len() - i,
    {
        r.push(v[i]);
        i = i + 1;
        assert(r@ =~= v@.subrange(0, i as int));
    }
    assert(v@.subrange(0, v@.len() as int) =~= v@);
    r
}

/// `f` applied to each element of `v`.
fn map_vec<T: Copy, U, F: Fn(T) -> U>(v: &Vec<T>, f: &F) -> (r: Vec<U>)
    requires
        forall|t: T| #[trigger] f.requires((t,)),
    ensures
        r@.len() == v@.len(),
        forall|i: int| 0 <= i < v@.len() ==> f.ensures((v@[i],), #[trigger] r@[i]),
{
    let mut r: Vec<U> = Vec::new();
    let mut i: usize = 0;
    while i < v.len()
        invariant
            forall|t: T| #[trigger] f.requires((t,)),
            i <= v@.len(),
            r@.len() == i,
            forall|j: int| 0 <= j < i ==> f.ensures((v@[j],), #[trigger] r@[j]),
        decreases v@.len() - i,
    {
        r.push(f(v[i]));
        i = i + 1;
    }
    r
}

/// `f` applied to the elements of `v` and `w` at the same index.
fn zip_vec<T: Copy, U: Copy, V, F: Fn(T, U) -> V>(v: &Vec<T>, w: &Vec<U>, f: &F) -> (r: Vec<V>)
    requires
        v@.len() == w@.len(),
        forall|t: T, u: U| #[trigger] f.requires((t, u)),
    ensures
        r@.len() == v@.len(),
        forall|i: int| 0 <= i < v@.len() ==> f.ensures((v@[i], w@[i]), #[trigger] r@[i]),
{
    let mut r: Vec<V> = Vec::new();
    let mut i: usize = 0;
    while i < v.len()
        invariant
            v@.len() == w@.len(),
            forall|t: T, u: U| #[trigger] f.requires((t, u)),
            i <= v@.len(),
            r@.len() == i,
            forall|j: int| 0 <= j < i ==> f.ensures((v@[j], w@[j]), #[trigger] r@[j]),
        decreases v@.len() - i,
    {
        r.push(f(v[i], w[i]));
        i = i + 1;
    }
    r
}

/// A three-dimensional coordinate mesh, held as its three axis arrays.
#[derive(Debug)]
pub struct Meshgrid3<T> {
    xs: Vec<T>,
    ys: Vec<T>,
    zs: Vec<T>,
}

impl<T> View for Meshgrid3<T> {
    type V = (Seq<T>, Seq<T>, Seq<T>);

    closed spec fn view(&self) -> (Seq<T>, Seq<T>, Seq<T>) {
        (self.xs@, self.ys@, self.zs@)
    }
}

/// Number of cells of a mesh with these axes.
pub open spec fn mesh_len<T>(m: (Seq<T>, Seq<T>, Seq<T>)) -> int {
    (m.0.len() * m.1.len() * m.2.len()) as int
}

impl<T: Copy> Meshgrid3<T> {
    /// The mesh over the axes `xs`, `ys` and `zs`.
    pub fn new(xs: &Vec<T>, ys: &Vec<T>, zs: &Vec<T>) -> (r: Meshgrid3<T>)
        ensures
            r@ == (xs@, ys@, zs@),
    {
        Meshgrid3 { xs: copy_of(xs), ys: copy_of(ys), zs: copy_of(zs) }
    }

    /// The field whose value at cell `(i, j, k)` is `f(xs[i], ys[j], zs[k])`.
    pub fn combine<U, F: Fn(T, T, T) -> U>(&self, f: &F) -> (r: Vec<U>)
        requires
            mesh_len(self@) <= usize::MAX,
            forall|a: T, b: T, c: T| #[trigger] f.requires((a, b, c)),
        ensures
            r@.len() == mesh_len(self@),
            forall|i: int, j: int, k: int|
                0 <= i < self@.0.len() && 0 <= j < self@.1.len() && 0 <= k < self@.2.len()
                    ==> f.ensures(
                    (self@.0[i], self@.1[j], self@.2[k]),
                    #[trigger] r@[mesh_index(self@.1.len() as int, self@.2.len() as int, i, j, k)],
                ),
    {
        let nx = self.xs.len();
        let ny = self.ys.len();
        let nz = self.zs.len();
        let ghost (gx, gy, gz) = (nx as int, ny as int, nz as int);
        let mut r: Vec<U> = Vec::new();
        if nx == 0 || ny == 0 || nz == 0 {
            assert(gx * gy * gz == 0) by (nonlinear_arith)
                requires
                    gx == 0 || gy == 0 || gz == 0,
            ;
            return r;
        }
        assert(gy * gz <= gx * gy * gz) by (nonlinear_arith)
            requires
                0 < gx,
                0 < gy,
                0 < gz,
        ;
        assert(gx * gy <= gx * gy * gz) by (nonlinear_arith)
            requires
                0 < gx,
                0 < gy,
                0 < gz,
        ;
        let len = nx * ny * nz;
        let plane = ny * nz;
        assert(plane > 0) by (nonlinear_arith)
            requires
                plane == gy * gz,
                0 < gy,
                0 < gz,
        ;
        let mut q: usize = 0;
        while q < len
            invariant
                nx == self.xs@.len(),
                ny == self.ys@.len(),
                nz == self.zs@.len(),
                0 < ny,
                0 < nz,
                len == nx * ny * nz,
                gy * gz <= len,
                plane == ny * nz,
                plane > 0,
                q <= len,
                r@.len() == q,
                forall|a: T, b: T, c: T| #[trigger] f.requires((a, b, c)),
                forall|p: int|
                    0 <= p < q ==> f.ensures(
                        (
                            self.xs@[p / (ny * nz) as int],
                            self.ys@[(p / nz as int) % (ny as int)],
                            self.zs@[p % (nz as int)],
                        ),
                        #[trigger] r@[p],
                    ),
            decreases len - q,
        {
            proof {
                lemma_mesh_index(nx as int, ny as int, nz as int, q as int);
            }
            let i = q / plane;
            let j = (q / nz) % ny;
            let k = q % nz;
            r.push(f(self.xs[i], self.ys[j], self.zs[k]));
            q = q + 1;
        }
        proof {
            assert forall|i: int, j: int, k: int|
                0 <= i < nx && 0 <= j < ny && 0 <= k < nz implies f.ensures(
                (self@.0[i], self@.1[j], self@.2[k]),
                #[trigger] r@[mesh_index(ny as int, nz as int, i, j, k)],
            ) by {
                lemma_mesh_cell(nx as int, ny as int, nz as int, i, j, k);
            }
        }
        r
    }

    /// The `x` field: `xs[i]` at cell `(i, j, k)`.
    pub fn x(&self) -> (r: Vec<T>)
        requires
            mesh_len(self@) <= usize::MAX,
        ensures
            r@.len() == mesh_len(self@),
            forall|i: int, j: int, k: int|
                0 <= i < self@.0.len() && 0 <= j < self@.1.len() && 0 <= k < self@.2.len()
                    ==> #[trigger] r@[mesh_index(self@.1.len() as int, self@.2.len() as int, i, j, k)]
                    == self@.0[i],
    {
        let pick = |a: T, b: T, c: T| -> (r: T)
            ensures
                r == a,
            { a };
        self.combine(&pick)
    }

    /// The `y` field: `ys[j]` at cell `(i, j, k)`.
    pub fn y(&self) -> (r: Vec<T>)
        requires
            mesh_len(self@) <= usize::MAX,
        ensures
            r@.len() == mesh_len(self@),
            forall|i: int, j: int, k: int|
                0 <= i < self@.0.len() && 0 <= j < self@.1.len() && 0 <= k < self@.2.len()
                    ==> #[trigger] r@[mesh_index(self@.1.len() as int, self@.2.len() as int, i, j, k)]
                    == self@.1[j],
    {
        let pick = |a: T, b: T, c: T| -> (r: T)
            ensures
                r == b,
            { b };
        self.combine(&pick)
    }

    /// The `z` field: `zs[k]` at cell `(i, j, k)`.
    pub fn z(&self) -> (r: Vec<T>)
        requires
            mesh_len(self@) <= usize::MAX,
        ensures
            r@.len() == mesh_len(self@),
            forall|i: int, j: int, k: int|
                0 <= i < self@.0.len() && 0 <= j < self@.1.len() && 0 <= k < self@.2.len()
                    ==> #[trigger] r@[mesh_index(self@.1.len() as int, self@.2.len() as int, i, j, k)]
                    == self@.2[k],
    {
        let pick = |a: T, b: T, c: T| -> (r: T)
            ensures
                r == c,
            { c };
        self.combine(&pick)
    }

    /// The three fields `x`, `y` and `z`.
    pub fn get(&self) -> (r: (Vec<T>, Vec<T>, Vec<T>))
        requires
            mesh_len(self@) <= usize::MAX,
        ensures
            r.0@.len() == mesh_len(self@),
            r.1@.len() == mesh_len(self@),
            r.2@.len() == mesh_len(self@),
            forall|i: int, j: int, k: int|
                0 <= i < self@.0.len() && 0 <= j < self@.1.len() && 0 <= k < self@.2.len()
                    ==> #[trigger] r.0@[mesh_index(self@.1.len() as int, self@.2.len() as int, i, j, k)]
                    == self@.0[i],
            forall|i: int, j: int, k: int|
                0 <= i < self@.0.len() && 0 <= j < self@.1.len() && 0 <= k < self@.2.len()
                    ==> #[trigger] r.1@[mesh_index(self@.1.len() as int, self@.2.len() as int, i, j, k)]
                    == self@.1[j],
            forall|i: int, j: int, k: int|
                0 <= i < self@.0.len() && 0 <= j < self@.1.len() && 0 <= k < self@.2.len()
                    ==> #[trigger] r.2@[mesh_index(self@.1.len() as int, self@.2.len() as int, i, j, k)]
                    == self@.2[k],
    {
        (self.x(), self.y(), self.z())
    }

    /// The mesh whose axis arrays are those of this one with `f` applied to
    /// each element, so that each field holds `f` of this mesh's field.
    pub fn map<U: Copy, F: Fn(T) -> U>(&self, f: &F) -> (r: Meshgrid3<U>)
        requires
            forall|t: T| #[trigger] f.requires((t,)),
        ensures
            r@.0.len() == self@.0.len(),
            r@.1.len() == self@.1.len(),
            r@.2.len() == self@.2.len(),
            forall|i: int| 0 <= i < self@.0.len() ==> f.ensures((self@.0[i],), #[trigger] r@.0[i]),
            forall|i: int| 0 <= i < self@.1.len() ==> f.ensures((self@.1[i],), #[trigger] r@.1[i]),
            forall|i: int| 0 <= i < self@.2.len() ==> f.ensures((self@.2[i],), #[trigger] r@.2[i]),
    {
        Meshgrid3 { xs: map_vec(&self.xs, f), ys: map_vec(&self.ys, f), zs: map_vec(&self.zs, f) }
    }

    /// The mesh that combines this one and `other`, of the same shape, cell
    /// by cell with `f`.
    pub fn zip_with<U: Copy, V: Copy, F: Fn(T, U) -> V>(
        &self,
        other: &Meshgrid3<U>,
        f: &F,
    ) -> (r: Meshgrid3<V>)
        requires
            self@.0.len() == other@.0.len(),
            self@.1.len() == other@.1.len(),
            self@.2.len() == other@.2.len(),
            forall|t: T, u: U| #[trigger] f.requires((t, u)),
        ensures
            r@.0.len() == self@.0.len(),
            r@.1.len() == self@.1.len(),
            r@.2.len() == self@.2.len(),
            forall|i: int|
                0 <= i < self@.0.len() ==> f.ensures((self@.0[i], other@.0[i]), #[trigger] r@.0[i]),
            forall|i: int|
                0 <= i < self@.1.len() ==> f.ensures((self@.1[i], other@.1[i]), #[trigger] r@.1[i]),
            forall|i: int|
                0 <= i < self@.2.len() ==> f.ensures((self@.2[i], other@.2[i]), #[trigger] r@.2[i]),
    {
        Meshgrid3 {
            xs: zip_vec(&self.xs, &other.xs, f),
            ys: zip_vec(&self.ys, &other.ys, f),
            zs: zip_vec(&self.zs, &other.zs, f),
        }
    }
}

/// Row-major index of cell `(i, j)` of a field of shape `(_, ny)`.
pub open spec fn mesh2_index(ny: int, i: int, j: int) -> int {
    i * ny + j
}

/// Cell `(i, j)` of a field of shape `(nx, ny)` has an index in `0 .. nx * ny`
/// from which its coordinates are read back.
pub proof fn lemma_mesh2_cell(nx: int, ny: int, i: int, j: int)
    requires
        0 <= i < nx,
        0 <= j < ny,
    ensures
        0 <= mesh2_index(ny, i, j) < nx * ny,
        mesh2_index(ny, i, j) / ny == i,
        mesh2_index(ny, i, j) % ny == j,
{
    assert(0 <= i * ny + j < nx * ny) by (nonlinear_arith)
        requires
            0 <= i < nx,
            0 <= j < ny,
    ;
    assert((i * ny + j) / ny == i && (i * ny + j) % ny == j) by (nonlinear_arith)
        requires
            0 <= i,
            0 <= j < ny,
    ;
}

/// A two-dimensional coordinate mesh, held as its two axis arrays: the `x`
/// field holds `xs[i]` at cell `(i, j)` and the `y` field `ys[j]`.
#[derive(Debug)]
pub struct Meshgrid2<T> {
    xs: Vec<T>,
    ys: Vec<T>,
}

impl<T> View for Meshgrid2<T> {
    type V = (Seq<T>, Seq<T>);

    closed spec fn view(&self) -> (Seq<T>, Seq<T>) {
        (self.xs@, self.ys@)
    }
}

impl<T: Copy> Meshgrid2<T> {
    /// The mesh over the axes `xs` and `ys`.
    pub fn new(xs: &Vec<T>, ys: &Vec<T>) -> (r: Meshgrid2<T>)
        ensures
            r@ == (xs@, ys@),
    {
        Meshgrid2 { xs: copy_of(xs), ys: copy_of(ys) }
    }

    /// The field whose value at cell `(i, j)` is `f(xs[i], ys[j])`.
    pub fn combine<U, F: Fn(T, T) -> U>(&self, f: &F) -> (r: Vec<U>)
        requires
            self@.0.len() * self@.1.len() <= usize::MAX,
            forall|a: T, b: T| #[trigger] f.requires((a, b)),
        ensures
            r@.len() == self@.0.len() * self@.1.len(),
            forall|i: int, j: int|
                0 <= i < self@.0.len() && 0 <= j < self@.1.len() ==> f.ensures(
                    (self@.0[i], self@.1[j]),
                    #[trigger] r@[mesh2_index(self@.1.len() as int, i, j)],
                ),
    {
        let nx = self.xs.len();
        let ny = self.ys.len();
        let mut r: Vec<U> = Vec::new();
        let mut i: usize = 0;
        while i < nx
            invariant
                nx == self.xs@.len(),
                ny == self.ys@.len(),
                nx * ny <= usize::MAX,
                i <= nx,
                r@.len() == i * ny,
                forall|a: T, b: T| #[trigger] f.requires((a, b)),
                forall|i2: int, j2: int|
                    0 <= i2 < i && 0 <= j2 < ny ==> f.ensures(
                        (self.xs@[i2], self.ys@[j2]),
                        #[trigger] r@[mesh2_index(ny as int, i2, j2)],
                    ),
            decreases nx - i,
        {
            let mut j: usize = 0;
            while j < ny
                invariant
                    nx == self.xs@.len(),
                    ny == self.ys@.len(),
                    nx * ny <= usize::MAX,
                    i < nx,
                    j <= ny,
                    r@.len() == i * ny + j,
                    forall|a: T, b: T| #[trigger] f.requires((a, b)),
                    forall|i2: int, j2: int|
                        (0 <= i2 < i && 0 <= j2 < ny) || (i2 == i && 0 <= j2 < j) ==> f.ensures(
                            (self.xs@[i2], self.ys@[j2]),
                            #[trigger] r@[mesh2_index(ny as int, i2, j2)],
                        ),
                decreases ny - j,
            {
                proof {
                    lemma_mesh2_cell(nx as int, ny as int, i as int, j as int);
                }
                let ghost before = r@;
                r.push(f(self.xs[i], self.ys[j]));
                proof {
                    assert forall|i2: int, j2: int|
                        (0 <= i2 < i && 0 <= j2 < ny) || (i2 == i && 0 <= j2 < j + 1) implies f.ensures(
                        (self.xs@[i2], self.ys@[j2]),
                        #[trigger] r@[mesh2_index(ny as int, i2, j2)],
                    ) by {
                        lemma_mesh2_cell(nx as int, ny as int, i2, j2);
                        if i2 < i {
                            assert(mesh2_index(ny as int, i2, j2) < i * ny) by (nonlinear_arith)
                                requires
                                    0 <= i2 < i,
                                    0 <= j2 < ny,
                            ;
                        }
                    }
                }
                j = j + 1;
            }
            proof {
                assert(i * ny + ny == (i + 1) * ny) by (nonlinear_arith);
            }
            i = i + 1;
        }
        proof {
            assert(i == nx);
        }
        r
    }

    /// The `x` field: `xs[i]` at cell `(i, j)`.
    pub fn x(&self) -> (r: Vec<T>)
        requires
            self@.0.len() * self@.1.len() <= usize::MAX,
        ensures
            r@.len() == self@.0.len() * self@.1.len(),
            forall|i: int, j: int|
                0 <= i < self@.0.len() && 0 <= j < self@.1.len() ==> #[trigger] r@[mesh2_index(
                    self@.1.len() as int,
                    i,
                    j,
                )] == self@.0[i],
    {
        let pick = |a: T, b: T| -> (r: T)
            ensures
                r == a,
            { a };
        self.combine(&pick)
    }

    /// The `y` field: `ys[j]` at cell `(i, j)`.
    pub fn y(&self) -> (r: Vec<T>)
        requires
            self@.0.len() * self@.1.len() <= usize::MAX,
        ensures
            r@.len() == self@.0.len() * self@.1.len(),
            forall|i: int, j: int|
                0 <= i < self@.0.len() && 0 <= j < self@.1.len() ==> #[trigger] r@[mesh2_index(
                    self@.1.len() as int,
                    i,
                    j,
                )] == self@.1[j],
    {
        let pick = |a: T, b: T| -> (r: T)
            ensures
                r == b,
            { b };
        self.combine(&pick)
    }

    /// The two fields `x` and `y`.
    pub fn get(&self) -> (r: (Vec<T>, Vec<T>))
        requires
            self@.0.len() * self@.1.len() <= usize::MAX,
        ensures
            r.0@.len() == self@.0.len() * self@.1.len(),
            r.1@.len() == self@.0.len() * self@.1.len(),
            forall|i: int, j: int|
                0 <= i < self@.0.len() && 0 <= j < self@.1.len() ==> #[trigger] r.0@[mesh2_index(
                    self@.1.len() as int,
                    i,
                    j,
                )] == self@.0[i],
            forall|i: int, j: int|
                0 <= i < self@.0.len() && 0 <= j < self@.1.len() ==> #[trigger] r.1@[mesh2_index(
                    self@.1.len() as int,
                    i,
                    j,
                )] == self@.1[j],
    {
        (self.x(), self.y())
    }

    /// The mesh with `f` applied to each element of both axis arrays.
    pub fn map<U: Copy, F: Fn(T) -> U>(&self, f: &F) -> (r: Meshgrid2<U>)
        requires
            forall|t: T| #[trigger] f.requires((t,)),
        ensures
            r@.0.len() == self@.0.len(),
            r@.1.len() == self@.1.len(),
            forall|i: int| 0 <= i < self@.0.len() ==> f.ensures((self@.0[i],), #[trigger] r@.0[i]),
            forall|i: int| 0 <= i < self@.1.len() ==> f.ensures((self@.1[i],), #[trigger] r@.1[i]),
    {
        Meshgrid2 { xs: map_vec(&self.xs, f), ys: map_vec(&self.ys, f) }
    }

    /// The mesh that combines this one and `other`, of the same shape, cell
    /// by cell with `f`.
    pub fn zip_with<U: Copy, V: Copy, F: Fn(T, U) -> V>(
        &self,
        other: &Meshgrid2<U>,
        f: &F,
    ) -> (r: Meshgrid2<V>)
        requires
            self@.0.len() == other@.0.len(),
            self@.1.len() == other@.1.len(),
            forall|t: T, u: U| #[trigger] f.requires((t, u)),
        ensures
            r@.0.len() == self@.0.len(),
            r@.1.len() == self@.1.len(),
            forall|i: int|
                0 <= i < self@.0.len() ==> f.ensures((self@.0[i], other@.0[i]), #[trigger] r@.0[i]),
            forall|i: int|
                0 <= i < self@.1.len() ==> f.ensures((self@.1[i], other@.1[i]), #[trigger] r@.1[i]),
    {
        Meshgrid2 { xs: zip_vec(&self.xs, &other.xs, f), ys: zip_vec(&self.ys, &other.ys, f) }
    }
}

} // verus!
