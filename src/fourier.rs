//! Discrete Fourier conventions on a periodic cubic lattice.
//!
//! The sample-frequency ordering used by every wavenumber grid, and the
//! separable structure of a three-dimensional transform: a one-dimensional
//! transform applied to every line of the cube along each axis in turn.
use vstd::prelude::*;
use crate::lattice::{cube, flat, valid_side, flat_index, lemma_flat_bounds, lemma_flat_injective, lemma_unflatten};

verus! {

/// Numerator of the `i`-th sample frequency of `n` samples: the frequency is
/// this numerator divided by `n`. The first `ceil(n / 2)` are `0, 1, 2, ...`,
/// the rest the negative frequencies rising towards `-1`.
pub open spec fn freq_numerator(i: int, n: int) -> int {
    if i < (n + 1) / 2 {
        i
    } else {
        i - n
    }
}

/// Sample-frequency numerators of `n` samples: entry `i` is `freq_numerator(i, n)`,
/// so the frequency in cycles per sample is that numerator over `n`.
pub fn sample_freq(n: &usize) -> (r: Vec<i64>)
    requires
        *n <= i64::MAX,
    ensures
        r@.len() == *n,
        forall|i: int| 0 <= i < *n ==> #[trigger] r@[i] == freq_numerator(i, *n as int),
{
    let len = *n;
    let half = len / 2 + len % 2;
    let mut r: Vec<i64> = Vec::new();
    let mut i: usize = 0;
    while i < len
        invariant
            len == *n,
            len <= i64::MAX,
            half == (len + 1) / 2,
            i <= len,
            r@.len() == i,
            forall|j: int| 0 <= j < i ==> #[trigger] r@[j] == freq_numerator(j, len as int),
        decreases len - i,
    {
        if i < half {
            r.push(i as i64);
        } else {
            r.push(i as i64 - len as i64);
        }
        i = i + 1;
    }
    r
}

/// Row-major index of cell `t` of the line along `axis` whose coordinates on
/// the two other axes are `a` and `b`, in that order.
pub open spec fn line_cell(n: int, axis: int, a: int, b: int, t: int) -> int {
    if axis == 0 {
        flat(n, t, a, b)
    } else if axis == 1 {
        flat(n, a, t, b)
    } else {
        flat(n, a, b, t)
    }
}

/// The line of grid `g` along `axis` through `(a, b)` on the other two axes.
pub open spec fn line<T>(g: Seq<T>, n: int, axis: int, a: int, b: int) -> Seq<T> {
    Seq::new(n as nat, |t: int| g[line_cell(n, axis, a, b, t)])
}

/// `f` may turn line `l` into line `o`.
pub open spec fn maps_line<T, F: Fn(Vec<T>) -> Vec<T>>(f: F, l: Seq<T>, o: Seq<T>) -> bool {
    exists|lv: Vec<T>, ov: Vec<T>| lv@ == l && ov@ == o && #[trigger] f.ensures((lv,), ov)
}

/// `f` accepts every line of length `n` and returns a line of the same length.
pub open spec fn line_transform<T, F: Fn(Vec<T>) -> Vec<T>>(f: F, n: int) -> bool {
    &&& forall|l: Vec<T>| l@.len() == n ==> #[trigger] f.requires((l,))
    &&& forall|l: Vec<T>, o: Vec<T>| #[trigger] f.ensures((l,), o) ==> o@.len() == l@.len()
}

/// `y` is grid `x` of side `n` with every line along `axis` transformed by `f`.
pub open spec fn axis_pass<T, F: Fn(Vec<T>) -> Vec<T>>(
    f: F,
    x: Seq<T>,
    y: Seq<T>,
    n: int,
    axis: int,
) -> bool {
    &&& x.len() == cube(n)
    &&& y.len() == cube(n)
    &&& forall|a: int, b: int|
        0 <= a < n && 0 <= b < n ==> #[trigger] maps_line(
            f,
            line(x, n, axis, a, b),
            line(y, n, axis, a, b),
        )
}

/// `y` is `x` transformed by `f` along axis 2, then axis 1, then axis 0.
pub open spec fn forward_pass<T, F: Fn(Vec<T>) -> Vec<T>>(f: F, x: Seq<T>, y: Seq<T>, n: int) -> bool {
    exists|u: Seq<T>, v: Seq<T>|
        #![trigger axis_pass(f, x, u, n, 2), axis_pass(f, v, y, n, 0)]
        axis_pass(f, x, u, n, 2) && axis_pass(f, u, v, n, 1) && axis_pass(f, v, y, n, 0)
}

/// `y` is `x` transformed by `g` along axis 0, then axis 1, then axis 2.
pub open spec fn inverse_pass<T, G: Fn(Vec<T>) -> Vec<T>>(g: G, x: Seq<T>, y: Seq<T>, n: int) -> bool {
    exists|u: Seq<T>, v: Seq<T>|
        #![trigger axis_pass(g, x, u, n, 0), axis_pass(g, v, y, n, 2)]
        axis_pass(g, x, u, n, 0) && axis_pass(g, u, v, n, 1) && axis_pass(g, v, y, n, 2)
}

/// Cells of a line lie in the grid.
pub proof fn lemma_line_cell_bounds(n: int, axis: int, a: int, b: int, t: int)
    requires
        0 <= a < n,
        0 <= b < n,
        0 <= t < n,
    ensures
        0 <= line_cell(n, axis, a, b, t) < cube(n),
{
    if axis == 0 {
        lemma_flat_bounds(n, t, a, b);
    } else if axis == 1 {
        lemma_flat_bounds(n, a, t, b);
    } else {
        lemma_flat_bounds(n, a, b, t);
    }
}

/// Distinct lines along one axis share no cell.
pub proof fn lemma_line_cell_injective(
    n: int,
    axis: int,
    a: int,
    b: int,
    t: int,
    a2: int,
    b2: int,
    t2: int,
)
    requires
        0 <= a < n,
        0 <= b < n,
        0 <= t < n,
        0 <= a2 < n,
        0 <= b2 < n,
        0 <= t2 < n,
        line_cell(n, axis, a, b, t) == line_cell(n, axis, a2, b2, t2),
    ensures
        a == a2,
        b == b2,
        t == t2,
{
    if axis == 0 {
        lemma_flat_injective(n, t, a, b, t2, a2, b2);
    } else if axis == 1 {
        lemma_flat_injective(n, a, t, b, a2, t2, b2);
    } else {
        lemma_flat_injective(n, a, b, t, a2, b2, t2);
    }
}

/// Every cell lies on a line along each axis.
pub proof fn lemma_cell_on_line(n: int, axis: int, idx: int) -> (r: (int, int, int))
    requires
        0 < n,
        0 <= idx < cube(n),
    ensures
        0 <= r.0 < n,
        0 <= r.1 < n,
        0 <= r.2 < n,
        line_cell(n, axis, r.0, r.1, r.2) == idx,
{
    lemma_unflatten(n, idx);
    let i = idx / (n * n);
    let j = (idx / n) % n;
    let k = idx % n;
    if axis == 0 {
        (j, k, i)
    } else if axis == 1 {
        (i, k, j)
    } else {
        (i, j, k)
    }
}

/// Row-major index of cell `t` of the line along `axis` through `(a, b)`.
fn line_index(n: usize, axis: usize, a: usize, b: usize, t: usize) -> (r: usize)
    requires
        valid_side(n as int),
        a < n,
        b < n,
        t < n,
    ensures
        r == line_cell(n as int, axis as int, a as int, b as int, t as int),
        r < cube(n as int),
{
    if axis == 0 {
        flat_index(n, t, a, b)
    } else if axis == 1 {
        flat_index(n, a, t, b)
    } else {
        flat_index(n, a, b, t)
    }
}

/// Grid `x` of side `n` with every line along `axis` replaced by what `f`
/// returns for it.
pub fn transform_axis<T: Copy, F: Fn(Vec<T>) -> Vec<T>>(
    x: &Vec<T>,
    n: usize,
    axis: usize,
    f: &F,
) -> (r: Vec<T>)
    requires
        valid_side(n as int),
        x@.len() == cube(n as int),
        line_transform(*f, n as int),
    ensures
        axis_pass(*f, x@, r@, n as int, axis as int),
{
    let mut r: Vec<T> = x.clone();
    let mut a: usize = 0;
    while a < n
        invariant
            valid_side(n as int),
            x@.len() == cube(n as int),
            line_transform(*f, n as int),
            r@.len() == cube(n as int),
            a <= n,
            forall|a2: int, b2: int|
                0 <= a2 < a && 0 <= b2 < n ==> #[trigger] maps_line(
                    *f,
                    line(x@, n as int, axis as int, a2, b2),
                    line(r@, n as int, axis as int, a2, b2),
                ),
        decreases n - a,
    {
        let mut b: usize = 0;
        while b < n
            invariant
                valid_side(n as int),
                x@.len() == cube(n as int),
                line_transform(*f, n as int),
                r@.len() == cube(n as int),
                a < n,
                b <= n,
                forall|a2: int, b2: int|
                    (0 <= a2 < a && 0 <= b2 < n) || (a2 == a && 0 <= b2 < b) ==> #[trigger] maps_line(
                        *f,
                        line(x@, n as int, axis as int, a2, b2),
                        line(r@, n as int, axis as int, a2, b2),
                    ),
            decreases n - b,
        {
            let mut lv: Vec<T> = Vec::new();
            let mut t: usize = 0;
            while t < n
                invariant
                    valid_side(n as int),
                    x@.len() == cube(n as int),
                    a < n,
                    b < n,
                    t <= n,
                    lv@.len() == t,
                    forall|t2: int|
                        0 <= t2 < t ==> #[trigger] lv@[t2] == x@[line_cell(
                            n as int,
                            axis as int,
                            a as int,
                            b as int,
                            t2,
                        )],
                decreases n - t,
            {
                let idx = line_index(n, axis, a, b, t);
                lv.push(x[idx]);
                t = t + 1;
            }
            assert(lv@ =~= line(x@, n as int, axis as int, a as int, b as int));
            let ghost lg = lv;
            let ov = f(lv);
            assert(f.ensures((lg,), ov));
            assert(ov@.len() == n);
            let ghost before = r@;
            let mut t: usize = 0;
            while t < n
                invariant
                    valid_side(n as int),
                    r@.len() == cube(n as int),
                    before.len() == cube(n as int),
                    ov@.len() == n,
                    a < n,
                    b < n,
                    t <= n,
                    forall|t2: int|
                        0 <= t2 < t ==> r@[line_cell(n as int, axis as int, a as int, b as int, t2)]
                            == #[trigger] ov@[t2],
                    forall|a2: int, b2: int, t2: int|
                        0 <= a2 < n && 0 <= b2 < n && 0 <= t2 < n && !(a2 == a && b2 == b) ==> r@[
                        #[trigger] line_cell(n as int, axis as int, a2, b2, t2)] == before[line_cell(
                            n as int,
                            axis as int,
                            a2,
                            b2,
                            t2,
                        )],
                    forall|t2: int|
                        t <= t2 < n ==> r@[#[trigger] line_cell(
                            n as int,
                            axis as int,
                            a as int,
                            b as int,
                            t2,
                        )] == before[line_cell(n as int, axis as int, a as int, b as int, t2)],
                decreases n - t,
            {
                let idx = line_index(n, axis, a, b, t);
                let ghost prev = r@;
                r.set(idx, ov[t]);
                proof {
                    assert forall|a2: int, b2: int, t2: int|
                        0 <= a2 < n && 0 <= b2 < n && 0 <= t2 < n && !(a2 == a && b2 == b) implies r@[
                        #[trigger] line_cell(n as int, axis as int, a2, b2, t2)] == before[line_cell(
                            n as int,
                            axis as int,
                            a2,
                            b2,
                            t2,
                        )] by {
                        lemma_line_cell_bounds(n as int, axis as int, a2, b2, t2);
                        if line_cell(n as int, axis as int, a2, b2, t2) == idx {
                            lemma_line_cell_injective(
                                n as int,
                                axis as int,
                                a2,
                                b2,
                                t2,
                                a as int,
                                b as int,
                                t as int,
                            );
                        }
                    }
                    assert forall|t2: int| t + 1 <= t2 < n implies r@[#[trigger] line_cell(
                        n as int,
                        axis as int,
                        a as int,
                        b as int,
                        t2,
                    )] == before[line_cell(n as int, axis as int, a as int, b as int, t2)] by {
                        lemma_line_cell_bounds(n as int, axis as int, a as int, b as int, t2);
                        if line_cell(n as int, axis as int, a as int, b as int, t2) == idx {
                            lemma_line_cell_injective(
                                n as int,
                                axis as int,
                                a as int,
                                b as int,
                                t2,
                                a as int,
                                b as int,
                                t as int,
                            );
                        }
                    }
                    assert forall|t2: int| 0 <= t2 < t + 1 implies r@[line_cell(
                        n as int,
                        axis as int,
                        a as int,
                        b as int,
                        t2,
                    )] == #[trigger] ov@[t2] by {
                        lemma_line_cell_bounds(n as int, axis as int, a as int, b as int, t2);
                        if t2 < t && line_cell(n as int, axis as int, a as int, b as int, t2) == idx {
                            lemma_line_cell_injective(
                                n as int,
                                axis as int,
                                a as int,
                                b as int,
                                t2,
                                a as int,
                                b as int,
                                t as int,
                            );
                        }
                    }
                }
                t = t + 1;
            }
            proof {
                assert(line(r@, n as int, axis as int, a as int, b as int) =~= ov@);
                assert(maps_line(
                    *f,
                    line(x@, n as int, axis as int, a as int, b as int),
                    line(r@, n as int, axis as int, a as int, b as int),
                ));
                assert forall|a2: int, b2: int|
                    (0 <= a2 < a && 0 <= b2 < n) || (a2 == a && 0 <= b2 < b + 1) implies #[trigger] maps_line(
                    *f,
                    line(x@, n as int, axis as int, a2, b2),
                    line(r@, n as int, axis as int, a2, b2),
                ) by {
                    if !(a2 == a && b2 == b) {
                        assert(maps_line(
                            *f,
                            line(x@, n as int, axis as int, a2, b2),
                            line(before, n as int, axis as int, a2, b2),
                        ));
                        assert(line(r@, n as int, axis as int, a2, b2) =~= line(
                            before,
                            n as int,
                            axis as int,
                            a2,
                            b2,
                        ));
                    }
                }
            }
            b = b + 1;
        }
        a = a + 1;
    }
    r
}

/// Grid `a` of side `n` transformed by `f` along axis 2, then 1, then 0.
pub fn forward<T: Copy, F: Fn(Vec<T>) -> Vec<T>>(a: &Vec<T>, n: usize, f: &F) -> (r: Vec<T>)
    requires
        valid_side(n as int),
        a@.len() == cube(n as int),
        line_transform(*f, n as int),
    ensures
        forward_pass(*f, a@, r@, n as int),
{
    let u = transform_axis(a, n, 2, f);
    let v = transform_axis(&u, n, 1, f);
    let r = transform_axis(&v, n, 0, f);
    assert(axis_pass(*f, a@, u@, n as int, 2) && axis_pass(*f, v@, r@, n as int, 0));
    r
}

/// Grid `a` of side `n` transformed by `g` along axis 0, then 1, then 2: the
/// axes of `forward` in reverse order.
pub fn inverse<T: Copy, G: Fn(Vec<T>) -> Vec<T>>(a: &Vec<T>, n: usize, g: &G) -> (r: Vec<T>)
    requires
        valid_side(n as int),
        a@.len() == cube(n as int),
        line_transform(*g, n as int),
    ensures
        inverse_pass(*g, a@, r@, n as int),
{
    let u = transform_axis(a, n, 0, g);
    let v = transform_axis(&u, n, 1, g);
    let r = transform_axis(&v, n, 2, g);
    assert(axis_pass(*g, a@, u@, n as int, 0) && axis_pass(*g, v@, r@, n as int, 2));
    r
}

/// `g` turns back into `l` every line of length `n` that `f` turned `l` into.
pub open spec fn undoes<T, F: Fn(Vec<T>) -> Vec<T>, G: Fn(Vec<T>) -> Vec<T>>(
    f: F,
    g: G,
    n: int,
) -> bool {
    forall|l: Seq<T>, m: Seq<T>, o: Seq<T>|
        #![trigger maps_line(f, l, m), maps_line(g, m, o)]
        l.len() == n && maps_line(f, l, m) && maps_line(g, m, o) ==> o == l
}

/// Along one axis, a pass of `g` undoes a pass of `f` when `g` undoes `f` on
/// every line.
pub proof fn lemma_axis_round_trip<T, F: Fn(Vec<T>) -> Vec<T>, G: Fn(Vec<T>) -> Vec<T>>(
    f: F,
    g: G,
    x: Seq<T>,
    y: Seq<T>,
    z: Seq<T>,
    n: int,
    axis: int,
)
    requires
        0 < n,
        undoes(f, g, n),
        axis_pass(f, x, y, n, axis),
        axis_pass(g, y, z, n, axis),
    ensures
        z == x,
{
    assert forall|c: int| 0 <= c < cube(n) implies z[c] == x[c] by {
        let (a, b, t) = lemma_cell_on_line(n, axis, c);
        assert(maps_line(f, line(x, n, axis, a, b), line(y, n, axis, a, b)));
        assert(maps_line(g, line(y, n, axis, a, b), line(z, n, axis, a, b)));
        assert(line(z, n, axis, a, b)[t] == z[c]);
        assert(line(x, n, axis, a, b)[t] == x[c]);
    }
    assert(z =~= x);
}

/// Round trip: when the line transform `g` undoes `f` on every line, the
/// inverse transform by `g` of the forward transform by `f` of a grid is that
/// grid again.
pub proof fn lemma_round_trip<T, F: Fn(Vec<T>) -> Vec<T>, G: Fn(Vec<T>) -> Vec<T>>(
    f: F,
    g: G,
    x: Seq<T>,
    y: Seq<T>,
    z: Seq<T>,
    n: int,
)
    requires
        0 < n,
        undoes(f, g, n),
        forward_pass(f, x, y, n),
        inverse_pass(g, y, z, n),
    ensures
        z == x,
{
    let (u, v) = choose|u: Seq<T>, v: Seq<T>|
        #![trigger axis_pass(f, x, u, n, 2), axis_pass(f, v, y, n, 0)]
        axis_pass(f, x, u, n, 2) && axis_pass(f, u, v, n, 1) && axis_pass(f, v, y, n, 0);
    let (p, q) = choose|p: Seq<T>, q: Seq<T>|
        #![trigger axis_pass(g, y, p, n, 0), axis_pass(g, q, z, n, 2)]
        axis_pass(g, y, p, n, 0) && axis_pass(g, p, q, n, 1) && axis_pass(g, q, z, n, 2);
    lemma_axis_round_trip(f, g, v, y, p, n, 0);
    lemma_axis_round_trip(f, g, u, v, q, n, 1);
    lemma_axis_round_trip(f, g, x, u, z, n, 2);
}

/// Whether mode `idx` (a row-major index) of a grid of side `n` is left out of
/// a power-law spectrum: the zero mode when `drop_zero`, and, when
/// `drop_nyquist`, the mode at the Nyquist frequency on all three axes, which
/// only a grid of even side has.
pub open spec fn suppressed(idx: int, n: int, drop_zero: bool, drop_nyquist: bool) -> bool {
    ||| drop_zero && idx == 0
    ||| drop_nyquist && n % 2 == 0 && idx == flat(n, n / 2, n / 2, n / 2)
}

/// Whether mode `idx` of a grid of side `n` is left out of a power-law
/// spectrum; see `suppressed`.
pub fn is_suppressed_mode(idx: usize, n: usize, drop_zero: bool, drop_nyquist: bool) -> (r: bool)
    requires
        valid_side(n as int),
    ensures
        r == suppressed(idx as int, n as int, drop_zero, drop_nyquist),
{
    if drop_zero && idx == 0 {
        return true;
    }
    if drop_nyquist && n % 2 == 0 {
        let h = n / 2;
        idx == flat_index(n, h, h, h)
    } else {
        false
    }
}

} // verus!
