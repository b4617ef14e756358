use nbody::density::{cic_cells, cic_weights, density, MASS_UNITS};
use nbody::ic::lattice_positions;
use nbody::integrate::{advance, advance_axis, force_stencil, StencilTerm};
use nbody::lattice::{flat_index, CELL};

fn cells(x: f64) -> i64 {
    (x * CELL as f64).round() as i64
}

#[test]
fn weights_of_a_centred_particle() {
    let h = CELL / 2;
    let w = cic_weights(&[h, h, h]);
    assert_eq!(w, [MASS_UNITS as u64 / 8; 8]);
}

#[test]
fn weights_of_an_offset_particle() {
    // offsets 1/4, 1/2, 0 of a cell
    let w = cic_weights(&[CELL / 4, CELL / 2, 0]);
    let e = CELL as u64;
    assert_eq!(w[0], (3 * e / 4) * (e / 2) * e);
    assert_eq!(w[4], (e / 4) * (e / 2) * e);
    assert_eq!(w[1], 0);
    assert_eq!(w.iter().map(|v| *v as u128).sum::<u128>(), MASS_UNITS);
}

#[test]
fn cloud_cells_wrap() {
    let c = cic_cells(&[15 * CELL + 1, 0, 3 * CELL], 16);
    assert_eq!(c[0], flat_index(16, 15, 0, 3));
    assert_eq!(c[7], flat_index(16, 0, 1, 4));
}

#[test]
fn mass_conservation() {
    let ps = vec![
        [cells(0.3), cells(15.9), cells(7.25)],
        [cells(4.0), cells(4.0), cells(4.0)],
        [cells(15.5), cells(0.01), cells(9.99)],
    ];
    let g = density(&ps, 16).to_vec();
    assert_eq!(g.len(), 4096);
    assert_eq!(g.iter().sum::<u128>(), 3 * MASS_UNITS);
    assert_eq!(density(&vec![], 16).to_vec().iter().sum::<u128>(), 0);
}

#[test]
fn density_at_a_cell_corner() {
    let g = density(&vec![[cells(2.0), cells(3.0), cells(4.0)]], 8).to_vec();
    assert_eq!(g[flat_index(8, 2, 3, 4)], MASS_UNITS);
    let two = density(&vec![[0, 0, 0], [0, 0, 0]], 8).to_vec();
    assert_eq!(two[0], 2 * MASS_UNITS);
}

#[test]
fn periodicity() {
    let n: usize = 16;
    let box_len = n as i64 * CELL;
    let p = [cells(3.7), cells(12.2), cells(15.6)];
    let q = [p[0] + 2 * box_len, p[1] - box_len, p[2] - 3 * box_len];
    assert_eq!(density(&vec![p], n).to_vec(), density(&vec![q], n).to_vec());
}

#[test]
fn stencil_along_x() {
    let n: usize = 16;
    let s = force_stencil(&[cells(0.5), cells(2.0), cells(3.0)], n, 0);
    assert_eq!(s.len(), 8);
    assert_eq!(
        s[0],
        StencilTerm {
            weight: (MASS_UNITS / 2) as u64,
            plus: flat_index(n, 1, 2, 3),
            minus: flat_index(n, 15, 2, 3),
        }
    );
    assert_eq!(s[4].plus, flat_index(n, 2, 2, 3));
    assert_eq!(s[4].minus, flat_index(n, 0, 2, 3));
    assert_eq!(s[1].weight, 0);
}

#[test]
fn stencil_along_z() {
    let n: usize = 4;
    let s = force_stencil(&[0, 0, cells(3.5)], n, 2);
    assert_eq!(s[1].plus, flat_index(n, 0, 0, 1));
    assert_eq!(s[1].minus, flat_index(n, 0, 0, 3));
    assert_eq!(s[0].minus, flat_index(n, 0, 0, 2));
}

#[test]
fn advance_wraps() {
    let n: usize = 16;
    assert_eq!(advance(cells(15.5), cells(1.0), n), cells(0.5));
    assert_eq!(advance(cells(0.25), -cells(0.5), n), cells(15.75));
    assert_eq!(advance(cells(3.0), cells(2.0), n), cells(5.0));
}

#[test]
fn advance_one_axis() {
    let mut ps = vec![[cells(1.0), cells(2.0), cells(3.0)], [cells(15.0), 0, 0]];
    advance_axis(&mut ps, &vec![cells(0.5), cells(2.0)], 0, 16);
    assert_eq!(ps, vec![[cells(1.5), cells(2.0), cells(3.0)], [cells(1.0), 0, 0]]);
}

#[test]
fn particle_lattice() {
    let ps = lattice_positions(4, 16);
    assert_eq!(ps.len(), 64);
    assert_eq!(ps[0], [cells(0.5), cells(0.5), cells(0.5)]);
    // site (1, 2, 3)
    assert_eq!(ps[27], [cells(4.5), cells(8.5), cells(12.5)]);
    let odd = lattice_positions(3, 16);
    assert_eq!(odd[1][2], 16 * CELL / 3 + CELL / 2);
}

#[test]
fn ten_steps_stay_in_the_box() {
    let n: usize = 16;
    let mut ps = lattice_positions(4, n);
    for step in 0..10i64 {
        let g = density(&ps, n).to_vec();
        assert_eq!(g.iter().sum::<u128>(), 64 * MASS_UNITS);
        for axis in 0..3 {
            let deltas: Vec<i64> =
                (0..ps.len() as i64).map(|i| (i * 7919 + step * 104729 - 50000) * (axis as i64 + 1) * 997).collect();
            advance_axis(&mut ps, &deltas, axis, n);
        }
        for p in &ps {
            for a in 0..3 {
                assert!(0 <= p[a] && p[a] < n as i64 * CELL);
            }
        }
    }
}

#[test]
fn stencil_periodicity() {
    let n: usize = 8;
    let box_len = n as i64 * CELL;
    let p = [cells(1.3), cells(7.9), cells(4.45)];
    let q = [p[0] - box_len, p[1] + 5 * box_len, p[2]];
    for axis in 0..3 {
        assert_eq!(force_stencil(&p, n, axis), force_stencil(&q, n, axis));
    }
}
