use nbody::lattice::{cell_coords, flat_index, locate, neighbor, wrap_index, CELL};

#[test]
fn flat_index_round_trip() {
    let n: usize = 7;
    for idx in 0..n * n * n {
        let (i, j, k) = cell_coords(n, idx);
        assert_eq!(flat_index(n, i, j, k), idx);
    }
    assert_eq!(flat_index(16, 1, 2, 3), 256 + 32 + 3);
}

#[test]
fn periodic_wrap() {
    assert_eq!(wrap_index(-1, 16), 15);
    assert_eq!(wrap_index(16, 16), 0);
    assert_eq!(wrap_index(-33, 16), 15);
    assert_eq!(neighbor(15, 16, true), 0);
    assert_eq!(neighbor(0, 16, false), 15);
    assert_eq!(neighbor(4, 16, true), 5);
}

#[test]
fn locate_fixed_point() {
    assert_eq!(locate(3 * CELL + 5, 16), (3, 5));
    assert_eq!(locate(-1, 16), (15, CELL - 1));
    assert_eq!(locate(17 * CELL, 16), (1, 0));
}

#[test]
fn empty_string() {
    assert_eq!(nbody::particle_mesh::test(), "");
}
