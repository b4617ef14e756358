use nbody::fourier::{forward, inverse, is_suppressed_mode, sample_freq, transform_axis};
use nbody::meshgrid::Meshgrid3;

#[test]
fn fftfreq() {
    {
        let n: usize = 10;
        let ans: Vec<f64> = sample_freq(&n).iter().map(|k| *k as f64 / n as f64).collect();
        let expected_result = vec![0.0, 0.1, 0.2, 0.3, 0.4, -0.5, -0.4, -0.3, -0.2, -0.1];
        assert_eq!(ans.len(), expected_result.len());
        ans.iter().zip(expected_result).for_each(|(a, b)| assert_eq!(*a, b));
    }
    {
        let n: usize = 11;
        let ans: Vec<f64> = sample_freq(&n).iter().map(|k| *k as f64 / n as f64).collect();
        let expected_result = vec![
            0.0,
            0.09090909090909091,
            0.18181818181818182,
            0.2727272727272727,
            0.36363636363636365,
            0.45454545454545453,
            -0.45454545454545453,
            -0.36363636363636365,
            -0.2727272727272727,
            -0.18181818181818182,
            -0.09090909090909091,
        ];
        assert_eq!(ans.len(), expected_result.len());
        ans.iter().zip(expected_result).for_each(|(a, b)| assert_eq!(*a, b));
    }
}

#[test]
fn sample_freq_numerators() {
    assert_eq!(sample_freq(&10), vec![0, 1, 2, 3, 4, -5, -4, -3, -2, -1]);
    assert_eq!(sample_freq(&11), vec![0, 1, 2, 3, 4, 5, -5, -4, -3, -2, -1]);
    assert_eq!(sample_freq(&1), vec![0]);
    assert_eq!(sample_freq(&0), Vec::<i64>::new());
}

#[test]
fn check_3() {
    let s = sample_freq(&3);
    let scale = 2. * std::f64::consts::PI * (10.0 / 5.0);
    let k: Vec<f64> = s.iter().map(|x| *x as f64 / 3.0 * scale).collect();
    println!("{:?}", k);
    assert_eq!(s, vec![0, 1, -1]);
}

#[test]
fn fourier_test() {
    let m = Meshgrid3::new(
        &(0..5).map(|x| x as f64).collect::<Vec<f64>>(),
        &(0..5).map(|x| x as f64).collect::<Vec<f64>>(),
        &(0..5).map(|x| x as f64).collect::<Vec<f64>>(),
    );
    let (x, y, z) = m.get();
    println!("{:?}", x);
    assert_eq!(x.len(), 125);
    // cell (1, 2, 3) sits at (1 * 5 + 2) * 5 + 3
    assert_eq!((x[38], y[38], z[38]), (1.0, 2.0, 3.0));
}

fn rotate_left(mut line: Vec<i64>) -> Vec<i64> {
    line.rotate_left(1);
    line
}

fn rotate_right(mut line: Vec<i64>) -> Vec<i64> {
    line.rotate_right(1);
    line
}

#[test]
fn transform_axis_moves_lines() {
    let n: usize = 3;
    let grid: Vec<i64> = (0..27).collect();
    // along axis 2, cell (i, j, k) takes the value of (i, j, k + 1)
    let r = transform_axis(&grid, n, 2, &rotate_left);
    assert_eq!(r[0], 1);
    assert_eq!(r[2], 0);
    // along axis 0, cell (i, j, k) takes the value of (i + 1, j, k)
    let r = transform_axis(&grid, n, 0, &rotate_left);
    assert_eq!(r[0], 9);
    assert_eq!(r[18], 0);
}

#[test]
fn forward_then_inverse_round_trip() {
    let n: usize = 4;
    let grid: Vec<i64> = (0..64).map(|v| v * v - 7).collect();
    let f = forward(&grid, n, &rotate_left);
    assert_ne!(f, grid);
    // a shift by one along every axis: cell 0 takes the value of cell (1, 1, 1)
    assert_eq!(f[0], grid[21]);
    let back = inverse(&f, n, &rotate_right);
    assert_eq!(back, grid);
}

#[test]
fn suppressed_modes() {
    assert!(is_suppressed_mode(0, 4, true, false));
    assert!(!is_suppressed_mode(0, 4, false, true));
    // (2, 2, 2) in a grid of side 4
    assert!(is_suppressed_mode(42, 4, false, true));
    assert!(!is_suppressed_mode(42, 4, true, false));
    assert!(!is_suppressed_mode(13, 5, true, true));
}
