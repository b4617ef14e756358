use nbody::meshgrid::{Meshgrid2, Meshgrid3};

#[test]
fn meshgrid_test() {
    let m = Meshgrid2::new(&vec![1., 2.], &vec![3., 4.]);
    println!("{:?}", m);
    println!("{:?}", m.x());
    println!("{:?}", m.y());
    assert_eq!(m.x(), vec![1., 1., 2., 2.]);
    assert_eq!(m.y(), vec![3., 4., 3., 4.]);
}

#[test]
fn meshgrid3_fields() {
    let m = Meshgrid3::new(&vec![1, 2], &vec![10, 20, 30], &vec![100, 200]);
    let (x, y, z) = m.get();
    assert_eq!(x, vec![1, 1, 1, 1, 1, 1, 2, 2, 2, 2, 2, 2]);
    assert_eq!(y, vec![10, 10, 20, 20, 30, 30, 10, 10, 20, 20, 30, 30]);
    assert_eq!(z, vec![100, 200, 100, 200, 100, 200, 100, 200, 100, 200, 100, 200]);
}

#[test]
fn meshgrid3_map_and_zip() {
    let m = Meshgrid3::new(&vec![1.0, 2.0], &vec![3.0], &vec![4.0, 5.0]);
    let squared = m.map(&|v: f64| v.powi(2));
    assert_eq!(squared.x(), vec![1.0, 1.0, 4.0, 4.0]);
    assert_eq!(squared.z(), vec![16.0, 25.0, 16.0, 25.0]);
    let sum = squared.zip_with(&m, &|a: f64, b: f64| a + b);
    assert_eq!(sum.y(), vec![12.0, 12.0, 12.0, 12.0]);
    let total = m.combine(&|a: f64, b: f64, c: f64| a + b + c);
    assert_eq!(total, vec![8.0, 9.0, 9.0, 10.0]);
}

#[test]
fn meshgrid2_map_and_zip() {
    let m = Meshgrid2::new(&vec![1, 2, 3], &vec![5]);
    let doubled = m.map(&|v: i32| 2 * v);
    assert_eq!(doubled.x(), vec![2, 4, 6]);
    let prod = doubled.zip_with(&m, &|a: i32, b: i32| a * b);
    assert_eq!(prod.y(), vec![50, 50, 50]);
    assert_eq!(m.combine(&|a: i32, b: i32| a - b), vec![-4, -3, -2]);
}

#[test]
fn empty_mesh() {
    let m: Meshgrid3<u8> = Meshgrid3::new(&vec![], &vec![1], &vec![2]);
    assert_eq!(m.x(), Vec::<u8>::new());
}
