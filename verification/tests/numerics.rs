//! The scaled-integer number model: square roots, the fixed-point cosine
//! at its pinned points, and the vector operations.

use gcode_timer::fixed::{acos_fp, cos_fp, isqrt_u128, FP, PI_FP};
use gcode_timer::objects_def::{Coord, Referential};

fn v(x: i64, y: i64, z: i64) -> Coord {
    Coord { x: Some(x), y: Some(y), z: Some(z), i: None, j: None, k: None }
}

#[test]
fn integer_square_root_brackets() {
    assert_eq!(isqrt_u128(0), 0);
    assert_eq!(isqrt_u128(15), 3);
    assert_eq!(isqrt_u128(16), 4);
    assert_eq!(isqrt_u128(10_000_000_000), 100_000);
}

#[test]
fn norm_of_a_pythagorean_triple() {
    assert_eq!(v(3000, 4000, 0).norm(), 5000);
    assert_eq!(v(0, 0, -7000).norm(), 7000);
}

#[test]
fn norm_rounds_down() {
    // sqrt(2) thousandths
    assert_eq!(v(1000, 1000, 0).norm(), 1414);
}

#[test]
fn scalar_product_is_the_dot_product() {
    assert_eq!(v(1, 2, 3).scalar_product(&v(4, -5, 6)), 4 - 10 + 18);
}

#[test]
fn cross_quantity_combines_all_axis_pairs() {
    // (y1 z2 - z1 y2) + (z1 x2 - x1 z2) + (x1 y2 - y1 x2)
    let a = v(1, 2, 3);
    let b = v(4, 5, 6);
    assert_eq!(a.cross_product(&b), (12 - 15) + (12 - 6) + (5 - 8));
    assert_eq!(a.cross_product(&a), 0);
}

#[test]
fn radius_vectors_of_a_quarter_arc() {
    // origin at zero, destination (5, 5) with centre offset i = 5
    let origin = v(0, 0, 0);
    let dest = Coord {
        x: Some(5000),
        y: Some(5000),
        z: None,
        i: Some(5000),
        j: None,
        k: None,
    };
    let (cp, cd, dz) = origin.to_rad_vec(&dest, &Referential::Absolute).unwrap();
    assert_eq!(cp, v(-5000, 0, 0));
    assert_eq!(cd, v(0, 5000, 0));
    assert_eq!(dz, 0);
}

#[test]
fn radius_vectors_under_the_incremental_referential() {
    let origin = v(1000, 1000, 1000);
    let dest = Coord {
        x: Some(2000),
        y: None,
        z: Some(500),
        i: Some(1000),
        j: None,
        k: None,
    };
    let (cp, cd, dz) = origin.to_rad_vec(&dest, &Referential::Increment).unwrap();
    assert_eq!(cp, v(-1000, 0, 0));
    assert_eq!(cd, v(1000, 0, 500));
    assert_eq!(dz, 500);
}

#[test]
fn cosine_is_exact_at_zero() {
    assert_eq!(cos_fp(0), FP);
}

#[test]
fn cosine_is_near_its_true_values() {
    // cos(pi) = -1 and cos(pi/2) = 0, within the series' truncation noise
    let c_pi = cos_fp(PI_FP);
    assert!((-FP - 100..=-FP + 100).contains(&c_pi));
    let c_half = cos_fp(PI_FP / 2);
    assert!((-100..=100).contains(&c_half));
}

#[test]
fn arccosine_of_one_is_zero() {
    assert_eq!(acos_fp(FP as i128), 0);
}
