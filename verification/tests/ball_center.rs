//! Ball-center scenarios: known triangles with known ball centers.

use bpa_rs::geometry::compute_ball_center;
use bpa_rs::mesh::{MeshFace, MeshPoint};
use bpa_rs::vec3::Vec3Fix;

fn fx(v: f64) -> i64 {
    (v * 65536.0).round() as i64
}

fn fl(v: i64) -> f64 {
    v as f64 / 65536.0
}

fn v3(x: f64, y: f64, z: f64) -> Vec3Fix {
    Vec3Fix { x: fx(x), y: fx(y), z: fx(z) }
}

fn assert_close(got: Vec3Fix, x: f64, y: f64, z: f64) {
    let tol = 1e-3;
    assert!((fl(got.x) - x).abs() < tol, "x: {} vs {}", fl(got.x), x);
    assert!((fl(got.y) - y).abs() < tol, "y: {} vs {}", fl(got.y), y);
    assert!((fl(got.z) - z).abs() < tol, "z: {} vs {}", fl(got.z), z);
}

#[test]
fn isosceles() {
    let a = MeshPoint::new(v3(0.0, 0.0, 0.0));
    let b = MeshPoint::new(v3(10.0, 0.0, 0.0));
    let c = MeshPoint::new(v3(0.0, 10.0, 0.0));

    let f = MeshFace([a, b, c]);

    let center = compute_ball_center(&f, fx(10.0));
    assert_close(center.expect("center"), 5.0, 5.0, 7.07106781);
}

#[test]
fn isosceles_larger_radius() {
    let a = MeshPoint::new(v3(0.0, 0.0, 0.0));
    let b = MeshPoint::new(v3(10.0, 0.0, 0.0));
    let c = MeshPoint::new(v3(0.0, 10.0, 0.0));

    let f = MeshFace([a, b, c]);

    let center = compute_ball_center(&f, fx(100.0));
    assert_close(center.expect("center"), 5.0, 5.0, 99.7496872);
}

#[test]
fn equilateral() {
    let a = MeshPoint::new(v3(0.0, 0.0, 0.0));
    let b = MeshPoint::new(v3(10.0, 0.0, 0.0));
    let c = MeshPoint::new(v3(5.0, (3.0f64).sqrt() * 10.0 / 2.0, 0.0));

    let f = MeshFace([a, b, c]);

    let center = compute_ball_center(&f, fx(10.0));
    assert_close(center.expect("center"), 5.0, 2.88675070, 8.16496658);
}

#[test]
fn radius_too_small() {
    let a = MeshPoint::new(v3(0.0, 0.0, 0.0));
    let b = MeshPoint::new(v3(10.0, 0.0, 0.0));
    let c = MeshPoint::new(v3(0.0, 10.0, 0.0));

    let f = MeshFace([a, b, c]);

    let center = compute_ball_center(&f, fx(1.0));
    assert_eq!(center, None);
}
