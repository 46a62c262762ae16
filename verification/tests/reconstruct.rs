//! End-to-end reconstruction scenarios: a tetrahedron closes with one
//! triangle per face, a cube closes into a manifold, spheres reconstruct,
//! and the whole pipeline is deterministic.

use std::collections::HashMap;

use bpa_rs::reconstruct;
use bpa_rs::vec3::Vec3Fix;
use bpa_rs::{Point, Triangle};

fn fx(v: f64) -> i64 {
    (v * 65536.0).round() as i64
}

fn v3(x: f64, y: f64, z: f64) -> Vec3Fix {
    Vec3Fix { x: fx(x), y: fx(y), z: fx(z) }
}

fn pt(px: f64, py: f64, pz: f64, nx: f64, ny: f64, nz: f64) -> Point {
    let len = (nx * nx + ny * ny + nz * nz).sqrt();
    Point { pos: v3(px, py, pz), normal: v3(nx / len, ny / len, nz / len) }
}

fn create_spherical_cloud(slices: i32, stacks: i32) -> Vec<Point> {
    let mut points = vec![Point { pos: v3(0.0, 0.0, -1.0), normal: v3(0.0, 0.0, -1.0) }];

    for slice in 0..slices {
        for stack in 1..stacks {
            let yaw = (slice as f64 / slices as f64) * 2.0 * std::f64::consts::PI;
            let z = ((stack as f64 / stacks as f64 - 0.5) * std::f64::consts::PI).sin();
            let r = (1.0 - z * z).sqrt();

            let x = r * yaw.sin();
            let y = r * yaw.cos();

            points.push(Point { pos: v3(x, y, z), normal: v3(x, y, z) });
        }
    }

    points.push(Point { pos: v3(0.0, 0.0, 1.0), normal: v3(0.0, 0.0, 1.0) });

    points
}

fn tetrahedron_cloud() -> Vec<Point> {
    vec![
        pt(0.0, 0.0, 0.0, -1.0, -1.0, -1.0),
        pt(0.0, 1.0, 0.0, 0.0, 1.0, 0.0),
        pt(1.0, 0.0, 0.0, 1.0, 0.0, 0.0),
        pt(0.0, 0.0, 1.0, 0.0, 0.0, 1.0),
    ]
}

fn cube_cloud() -> Vec<Point> {
    vec![
        pt(-1.0, -1.0, -1.0, -1.0, -1.0, -1.0),
        pt(-1.0, 1.0, -1.0, -1.0, 1.0, -1.0),
        pt(1.0, 1.0, -1.0, 1.0, 1.0, -1.0),
        pt(1.0, -1.0, -1.0, 1.0, -1.0, -1.0),
        pt(-1.0, -1.0, 1.0, -1.0, -1.0, 1.0),
        pt(-1.0, 1.0, 1.0, -1.0, 1.0, 1.0),
        pt(1.0, 1.0, 1.0, 1.0, 1.0, 1.0),
        pt(1.0, -1.0, 1.0, 1.0, -1.0, 1.0),
    ]
}

fn key(v: &Vec3Fix) -> (i64, i64, i64) {
    (v.x, v.y, v.z)
}

/// Every triangle vertex must be one of the input positions.
fn assert_vertices_from_cloud(triangles: &[Triangle], cloud: &[Point]) {
    for t in triangles {
        for v in &t.0 {
            assert!(
                cloud.iter().any(|p| key(&p.pos) == key(v)),
                "vertex not from cloud: {:?}",
                v
            );
        }
    }
}

/// How often each vertex position is used across the triangles.
fn vertex_counts(triangles: &[Triangle]) -> HashMap<(i64, i64, i64), usize> {
    let mut counts = HashMap::new();
    for t in triangles {
        for v in &t.0 {
            *counts.entry(key(v)).or_insert(0) += 1;
        }
    }
    counts
}

/// How often each undirected edge appears across the triangles.
fn edge_counts(triangles: &[Triangle]) -> HashMap<((i64, i64, i64), (i64, i64, i64)), usize> {
    let mut counts = HashMap::new();
    for t in triangles {
        for (i, j) in [(0usize, 1usize), (1, 2), (2, 0)] {
            let a = key(&t.0[i]);
            let b = key(&t.0[j]);
            let e = if a <= b { (a, b) } else { (b, a) };
            *counts.entry(e).or_insert(0) += 1;
        }
    }
    counts
}

#[test]
fn reconstruct_tetrahedron() {
    let cloud = tetrahedron_cloud();
    let triangles = reconstruct(&cloud, fx(2.0)).expect("tetrahedron must reconstruct");
    assert_eq!(triangles.len(), 4);
    assert_vertices_from_cloud(&triangles, &cloud);
    let counts = vertex_counts(&triangles);
    assert_eq!(counts.len(), 4);
    for (_, c) in counts {
        assert_eq!(c, 3);
    }
}

#[test]
fn reconstruct_cube() {
    let cloud = cube_cloud();
    let triangles = reconstruct(&cloud, fx(2.0)).expect("cube must reconstruct");
    assert_eq!(triangles.len(), 12);
    assert_vertices_from_cloud(&triangles, &cloud);
    // A closed manifold: every undirected edge is shared by exactly two
    // triangles.
    for (_, c) in edge_counts(&triangles) {
        assert_eq!(c, 2);
    }
    // Consistently oriented: no directed edge appears twice.
    let mut directed = HashMap::new();
    for t in &triangles {
        for (i, j) in [(0usize, 1usize), (1, 2), (2, 0)] {
            *directed.entry((key(&t.0[i]), key(&t.0[j]))).or_insert(0) += 1;
        }
    }
    for (_, c) in directed {
        assert_eq!(c, 1);
    }
}

#[test]
fn reconstruct_sphere_36_18() {
    let cloud = create_spherical_cloud(36, 18);
    let triangles = reconstruct(&cloud, fx(0.3)).expect("sphere cloud must reconstruct");
    assert!(triangles.len() > 0);
    assert_vertices_from_cloud(&triangles, &cloud);
}

#[test]
fn reconstruct_sphere_100_50() {
    let cloud = create_spherical_cloud(100, 50);
    let triangles = reconstruct(&cloud, fx(0.1)).expect("sphere cloud must reconstruct");
    assert!(triangles.len() > 0);
    assert_vertices_from_cloud(&triangles, &cloud);
}

#[test]
fn reconstruct_is_deterministic() {
    let cloud = cube_cloud();
    let first = reconstruct(&cloud, fx(2.0)).expect("cube must reconstruct");
    let second = reconstruct(&cloud, fx(2.0)).expect("cube must reconstruct");
    assert_eq!(first, second);
}
