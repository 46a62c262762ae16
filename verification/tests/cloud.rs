//! Seed-search, emptiness and sparse-cloud scenarios.

use bpa_rs::geometry::ball_is_empty;
use bpa_rs::grid::Grid;
use bpa_rs::mesh::MeshPoint;
use bpa_rs::reconstruct;
use bpa_rs::seed::find_seed_triangle;
use bpa_rs::vec3::Vec3Fix;
use bpa_rs::Point;

fn fx(v: f64) -> i64 {
    (v * 65536.0).round() as i64
}

fn v3(x: f64, y: f64, z: f64) -> Vec3Fix {
    Vec3Fix { x: fx(x), y: fx(y), z: fx(z) }
}

fn pt(px: f64, py: f64, pz: f64, nx: f64, ny: f64, nz: f64) -> Point {
    let len = (nx * nx + ny * ny + nz * nz).sqrt();
    Point { pos: v3(px, py, pz), normal: v3(nx / len, ny / len, nz / len) }
}

fn tetrahedron_cloud() -> Vec<Point> {
    vec![
        pt(0.0, 0.0, 0.0, -1.0, -1.0, -1.0),
        pt(0.0, 1.0, 0.0, 0.0, 1.0, 0.0),
        pt(1.0, 0.0, 0.0, 1.0, 0.0, 0.0),
        pt(0.0, 0.0, 1.0, 0.0, 0.0, 1.0),
    ]
}

/// Re-seeding an unmodified cloud finds the same triangle: the search reads
/// positions, normals and cells, not the `used` flags the first call set.
#[test]
fn reseed_is_idempotent() {
    let cloud = tetrahedron_cloud();
    let radius = fx(2.0);
    let mut grid = Grid::new(&cloud, radius);
    let first = find_seed_triangle(&mut grid, radius).expect("seed must exist");
    let second = find_seed_triangle(&mut grid, radius).expect("seed must exist");
    assert_eq!(first, second);
}

/// A point strictly inside the tolerance radius makes the ball non-empty;
/// points at or beyond it never do.
#[test]
fn ball_emptiness_threshold() {
    let radius = fx(1.0);
    let center = v3(0.0, 0.0, 0.0);
    let on_surface = MeshPoint::new(v3(1.0, 0.0, 0.0));
    let outside = MeshPoint::new(v3(2.0, 0.0, 0.0));
    let inside = MeshPoint::new(v3(0.5, 0.0, 0.0));
    let points = vec![on_surface, outside, inside];

    // Surface and outside points keep the ball empty.
    assert!(ball_is_empty(&center, &points, &vec![0, 1], radius));
    // A strictly interior point does not.
    assert!(!ball_is_empty(&center, &points, &vec![0, 1, 2], radius));
    // An empty candidate list is trivially empty.
    assert!(ball_is_empty(&center, &points, &vec![], radius));
}

/// Two points cannot form a triangle: seed search and reconstruction both
/// come up empty.
#[test]
fn sparse_cloud_yields_none() {
    let cloud = vec![pt(0.0, 0.0, 0.0, 0.0, 0.0, 1.0), pt(1.0, 0.0, 0.0, 0.0, 0.0, 1.0)];
    let radius = fx(2.0);
    let mut grid = Grid::new(&cloud, radius);
    assert!(find_seed_triangle(&mut grid, radius).is_none());
    assert!(reconstruct(&cloud, radius).is_none());
}

/// A single point reconstructs to nothing as well.
#[test]
fn single_point_yields_none() {
    let cloud = vec![pt(0.0, 0.0, 0.0, 0.0, 0.0, 1.0)];
    assert!(reconstruct(&cloud, fx(1.0)).is_none());
}

/// Grid construction: cells of side `2 * radius`, rounded up per axis, at
/// least one per axis, and every point lands in exactly one cell.
#[test]
fn grid_has_expected_shape() {
    // Positions span 10 x 4 x 0 units; radius 1 gives cells of side 2.
    let cloud = vec![
        pt(0.0, 0.0, 0.0, 0.0, 0.0, 1.0),
        pt(10.0, 4.0, 0.0, 0.0, 0.0, 1.0),
        pt(3.0, 1.0, 0.0, 0.0, 0.0, 1.0),
    ];
    let grid = Grid::new(&cloud, fx(1.0));
    assert_eq!(grid.cell_size, fx(2.0));
    assert_eq!(grid.dims.x, 5);
    assert_eq!(grid.dims.y, 2);
    assert_eq!(grid.dims.z, 1);
    assert_eq!(grid.cells.len(), 10);
    let stored: usize = grid.cells.iter().map(|c| c.len()).sum();
    assert_eq!(stored, 3);
    assert_eq!(grid.points.len(), 3);
}

/// A cube with one corner missing still reconstructs: pivots that find no
/// partner retire their edges instead of failing the whole run.
#[test]
fn open_cloud_reconstructs() {
    let cloud = vec![
        pt(-1.0, -1.0, -1.0, -1.0, -1.0, -1.0),
        pt(-1.0, 1.0, -1.0, -1.0, 1.0, -1.0),
        pt(1.0, 1.0, -1.0, 1.0, 1.0, -1.0),
        pt(1.0, -1.0, -1.0, 1.0, -1.0, -1.0),
        pt(-1.0, -1.0, 1.0, -1.0, -1.0, 1.0),
        pt(-1.0, 1.0, 1.0, -1.0, 1.0, 1.0),
        pt(1.0, 1.0, 1.0, 1.0, 1.0, 1.0),
    ];
    let triangles = reconstruct(&cloud, fx(2.0)).expect("open cloud still seeds");
    assert!(triangles.len() > 0);
}
