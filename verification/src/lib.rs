//! Ball-pivoting surface reconstruction over an oriented point cloud.
//!
//! Positions, normals and the ball radius are fixed-point values: an `i64`
//! counts steps of `1/SCALE` of a whole unit. All geometry is exact integer
//! arithmetic, so every predicate the algorithm decides on is itself verified.

use vstd::prelude::*;

pub mod front;
pub mod grid;
pub mod geometry;
pub mod mesh;
pub mod pivot;
pub mod seed;
pub mod vec3;

pub use mesh::Point;
pub use mesh::Triangle;

verus! {

/// Fixed-point steps per whole unit; a coordinate of `SCALE` is 1.0 units.
pub const SCALE: i64 = 65536;

/// Largest magnitude (in fixed-point steps) accepted for an input coordinate,
/// an input normal component, or the ball radius: 128 whole units.
pub const COORD_MAX: i64 = 8388608;

/// Largest magnitude any vector handled by the algorithm can reach
/// (ball centers stay within `4 * COORD_MAX`).
pub const VEC_MAX: i64 = 33554432;

/// Largest accepted number of input points.
pub const NPOINTS_MAX: usize = 1048576;

/// Largest accepted number of grid cells.
pub const CELLS_MAX: usize = 4194304;

/// Tolerance subtracted from `radius * radius` by the ball-emptiness test,
/// in squared fixed-point steps: `1e-4` square whole units (`1e-4 * SCALE * SCALE`).
pub const EPS_SQ: i64 = 429497;

/// Positions of the input cloud.
pub open spec fn cloud_pos(points: Seq<mesh::Point>) -> Seq<vec3::Vec3Fix> {
    points.map_values(|p: mesh::Point| p.pos)
}

/// Normals of the input cloud.
pub open spec fn cloud_nrm(points: Seq<mesh::Point>) -> Seq<vec3::Vec3Fix> {
    points.map_values(|p: mesh::Point| p.normal)
}

/// The seed triangle reconstruction starts from, as a function of the input
/// cloud and radius alone: the seed search over the grid built from them.
pub open spec fn reconstruct_seed(points: Seq<mesh::Point>, radius: i64) -> Option<
    seed::SeedResult,
> {
    seed::seed_spec(
        cloud_pos(points),
        cloud_nrm(points),
        grid::grid_cells_spec(points, radius),
        (2 * radius) as i64,
        grid::grid_dims_spec(points, radius),
        grid::grid_lower_spec(points),
        radius,
    )
}

/// A sparse cloud — at most two points — yields no seed triangle, so
/// together with `reconstruct`'s contract the whole reconstruction yields
/// `None` on it.
pub proof fn lemma_sparse_cloud_yields_none(points: Seq<mesh::Point>, radius: i64)
    requires
        grid::input_ok(points, radius),
        points.len() <= 2,
    ensures
        reconstruct_seed(points, radius) is None,
{
    grid::lemma_dims_facts(points, radius);
    grid::lemma_cells_after_shape(points, radius, points.len() as int);
    seed::lemma_seed_sparse(
        cloud_pos(points),
        cloud_nrm(points),
        grid::grid_cells_spec(points, radius),
        (2 * radius) as i64,
        grid::grid_dims_spec(points, radius),
        grid::grid_lower_spec(points),
        radius,
    );
}

/// Reconstruct a triangle mesh from an oriented point cloud with the
/// ball-pivoting algorithm. Returns `None` exactly when no seed triangle
/// exists anywhere in the cloud; otherwise the mesh starts with the seed
/// triangle, every emitted vertex is an input position, and the front is
/// advanced deterministically until no active edge remains (a hard iteration
/// cap guards against pathological inputs).
#[verifier::rlimit(100)]
pub fn reconstruct(points: &Vec<mesh::Point>, radius: i64) -> (r: Option<Vec<mesh::Triangle>>)
    requires
        grid::input_ok(points@, radius),
    ensures
        (r is Some) == (reconstruct_seed(points@, radius) is Some),
        r matches Some(ts) ==> {
            &&& ts@.len() >= 1
            &&& reconstruct_seed(points@, radius) matches Some(s) && ts@[0] == (mesh::Triangle(
                [
                    points@[s.face[0] as int].pos,
                    points@[s.face[1] as int].pos,
                    points@[s.face[2] as int].pos,
                ],
            ))
            &&& forall|t: int, v: int|
                0 <= t < ts@.len() && 0 <= v < 3 ==> exists|j: int|
                    0 <= j < points@.len() && (#[trigger] ts@[t].0[v]) == points@[j].pos
        },
{
    let mut grid = grid::Grid::new(points, radius);
    proof {
        assert(mesh::pos_view(grid.points@) =~= cloud_pos(points@));
        assert(mesh::nrm_view(grid.points@) =~= cloud_nrm(points@));
    }
    let seed_found = seed::find_seed_triangle(&mut grid, radius);
    match seed_found {
        Option::None => None,
        Option::Some(s) => {
            let mut triangles: Vec<mesh::Triangle> = Vec::new();
            let mut edges: Vec<mesh::MeshEdge> = Vec::new();
            let mut front: Vec<usize> = Vec::new();
            let pi = s.face[0];
            let pj = s.face[1];
            let pk = s.face[2];
            let f = mesh::MeshFace(
                [
                    mesh::MeshPoint::new(grid.points[pi].pos),
                    mesh::MeshPoint::new(grid.points[pj].pos),
                    mesh::MeshPoint::new(grid.points[pk].pos),
                ],
            );
            front::output_triangle(&f, &mut triangles);
            let mut e0 = mesh::MeshEdge::new(pi, pj, pk, s.ball_center);
            let mut e1 = mesh::MeshEdge::new(pj, pk, pi, s.ball_center);
            let mut e2 = mesh::MeshEdge::new(pk, pi, pj, s.ball_center);
            e0.prev = Some(2);
            e0.next = Some(1);
            e1.prev = Some(0);
            e1.next = Some(2);
            e2.prev = Some(1);
            e2.next = Some(0);
            edges.push(e0);
            edges.push(e1);
            edges.push(e2);
            grid.points[pi].edges.push(0);
            grid.points[pi].edges.push(2);
            grid.points[pj].edges.push(0);
            grid.points[pj].edges.push(1);
            grid.points[pk].edges.push(1);
            grid.points[pk].edges.push(2);
            front.push(0);
            front.push(1);
            front.push(2);
            proof {
                assert(grid::grid_wf(grid));
                assert forall|j: int| 0 <= j < edges@.len() implies #[trigger] mesh::edge_ok(
                    edges@,
                    j,
                ) by {
                    assert(edges@[0].a == pi && edges@[0].b == pj);
                }
                assert(grid.points@[pi as int].edges@[0] == 0usize);
                assert(grid.points@[pi as int].edges@[1] == 2usize);
                assert(grid.points@[pj as int].edges@[0] == 0usize);
                assert(grid.points@[pj as int].edges@[1] == 1usize);
                assert(grid.points@[pk as int].edges@[0] == 1usize);
                assert(grid.points@[pk as int].edges@[1] == 2usize);
                assert(mesh::edges_registered(grid.points@, edges@));
                assert(mesh::lists_sound(grid.points@, edges@));
                assert(mesh::mesh_wf(grid.points@, edges@));
            }
            let ghost seed_triangle = triangles@[0];
            let n = grid.points.len();
            proof {
                vec3::mul_mag_le(
                    32 * n as int,
                    n as int,
                    0x2000000,
                    0x100000,
                    0x2000_0000_0000,
                );
            }
            let cap: u64 = 32 * (n as u64) * (n as u64) + 64;
            let mut iters: u64 = 0;
            loop
                invariant
                    grid::input_ok(points@, radius),
                    1 <= radius <= COORD_MAX,
                    grid::grid_wf(grid),
                    mesh::mesh_wf(grid.points@, edges@),
                    grid.points@.len() == points@.len(),
                    forall|i: int|
                        0 <= i < points@.len() ==> (#[trigger] grid.points@[i]).pos
                            == points@[i].pos && grid.points@[i].normal == points@[i].normal,
                    forall|k: int| 0 <= k < front@.len() ==> (#[trigger] front@[k]) < edges@.len(),
                    triangles@.len() >= 1,
                    triangles@[0] == seed_triangle,
                    forall|t: int, v: int|
                        0 <= t < triangles@.len() && 0 <= v < 3 ==> exists|j: int|
                            0 <= j < points@.len() && (#[trigger] triangles@[t].0[v])
                                == points@[j].pos,
                    0 <= iters <= cap,
                decreases cap - iters,
            {
                if iters >= cap {
                    break;
                }
                iters += 1;
                let e_opt = front::get_active_edge(&mut front, &edges);
                let e_ij = match e_opt {
                    Option::None => { break; },
                    Option::Some(e) => e,
                };
                let pivoted = pivot::ball_pivot(e_ij, &grid, &edges, radius);
                let mut boundary = true;
                match pivoted {
                    Option::Some(pr) => {
                        let k = pr.p;
                        proof {
                            assert forall|m: int|
                                0 <= m < grid.points@[k as int].edges@.len() implies (
                            #[trigger] grid.points@[k as int].edges@[m]) < edges@.len() by {
                                assert(mesh::lists_sound(grid.points@, edges@));
                            }
                        }
                        let nu = mesh::not_used(&grid.points[k]);
                        let of = mesh::on_front(&grid.points[k], &edges);
                        if nu || of {
                            if edges.len() < usize::MAX - 2 {
                                boundary = false;
                                let ea = edges[e_ij].a;
                                let eb = edges[e_ij].b;
                                let tf = mesh::MeshFace(
                                    [
                                        mesh::MeshPoint::new(grid.points[ea].pos),
                                        mesh::MeshPoint::new(grid.points[k].pos),
                                        mesh::MeshPoint::new(grid.points[eb].pos),
                                    ],
                                );
                                front::output_triangle(&tf, &mut triangles);
                                let ghost pts_before = grid.points@;
                                let ghost edges_before = edges@;
                                let joined = front::join(
                                    e_ij,
                                    k,
                                    pr.center,
                                    &mut grid.points,
                                    &mut edges,
                                    &mut front,
                                );
                                let ik = joined.0;
                                let kj = joined.1;
                                proof {
                                    assert(grid::grid_wf(grid));
                                    assert(mesh::edge_ok(edges_before, e_ij as int));
                                }
                                let r1 = front::find_reverse_edge_on_front(
                                    ik,
                                    &grid.points,
                                    &edges,
                                );
                                match r1 {
                                    Option::Some(ki) => {
                                        proof {
                                            // `ki` runs `k -> ea`, so it predates the join and
                                            // the pivot's adjacency check cleared it.
                                            assert(edges@[ki as int].a == k);
                                            assert(edges@[ki as int].b == ea);
                                            assert(ki != ik && ki != kj);
                                            assert((ki as int) < edges_before.len());
                                            assert(edges_before[ki as int].a == k);
                                            assert(edges_before[ki as int].b == ea);
                                            assert(ki != e_ij);
                                            assert(edges@[ki as int].status
                                                == edges_before[ki as int].status);
                                            pivot::lemma_reverse_not_inner(
                                                pts_before,
                                                edges_before,
                                                k,
                                                ea,
                                                eb,
                                                ki as int,
                                            );
                                        }
                                        let ghost pre_glue = edges@;
                                        front::glue(ik, ki, &mut edges);
                                        proof {
                                            mesh::lemma_wf_edges_reshaped(
                                                grid.points@,
                                                pre_glue,
                                                edges@,
                                            );
                                        }
                                    },
                                    Option::None => {},
                                }
                                match front::find_reverse_edge_on_front(kj, &grid.points, &edges) {
                                    Option::Some(jk) => {
                                        proof {
                                            // `jk` runs `eb -> k`: it predates the join, the
                                            // first glue (if any) touched only edges at `ea`,
                                            // and the pivot's adjacency check cleared it.
                                            assert(edges@[jk as int].a == eb);
                                            assert(edges@[jk as int].b == k);
                                            assert(jk != ik && jk != kj);
                                            assert((jk as int) < edges_before.len());
                                            assert(edges_before[jk as int].a == eb);
                                            assert(edges_before[jk as int].b == k);
                                            assert(jk != e_ij);
                                            if r1 is Some {
                                                assert(jk != r1->0);
                                            }
                                            assert(edges@[jk as int].status
                                                == edges_before[jk as int].status);
                                            pivot::lemma_reverse_not_inner(
                                                pts_before,
                                                edges_before,
                                                k,
                                                ea,
                                                eb,
                                                jk as int,
                                            );
                                        }
                                        let ghost pre_glue = edges@;
                                        front::glue(kj, jk, &mut edges);
                                        proof {
                                            mesh::lemma_wf_edges_reshaped(
                                                grid.points@,
                                                pre_glue,
                                                edges@,
                                            );
                                        }
                                    },
                                    Option::None => {},
                                }
                            }
                        }
                    },
                    Option::None => {},
                }
                if boundary {
                    let ghost pre = edges@;
                    edges[e_ij].status = mesh::EdgeStatus::Boundary;
                    proof {
                        assert(edges@ =~= pre.update(
                            e_ij as int,
                            mesh::MeshEdge { status: mesh::EdgeStatus::Boundary, ..pre[e_ij as int] },
                        ));
                        front::lemma_relabel_wf(pre, e_ij as int, mesh::EdgeStatus::Boundary);
                        mesh::lemma_wf_edges_reshaped(grid.points@, pre, edges@);
                    }
                }
            }
            Some(triangles)
        },
    }
}

} // verus!
