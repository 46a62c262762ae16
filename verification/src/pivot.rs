//! The ball-pivot operator: roll the ball that created an active edge around
//! that edge's axis and report the first mesh vertex it touches. Candidates
//! come from the neighborhood of the edge midpoint; each passes orientation
//! checks and an inner-adjacency check, the one reached by the smallest
//! rotation wins, and the winner's ball must finally be empty of the whole
//! neighborhood.
//!
//! The rotation angle around the edge is `acos(clamp(dot))`, plus a half
//! turn when the chirality test against the edge direction says the
//! rotation passed the far side. Since `acos` is strictly decreasing, the
//! implementation never computes it: angles are ordered by the half-turn
//! flag first and the clamped dot (descending) second, which is the same
//! order.

use vstd::prelude::*;

use crate::geometry::{
    ball_center_of, ball_center_spec, ball_empty_spec, ball_is_empty, face_normal,
    face_normal_spec,
};
use crate::grid::{cells_view, grid_wf, neighborhood_spec, Dims, Grid};
use crate::mesh::{
    edges_vals_wf, lists_sound, mesh_wf, pos_view, EdgeStatus, MeshEdge, MeshPoint,
};
use crate::vec3::{div_trunc, div_trunc_spec, lemma_div_trunc_mag, Vec3Fix};
use crate::{COORD_MAX, SCALE, VEC_MAX};

verus! {

/// A successful pivot: the vertex the ball touched and the ball's center.
#[derive(Clone, Copy, Debug, PartialEq, Eq)]
pub struct PivotResult {
    pub p: usize,
    pub center: Vec3Fix,
}

/// Midpoint of two positions, components rounded toward zero.
pub open spec fn midpoint_spec(a: Vec3Fix, b: Vec3Fix) -> Vec3Fix {
    Vec3Fix {
        x: div_trunc_spec(a.x + b.x, 2) as i64,
        y: div_trunc_spec(a.y + b.y, 2) as i64,
        z: div_trunc_spec(a.z + b.z, 2) as i64,
    }
}

fn midpoint(a: &Vec3Fix, b: &Vec3Fix) -> (r: Vec3Fix)
    requires
        a.in_bound(COORD_MAX as int),
        b.in_bound(COORD_MAX as int),
    ensures
        r == midpoint_spec(*a, *b),
        r.in_bound(COORD_MAX as int),
{
    proof {
        lemma_div_trunc_mag(a.x + b.x, 2, COORD_MAX as int);
        lemma_div_trunc_mag(a.y + b.y, 2, COORD_MAX as int);
        lemma_div_trunc_mag(a.z + b.z, 2, COORD_MAX as int);
    }
    let x = div_trunc((a.x + b.x) as i128, 2) as i64;
    let y = div_trunc((a.y + b.y) as i128, 2) as i64;
    let z = div_trunc((a.z + b.z) as i128, 2) as i64;
    Vec3Fix { x, y, z }
}

/// The vertices the pivot may not reconnect to: the edge's endpoints and
/// the opposite vertex of the triangle that created it.
pub open spec fn pivot_ignore(edges: Seq<MeshEdge>, e: int) -> Seq<usize> {
    seq![edges[e].a, edges[e].b, edges[e].opposite]
}

/// Vertex `p` already has a consumed (`Inner`) edge to `a` or `b`.
pub open spec fn has_inner_adjacency(
    points: Seq<MeshPoint>,
    edges: Seq<MeshEdge>,
    p: usize,
    a: usize,
    b: usize,
) -> bool {
    exists|k: int|
        0 <= k < points[p as int].edges@.len() && {
            let g = (#[trigger] points[p as int].edges@[k]) as int;
            &&& edges[g].status == EdgeStatus::Inner
            &&& {
                let other = if edges[g].a == p {
                    edges[g].b
                } else {
                    edges[g].a
                };
                other == a || other == b
            }
        }
}

/// Evaluate one candidate `p` for the pivot across edge `e` with midpoint
/// `m`: its normal must not point against the would-be triangle's normal,
/// a ball must rest on that triangle, the ball center must lie on the
/// triangle's outward side, and `p` may not already have a consumed edge to
/// either endpoint. On success: the ball center, the half-turn flag, and
/// the clamped rotation dot.
pub open spec fn cand_eval(
    points: Seq<MeshPoint>,
    edges: Seq<MeshEdge>,
    e: int,
    radius: i64,
    m: Vec3Fix,
    p: usize,
) -> Option<(Vec3Fix, bool, i64)> {
    let pa = points[edges[e].a as int].pos;
    let pb = points[edges[e].b as int].pos;
    let pp = points[p as int].pos;
    let fnorm = face_normal_spec(pb, pa, pp);
    if fnorm.spec_dot(points[p as int].normal) < 0 {
        None
    } else {
        match ball_center_spec(pb, pa, pp, radius) {
            Option::None => None,
            Option::Some(c) => {
                let ncv = c.spec_minus(m).spec_normalize();
                if ncv.spec_dot(fnorm) < 0 {
                    None
                } else if has_inner_adjacency(points, edges, p, edges[e].a, edges[e].b) {
                    None
                } else {
                    let ocv = edges[e].center.spec_minus(m).spec_normalize();
                    let draw = ocv.spec_dot(ncv);
                    let dcl = if draw > SCALE * SCALE {
                        SCALE * SCALE
                    } else if draw < -(SCALE * SCALE) {
                        -(SCALE * SCALE)
                    } else {
                        draw
                    };
                    let flag = ncv.spec_cross(ocv).spec_dot(pa.spec_minus(pb)) < 0;
                    Some((c, flag, dcl as i64))
                }
            },
        }
    }
}

/// Is rotation `(f1, d1)` strictly smaller than `(f2, d2)`? No half turn
/// beats a half turn; within the same half the larger dot is the smaller
/// angle.
pub open spec fn angle_less(f1: bool, d1: i64, f2: bool, d2: i64) -> bool {
    (!f1 && f2) || (f1 == f2 && d1 > d2)
}

/// Fold over the candidates from position `i`, keeping the first candidate
/// with the strictly smallest rotation.
pub open spec fn pivot_scan(
    points: Seq<MeshPoint>,
    edges: Seq<MeshEdge>,
    e: int,
    radius: i64,
    m: Vec3Fix,
    nbs: Seq<usize>,
    i: int,
    best: Option<(usize, Vec3Fix, bool, i64)>,
) -> Option<(usize, Vec3Fix, bool, i64)>
    decreases nbs.len() - i,
{
    if i < 0 || i >= nbs.len() {
        best
    } else {
        let p = nbs[i];
        let next = match cand_eval(points, edges, e, radius, m, p) {
            Option::None => best,
            Option::Some((c, f, d)) => match best {
                Option::None => Some((p, c, f, d)),
                Option::Some((bp, bc, bf, bd)) => if angle_less(f, d, bf, bd) {
                    Some((p, c, f, d))
                } else {
                    best
                },
            },
        };
        pivot_scan(points, edges, e, radius, m, nbs, i + 1, next)
    }
}

/// The pivot across edge `e`: the winning candidate of the neighborhood
/// scan, accepted only if its ball holds no neighborhood vertex strictly
/// inside it.
pub open spec fn pivot_spec(
    points: Seq<MeshPoint>,
    edges: Seq<MeshEdge>,
    cells: Seq<Seq<usize>>,
    cs: i64,
    dims: Dims,
    lower: Vec3Fix,
    e: int,
    radius: i64,
) -> Option<PivotResult> {
    let m = midpoint_spec(points[edges[e].a as int].pos, points[edges[e].b as int].pos);
    let nbs = neighborhood_spec(pos_view(points), cells, cs, dims, lower, m, pivot_ignore(edges, e));
    match pivot_scan(points, edges, e, radius, m, nbs, 0, None) {
        Option::None => None,
        Option::Some((p, c, f, d)) => if ball_empty_spec(c, pos_view(points), nbs, radius) {
            Some(PivotResult { p, center: c })
        } else {
            None
        },
    }
}

/// An edge between the pivot vertex `k` and either endpoint of the pivoted
/// edge cannot be `Inner`: the pivot rejected any candidate with such a
/// consumed adjacency.
pub proof fn lemma_reverse_not_inner(
    op: Seq<MeshPoint>,
    oe: Seq<MeshEdge>,
    k: usize,
    a: usize,
    b: usize,
    g: int,
)
    requires
        crate::mesh::edges_registered(op, oe),
        crate::mesh::edges_vals_wf(op, oe),
        0 <= g < oe.len(),
        !has_inner_adjacency(op, oe, k, a, b),
        (oe[g].a == k && (oe[g].b == a || oe[g].b == b)) || (oe[g].b == k && (oe[g].a == a
            || oe[g].a == b)),
    ensures
        oe[g].status != EdgeStatus::Inner,
{
    if oe[g].a == k {
        assert(crate::mesh::list_has(op[oe[g].a as int].edges@, g));
        let m = choose|m: int|
            0 <= m < op[k as int].edges@.len() && op[k as int].edges@[m] as int == g;
        assert(op[k as int].edges@[m] as int == g);
    } else {
        assert(crate::mesh::list_has(op[oe[g].b as int].edges@, g));
        let m = choose|m: int|
            0 <= m < op[k as int].edges@.len() && op[k as int].edges@[m] as int == g;
        assert(op[k as int].edges@[m] as int == g);
    }
}

/// Scan `p`'s incident edges for a consumed edge to `a` or `b`.
fn has_inner_adjacent(
    points: &Vec<MeshPoint>,
    edges: &Vec<MeshEdge>,
    p: usize,
    a: usize,
    b: usize,
) -> (r: bool)
    requires
        (p as int) < points@.len(),
        lists_sound(points@, edges@),
    ensures
        r == has_inner_adjacency(points@, edges@, p, a, b),
{
    let list = &points[p].edges;
    let n = list.len();
    let mut k: usize = 0;
    while k < n
        invariant
            n == list@.len(),
            list@ == points@[p as int].edges@,
            (p as int) < points@.len(),
            lists_sound(points@, edges@),
            0 <= k <= n,
            forall|m: int|
                0 <= m < k ==> !{
                    let g = (#[trigger] points@[p as int].edges@[m]) as int;
                    &&& edges@[g].status == EdgeStatus::Inner
                    &&& {
                        let other = if edges@[g].a == p {
                            edges@[g].b
                        } else {
                            edges@[g].a
                        };
                        other == a || other == b
                    }
                },
        decreases n - k,
    {
        let g = list[k];
        let eg = edges[g];
        let other = if eg.a == p {
            eg.b
        } else {
            eg.a
        };
        if eg.status == EdgeStatus::Inner && (other == a || other == b) {
            return true;
        }
        k += 1;
    }
    false
}

/// Pivot the ball of the given radius around the edge `e` and return the
/// first vertex it touches, with the new ball center, or `None` when no
/// candidate passes every check.
#[verifier::rlimit(100)]
pub fn ball_pivot(e: usize, grid: &Grid, edges: &Vec<MeshEdge>, radius: i64) -> (r: Option<
    PivotResult,
>)
    requires
        grid_wf(*grid),
        mesh_wf(grid.points@, edges@),
        e < edges@.len(),
        edges@[e as int].status != EdgeStatus::Inner,
        1 <= radius <= COORD_MAX,
    ensures
        r == pivot_spec(
            grid.points@,
            edges@,
            cells_view(grid.cells@),
            grid.cell_size,
            grid.dims,
            grid.lower,
            e as int,
            radius,
        ),
        r matches Some(pr) ==> {
            &&& (pr.p as int) < grid.points@.len()
            &&& pr.p != edges@[e as int].a
            &&& pr.p != edges@[e as int].b
            &&& pr.p != edges@[e as int].opposite
            &&& pr.center.in_bound(VEC_MAX as int)
            &&& !has_inner_adjacency(
                grid.points@,
                edges@,
                pr.p,
                edges@[e as int].a,
                edges@[e as int].b,
            )
        },
{
    let ghost pos = pos_view(grid.points@);
    let ghost gcells = cells_view(grid.cells@);
    let ea = edges[e].a;
    let eb = edges[e].b;
    let eop = edges[e].opposite;
    let pa = grid.points[ea].pos;
    let pb = grid.points[eb].pos;
    let m = midpoint(&pa, &pb);
    let ec = edges[e].center;
    let ocv = ec.minus(&m).normalize();
    let ignore: Vec<usize> = vec![ea, eb, eop];
    proof {
        assert(ignore@ =~= pivot_ignore(edges@, e as int));
        assert(pos[ea as int] == grid.points@[ea as int].pos);
        assert(pos[eb as int] == grid.points@[eb as int].pos);
    }
    let nbs = grid.spherical_neighborhood(&m, &ignore);
    let nn = nbs.len();
    let s2: i64 = SCALE * SCALE;
    let mut best: Option<(usize, Vec3Fix, bool, i64)> = None;
    let mut i: usize = 0;
    while i < nn
        invariant
            grid_wf(*grid),
            mesh_wf(grid.points@, edges@),
            e < edges@.len(),
            1 <= radius <= COORD_MAX,
            pos == pos_view(grid.points@),
            gcells == cells_view(grid.cells@),
            ea == edges@[e as int].a,
            eb == edges@[e as int].b,
            eop == edges@[e as int].opposite,
            pa == grid.points@[ea as int].pos,
            pb == grid.points@[eb as int].pos,
            m == midpoint_spec(pa, pb),
            m.in_bound(COORD_MAX as int),
            ocv == edges@[e as int].center.spec_minus(m).spec_normalize(),
            ocv.in_bound(SCALE as int),
            s2 == SCALE * SCALE,
            nn == nbs@.len(),
            nbs@ == neighborhood_spec(
                pos,
                gcells,
                grid.cell_size,
                grid.dims,
                grid.lower,
                m,
                pivot_ignore(edges@, e as int),
            ),
            forall|t: int|
                0 <= t < nbs@.len() ==> ((#[trigger] nbs@[t]) as int) < grid.points@.len()
                    && !pivot_ignore(edges@, e as int).contains(nbs@[t]),
            0 <= i <= nn,
            pivot_scan(grid.points@, edges@, e as int, radius, m, nbs@, 0, None) == pivot_scan(
                grid.points@,
                edges@,
                e as int,
                radius,
                m,
                nbs@,
                i as int,
                best,
            ),
            best matches Some((p, c, f, d)) ==> {
                &&& (p as int) < grid.points@.len()
                &&& p != ea && p != eb && p != eop
                &&& c.in_bound(VEC_MAX as int)
                &&& !has_inner_adjacency(grid.points@, edges@, p, ea, eb)
            },
        decreases nn - i,
    {
        let p = nbs[i];
        let pp = grid.points[p].pos;
        let pn = grid.points[p].normal;
        let ghost ev = cand_eval(grid.points@, edges@, e as int, radius, m, p);
        proof {
            assert(pos[p as int] == grid.points@[p as int].pos);
            assert(pivot_ignore(edges@, e as int)[0] == ea);
            assert(pivot_ignore(edges@, e as int)[1] == eb);
            assert(pivot_ignore(edges@, e as int)[2] == eop);
        }
        let fnorm = face_normal(&pb, &pa, &pp);
        let dn = fnorm.dot(&pn);
        if dn >= 0 {
            match ball_center_of(&pb, &pa, &pp, radius) {
                Option::Some(c) => {
                    let cm = c.minus(&m);
                    let ncv = cm.normalize();
                    let d2 = ncv.dot(&fnorm);
                    if d2 >= 0 {
                        if !has_inner_adjacent(&grid.points, edges, p, ea, eb) {
                            let draw = ocv.dot(&ncv);
                            let d = if draw > s2 {
                                s2
                            } else if draw < -s2 {
                                -s2
                            } else {
                                draw
                            };
                            let cross_v = ncv.cross(&ocv);
                            proof {
                                crate::vec3::mul_mag_le(ncv.y as int, ocv.z as int, 65536, 65536, 0x1_0000_0000);
                                crate::vec3::mul_mag_le(ncv.z as int, ocv.y as int, 65536, 65536, 0x1_0000_0000);
                                crate::vec3::mul_mag_le(ncv.z as int, ocv.x as int, 65536, 65536, 0x1_0000_0000);
                                crate::vec3::mul_mag_le(ncv.x as int, ocv.z as int, 65536, 65536, 0x1_0000_0000);
                                crate::vec3::mul_mag_le(ncv.x as int, ocv.y as int, 65536, 65536, 0x1_0000_0000);
                                crate::vec3::mul_mag_le(ncv.y as int, ocv.x as int, 65536, 65536, 0x1_0000_0000);
                            }
                            let ab_dir = pa.minus(&pb);
                            let flag_dot = cross_v.dot_wide(&ab_dir);
                            let flag = flag_dot < 0;
                            proof {
                                assert(ev == Some((c, flag, d)));
                            }
                            let take = match &best {
                                Option::None => true,
                                Option::Some((bp, bc, bf, bd)) => (!flag && *bf) || (flag == *bf
                                    && d > *bd),
                            };
                            if take {
                                best = Some((p, c, flag, d));
                            }
                        } else {
                            proof {
                                assert(ev is None);
                            }
                        }
                    } else {
                        proof {
                            assert(ev is None);
                        }
                    }
                },
                Option::None => {
                    proof {
                        assert(ev is None);
                    }
                },
            }
        } else {
            proof {
                assert(ev is None);
            }
        }
        i += 1;
    }
    match best {
        Option::Some((p, c, f, d)) => {
            if ball_is_empty(&c, &grid.points, &nbs, radius) {
                Some(PivotResult { p, center: c })
            } else {
                None
            }
        },
        Option::None => None,
    }
}

} // verus!
