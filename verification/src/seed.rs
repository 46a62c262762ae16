//! Seed-triangle search: scan the grid cells in storage order and return the
//! first triangle that the pivot ball can rest on with no sample point
//! inside it. The search has a full mirror specification over the grid's
//! views, so the result is a function of positions, normals and cell
//! contents alone — in particular it ignores `used` flags and edge lists,
//! which makes re-running it on an unmodified cloud reproducible.

use vstd::prelude::*;

use crate::geometry::{
    ball_center_of, ball_center_spec, ball_empty_spec, ball_is_empty, face_normal,
    face_normal_spec,
};
use crate::grid::{cells_view, grid_wf, neighborhood_spec, Grid};
use crate::mesh::{nrm_view, points_geom_wf, pos_view, MeshPoint};
use crate::vec3::Vec3Fix;
use crate::{COORD_MAX, VEC_MAX};

verus! {

/// A successful seed search: the indices of the three vertices of the first
/// viable triangle, and the center of the ball resting on it.
#[derive(Clone, Copy, Debug, PartialEq, Eq)]
pub struct SeedResult {
    pub face: [usize; 3],
    pub ball_center: Vec3Fix,
}

/// The second candidate when the first search came up empty.
pub open spec fn or_else(a: Option<SeedResult>, b: Option<SeedResult>) -> Option<SeedResult> {
    match a {
        Option::Some(r) => Some(r),
        Option::None => b,
    }
}

/// Squared distance of vertex `j` to the anchor position.
pub open spec fn dist_key(pos: Seq<Vec3Fix>, anchor: Vec3Fix, j: usize) -> int {
    pos[j as int].spec_dist_sq(anchor)
}

/// Where a stable insertion by ascending key puts `x`: before the first
/// element with a strictly greater key, after every equal one.
pub open spec fn insert_pos(pos: Seq<Vec3Fix>, anchor: Vec3Fix, s: Seq<usize>, x: usize) -> int
    decreases s.len(),
{
    if s.len() == 0 {
        0
    } else if dist_key(pos, anchor, s[0]) > dist_key(pos, anchor, x) {
        0
    } else {
        1 + insert_pos(pos, anchor, s.subrange(1, s.len() as int), x)
    }
}

pub open spec fn insert_sorted(
    pos: Seq<Vec3Fix>,
    anchor: Vec3Fix,
    s: Seq<usize>,
    x: usize,
) -> Seq<usize> {
    s.insert(insert_pos(pos, anchor, s, x), x)
}

/// Stable insertion sort of the first `n` items by ascending squared
/// distance to the anchor; equal keys keep their scan order.
pub open spec fn sort_upto(
    pos: Seq<Vec3Fix>,
    anchor: Vec3Fix,
    items: Seq<usize>,
    n: int,
) -> Seq<usize>
    decreases n,
{
    if n <= 0 {
        Seq::<usize>::empty()
    } else {
        insert_sorted(pos, anchor, sort_upto(pos, anchor, items, n - 1), items[n - 1])
    }
}

pub open spec fn sort_by_dist_spec(
    pos: Seq<Vec3Fix>,
    anchor: Vec3Fix,
    items: Seq<usize>,
) -> Seq<usize> {
    sort_upto(pos, anchor, items, items.len() as int)
}

/// A forward scan that stops at the first strictly greater key finds the
/// insertion position.
proof fn lemma_insert_pos_char(pos: Seq<Vec3Fix>, anchor: Vec3Fix, s: Seq<usize>, x: usize, w: int)
    requires
        0 <= w <= s.len(),
        forall|m: int| 0 <= m < w ==> dist_key(pos, anchor, #[trigger] s[m]) <= dist_key(
            pos,
            anchor,
            x,
        ),
        w < s.len() ==> dist_key(pos, anchor, s[w]) > dist_key(pos, anchor, x),
    ensures
        insert_pos(pos, anchor, s, x) == w,
    decreases s.len(),
{
    if s.len() == 0 {
    } else if w == 0 {
    } else {
        let tail = s.subrange(1, s.len() as int);
        assert forall|m: int|
            0 <= m < w - 1 implies dist_key(pos, anchor, #[trigger] tail[m]) <= dist_key(
            pos,
            anchor,
            x,
        ) by {
            assert(tail[m] == s[m + 1]);
        }
        if w - 1 < tail.len() {
            assert(tail[w - 1] == s[w]);
        }
        lemma_insert_pos_char(pos, anchor, tail, x, w - 1);
    }
}

/// Stable insertion sort of vertex indices by ascending squared distance to
/// the anchor position.
pub fn sort_by_dist(points: &Vec<MeshPoint>, anchor: &Vec3Fix, items: &Vec<usize>) -> (r: Vec<
    usize,
>)
    requires
        points_geom_wf(points@),
        anchor.in_bound(COORD_MAX as int),
        forall|k: int| 0 <= k < items@.len() ==> (#[trigger] items@[k]) < points@.len(),
    ensures
        r@ == sort_by_dist_spec(pos_view(points@), *anchor, items@),
        r@.len() == items@.len(),
        forall|k: int| 0 <= k < r@.len() ==> items@.contains(#[trigger] r@[k]),
{
    let ghost pos = pos_view(points@);
    let mut res: Vec<usize> = Vec::new();
    let n = items.len();
    let mut i: usize = 0;
    while i < n
        invariant
            n == items@.len(),
            0 <= i <= n,
            pos == pos_view(points@),
            points_geom_wf(points@),
            anchor.in_bound(COORD_MAX as int),
            forall|k: int| 0 <= k < items@.len() ==> (#[trigger] items@[k]) < points@.len(),
            res@ == sort_upto(pos, *anchor, items@, i as int),
            res@.len() == i,
            forall|k: int| 0 <= k < res@.len() ==> items@.contains(#[trigger] res@[k]),
            forall|k: int| 0 <= k < res@.len() ==> (#[trigger] res@[k]) < points@.len(),
        decreases n - i,
    {
        let x = items[i];
        let px = points[x].pos;
        let kx = px.dist_sq(anchor);
        proof {
            assert(pos[x as int] == points@[x as int].pos);
        }
        let mut w: usize = 0;
        loop
            invariant
                0 <= w <= res@.len(),
                pos == pos_view(points@),
                points_geom_wf(points@),
                anchor.in_bound(COORD_MAX as int),
                kx == dist_key(pos, *anchor, x),
                forall|k: int| 0 <= k < res@.len() ==> (#[trigger] res@[k]) < points@.len(),
                forall|m: int| 0 <= m < w ==> dist_key(pos, *anchor, #[trigger] res@[m]) <= kx,
            ensures
                0 <= w <= res@.len(),
                forall|m: int| 0 <= m < w ==> dist_key(pos, *anchor, #[trigger] res@[m]) <= kx,
                w < res@.len() ==> dist_key(pos, *anchor, res@[w as int]) > kx,
            decreases res@.len() - w,
        {
            if w >= res.len() {
                break;
            }
            let e = res[w];
            let pe = points[e].pos;
            let ke = pe.dist_sq(anchor);
            proof {
                assert(pos[e as int] == points@[e as int].pos);
            }
            if ke > kx {
                break;
            }
            w += 1;
        }
        proof {
            lemma_insert_pos_char(pos, *anchor, res@, x, w as int);
        }
        let ghost before = res@;
        res.insert(w, x);
        proof {
            assert(res@ == insert_sorted(pos, *anchor, before, x));
            assert(res@ == sort_upto(pos, *anchor, items@, i as int + 1));
            assert forall|k: int| 0 <= k < res@.len() implies items@.contains(
                #[trigger] res@[k],
            ) && (res@[k] as int) < points@.len() by {
                if k < w {
                    assert(res@[k] == before[k]);
                } else if k == w {
                    assert(res@[k] == x);
                    assert(items@[i as int] == x);
                } else {
                    assert(res@[k] == before[k - 1]);
                }
            }
        }
        i += 1;
    }
    res
}

/// Sum of the normals of the first `k` vertices in the list.
pub open spec fn cell_normal_sum(nrm: Seq<Vec3Fix>, list: Seq<usize>, k: int) -> Vec3Fix
    decreases k,
{
    if k <= 0 {
        Vec3Fix::spec_zero()
    } else {
        cell_normal_sum(nrm, list, k - 1).spec_plus(nrm[list[k - 1] as int])
    }
}

/// One candidate triple `(p1, p2, p3)`: the two scanned vertices must be
/// distinct, the triangle's normal may not point against the cell's average
/// normal (a zero average disables that filter, since the dot is then zero),
/// a ball of the given radius must rest on the triangle, and that ball must
/// hold no neighborhood vertex strictly inside it.
pub open spec fn seed_check(
    pos: Seq<Vec3Fix>,
    radius: i64,
    avg: Vec3Fix,
    nbs: Seq<usize>,
    p1: usize,
    p2: usize,
    p3: usize,
) -> Option<SeedResult> {
    if p2 == p3 {
        None
    } else {
        let fnorm = face_normal_spec(pos[p1 as int], pos[p2 as int], pos[p3 as int]);
        if fnorm.spec_dot(avg) < 0 {
            None
        } else {
            match ball_center_spec(pos[p1 as int], pos[p2 as int], pos[p3 as int], radius) {
                Option::None => None,
                Option::Some(c) => if ball_empty_spec(c, pos, nbs, radius) {
                    Some(SeedResult { face: [p1, p2, p3], ball_center: c })
                } else {
                    None
                },
            }
        }
    }
}

pub open spec fn seed_scan_p3(
    pos: Seq<Vec3Fix>,
    radius: i64,
    avg: Vec3Fix,
    nbs: Seq<usize>,
    p1: usize,
    p2: usize,
    i3: int,
) -> Option<SeedResult>
    decreases nbs.len() - i3,
{
    if i3 < 0 || i3 >= nbs.len() {
        None
    } else {
        or_else(
            seed_check(pos, radius, avg, nbs, p1, p2, nbs[i3]),
            seed_scan_p3(pos, radius, avg, nbs, p1, p2, i3 + 1),
        )
    }
}

pub open spec fn seed_scan_p2(
    pos: Seq<Vec3Fix>,
    radius: i64,
    avg: Vec3Fix,
    nbs: Seq<usize>,
    p1: usize,
    i2: int,
) -> Option<SeedResult>
    decreases nbs.len() - i2,
{
    if i2 < 0 || i2 >= nbs.len() {
        None
    } else {
        or_else(
            seed_scan_p3(pos, radius, avg, nbs, p1, nbs[i2], 0),
            seed_scan_p2(pos, radius, avg, nbs, p1, i2 + 1),
        )
    }
}

/// The candidate neighborhood of `p1`: everything near it except itself,
/// sorted by ascending squared distance.
pub open spec fn seed_nbs(
    pos: Seq<Vec3Fix>,
    cells: Seq<Seq<usize>>,
    cs: i64,
    dims: crate::grid::Dims,
    lower: Vec3Fix,
    p1: usize,
) -> Seq<usize> {
    sort_by_dist_spec(
        pos,
        pos[p1 as int],
        neighborhood_spec(pos, cells, cs, dims, lower, pos[p1 as int], seq![p1]),
    )
}

pub open spec fn seed_in_cell(
    pos: Seq<Vec3Fix>,
    cells: Seq<Seq<usize>>,
    cs: i64,
    dims: crate::grid::Dims,
    lower: Vec3Fix,
    radius: i64,
    avg: Vec3Fix,
    c: int,
    k: int,
) -> Option<SeedResult>
    decreases cells[c].len() - k,
{
    if k < 0 || k >= cells[c].len() {
        None
    } else {
        let p1 = cells[c][k];
        let nbs = seed_nbs(pos, cells, cs, dims, lower, p1);
        or_else(
            seed_scan_p2(pos, radius, avg, nbs, p1, 0),
            seed_in_cell(pos, cells, cs, dims, lower, radius, avg, c, k + 1),
        )
    }
}

pub open spec fn seed_scan_cells(
    pos: Seq<Vec3Fix>,
    nrm: Seq<Vec3Fix>,
    cells: Seq<Seq<usize>>,
    cs: i64,
    dims: crate::grid::Dims,
    lower: Vec3Fix,
    radius: i64,
    c: int,
) -> Option<SeedResult>
    decreases cells.len() - c,
{
    if c < 0 || c >= cells.len() {
        None
    } else {
        let avg = cell_normal_sum(nrm, cells[c], cells[c].len() as int).spec_normalize();
        or_else(
            seed_in_cell(pos, cells, cs, dims, lower, radius, avg, c, 0),
            seed_scan_cells(pos, nrm, cells, cs, dims, lower, radius, c + 1),
        )
    }
}

/// The first viable seed triangle over the whole grid, scanning cells in
/// storage order, each cell's vertices in insertion order, and candidate
/// pairs in sorted-neighborhood order. Depends only on positions, normals
/// and cell contents.
pub open spec fn seed_spec(
    pos: Seq<Vec3Fix>,
    nrm: Seq<Vec3Fix>,
    cells: Seq<Seq<usize>>,
    cs: i64,
    dims: crate::grid::Dims,
    lower: Vec3Fix,
    radius: i64,
) -> Option<SeedResult> {
    seed_scan_cells(pos, nrm, cells, cs, dims, lower, radius, 0)
}

/// Re-seeding is reproducible: the seed search reads only positions, normals
/// and cell contents — never `used` flags or incident-edge lists — so two
/// grids whose vertices agree on position and normal (for instance the same
/// grid before and after an earlier search, which only sets `used` flags)
/// yield the same triangle.
pub proof fn lemma_seed_search_reproducible(g1: &Grid, g2: &Grid, radius: i64)
    requires
        g1.points@.len() == g2.points@.len(),
        forall|i: int|
            0 <= i < g1.points@.len() ==> (#[trigger] g1.points@[i]).pos == g2.points@[i].pos
                && g1.points@[i].normal == g2.points@[i].normal,
        cells_view(g1.cells@) == cells_view(g2.cells@),
        g1.cell_size == g2.cell_size,
        g1.dims == g2.dims,
        g1.lower == g2.lower,
    ensures
        seed_spec(
            pos_view(g1.points@),
            nrm_view(g1.points@),
            cells_view(g1.cells@),
            g1.cell_size,
            g1.dims,
            g1.lower,
            radius,
        ) == seed_spec(
            pos_view(g2.points@),
            nrm_view(g2.points@),
            cells_view(g2.cells@),
            g2.cell_size,
            g2.dims,
            g2.lower,
            radius,
        ),
{
    assert(pos_view(g1.points@) =~= pos_view(g2.points@));
    assert(nrm_view(g1.points@) =~= nrm_view(g2.points@));
}

/// The insertion position is an index into the extended sequence.
proof fn lemma_insert_pos_bounds(pos: Seq<Vec3Fix>, anchor: Vec3Fix, s: Seq<usize>, x: usize)
    ensures
        0 <= insert_pos(pos, anchor, s, x) <= s.len(),
    decreases s.len(),
{
    if s.len() > 0 {
        lemma_insert_pos_bounds(pos, anchor, s.subrange(1, s.len() as int), x);
    }
}

/// Sorting keeps every element a valid vertex other than the anchor vertex.
proof fn lemma_sort_keeps(
    pos: Seq<Vec3Fix>,
    anchor: Vec3Fix,
    items: Seq<usize>,
    n: int,
    p1: usize,
)
    requires
        0 <= n <= items.len(),
        forall|m: int|
            0 <= m < items.len() ==> ((#[trigger] items[m]) as int) < pos.len() && items[m] != p1,
    ensures
        forall|t: int|
            0 <= t < sort_upto(pos, anchor, items, n).len() ==> ((#[trigger] sort_upto(
                pos,
                anchor,
                items,
                n,
            )[t]) as int) < pos.len() && sort_upto(pos, anchor, items, n)[t] != p1,
    decreases n,
{
    if n > 0 {
        lemma_sort_keeps(pos, anchor, items, n - 1, p1);
        let prev = sort_upto(pos, anchor, items, n - 1);
        let cur = sort_upto(pos, anchor, items, n);
        let x = items[n - 1];
        let w = insert_pos(pos, anchor, prev, x);
        lemma_insert_pos_bounds(pos, anchor, prev, x);
        prev.insert_ensures(w, x);
        assert forall|t: int|
            0 <= t < cur.len() implies ((#[trigger] cur[t]) as int) < pos.len() && cur[t]
            != p1 by {
            if t < w {
                assert(cur[t] == prev[t]);
            } else if t == w {
                assert(cur[t] == x);
            } else {
                assert(cur[t] == prev[t - 1]);
            }
        }
    }
}

/// With at most two sample points, no candidate pair is ever distinct: the
/// inner pair scan finds nothing.
proof fn lemma_scan_p3_sparse(
    pos: Seq<Vec3Fix>,
    radius: i64,
    avg: Vec3Fix,
    nbs: Seq<usize>,
    p1: usize,
    p2: usize,
    i3: int,
)
    requires
        pos.len() <= 2,
        (p1 as int) < pos.len(),
        (p2 as int) < pos.len(),
        p2 != p1,
        0 <= i3,
        forall|t: int|
            0 <= t < nbs.len() ==> ((#[trigger] nbs[t]) as int) < pos.len() && nbs[t] != p1,
    ensures
        seed_scan_p3(pos, radius, avg, nbs, p1, p2, i3) is None,
    decreases nbs.len() - i3,
{
    if i3 < nbs.len() {
        let p3 = nbs[i3];
        assert(p2 == p3);
        lemma_scan_p3_sparse(pos, radius, avg, nbs, p1, p2, i3 + 1);
    }
}

proof fn lemma_scan_p2_sparse(
    pos: Seq<Vec3Fix>,
    radius: i64,
    avg: Vec3Fix,
    nbs: Seq<usize>,
    p1: usize,
    i2: int,
)
    requires
        pos.len() <= 2,
        (p1 as int) < pos.len(),
        0 <= i2,
        forall|t: int|
            0 <= t < nbs.len() ==> ((#[trigger] nbs[t]) as int) < pos.len() && nbs[t] != p1,
    ensures
        seed_scan_p2(pos, radius, avg, nbs, p1, i2) is None,
    decreases nbs.len() - i2,
{
    if i2 < nbs.len() {
        lemma_scan_p3_sparse(pos, radius, avg, nbs, p1, nbs[i2], 0);
        lemma_scan_p2_sparse(pos, radius, avg, nbs, p1, i2 + 1);
    }
}

proof fn lemma_in_cell_sparse(
    pos: Seq<Vec3Fix>,
    cells: Seq<Seq<usize>>,
    cs: i64,
    dims: crate::grid::Dims,
    lower: Vec3Fix,
    radius: i64,
    avg: Vec3Fix,
    c: int,
    k: int,
)
    requires
        pos.len() <= 2,
        0 <= c < cells.len(),
        0 <= k,
        cells.len() == dims.x * dims.y * dims.z,
        forall|ci: int, m: int|
            0 <= ci < cells.len() && 0 <= m < cells[ci].len() ==> ((#[trigger] cells[ci][m]) as int)
                < pos.len(),
    ensures
        seed_in_cell(pos, cells, cs, dims, lower, radius, avg, c, k) is None,
    decreases cells[c].len() - k,
{
    if k < cells[c].len() {
        let p1 = cells[c][k];
        let raw = neighborhood_spec(pos, cells, cs, dims, lower, pos[p1 as int], seq![p1]);
        crate::grid::lemma_neighborhood_elems(
            pos,
            cells,
            cs,
            dims,
            lower,
            pos[p1 as int],
            seq![p1],
            27,
        );
        assert forall|t: int|
            0 <= t < raw.len() implies ((#[trigger] raw[t]) as int) < pos.len() && raw[t]
            != p1 by {
            assert(crate::grid::nb_keep(pos, cs, pos[p1 as int], seq![p1], raw[t]));
            assert(seq![p1][0] == p1);
        }
        let nbs = seed_nbs(pos, cells, cs, dims, lower, p1);
        lemma_sort_keeps(pos, pos[p1 as int], raw, raw.len() as int, p1);
        lemma_scan_p2_sparse(pos, radius, avg, nbs, p1, 0);
        lemma_in_cell_sparse(pos, cells, cs, dims, lower, radius, avg, c, k + 1);
    }
}

proof fn lemma_scan_cells_sparse(
    pos: Seq<Vec3Fix>,
    nrm: Seq<Vec3Fix>,
    cells: Seq<Seq<usize>>,
    cs: i64,
    dims: crate::grid::Dims,
    lower: Vec3Fix,
    radius: i64,
    c: int,
)
    requires
        pos.len() <= 2,
        0 <= c,
        cells.len() == dims.x * dims.y * dims.z,
        forall|ci: int, m: int|
            0 <= ci < cells.len() && 0 <= m < cells[ci].len() ==> ((#[trigger] cells[ci][m]) as int)
                < pos.len(),
    ensures
        seed_scan_cells(pos, nrm, cells, cs, dims, lower, radius, c) is None,
    decreases cells.len() - c,
{
    if c < cells.len() {
        let avg = cell_normal_sum(nrm, cells[c], cells[c].len() as int).spec_normalize();
        lemma_in_cell_sparse(pos, cells, cs, dims, lower, radius, avg, c, 0);
        lemma_scan_cells_sparse(pos, nrm, cells, cs, dims, lower, radius, c + 1);
    }
}

/// A cloud of at most two points admits no seed triangle: the search needs
/// two distinct neighbors besides its anchor vertex, and there are none.
pub proof fn lemma_seed_sparse(
    pos: Seq<Vec3Fix>,
    nrm: Seq<Vec3Fix>,
    cells: Seq<Seq<usize>>,
    cs: i64,
    dims: crate::grid::Dims,
    lower: Vec3Fix,
    radius: i64,
)
    requires
        pos.len() <= 2,
        cells.len() == dims.x * dims.y * dims.z,
        forall|ci: int, m: int|
            0 <= ci < cells.len() && 0 <= m < cells[ci].len() ==> ((#[trigger] cells[ci][m]) as int)
                < pos.len(),
    ensures
        seed_spec(pos, nrm, cells, cs, dims, lower, radius) is None,
{
    lemma_scan_cells_sparse(pos, nrm, cells, cs, dims, lower, radius, 0);
}

/// Scan the grid for the first triangle a ball of the given radius can rest
/// on without enclosing any neighborhood vertex, and mark its three vertices
/// used. Returns `None` when no cell yields a viable triangle.
#[verifier::rlimit(100)]
pub fn find_seed_triangle(grid: &mut Grid, radius: i64) -> (r: Option<SeedResult>)
    requires
        grid_wf(*old(grid)),
        1 <= radius <= COORD_MAX,
    ensures
        r == seed_spec(
            pos_view(old(grid).points@),
            nrm_view(old(grid).points@),
            cells_view(old(grid).cells@),
            old(grid).cell_size,
            old(grid).dims,
            old(grid).lower,
            radius,
        ),
        grid_wf(*final(grid)),
        final(grid).cells == old(grid).cells,
        final(grid).cell_size == old(grid).cell_size,
        final(grid).dims == old(grid).dims,
        final(grid).lower == old(grid).lower,
        final(grid).points@.len() == old(grid).points@.len(),
        forall|i: int|
            0 <= i < old(grid).points@.len() ==> {
                &&& (#[trigger] final(grid).points@[i]).pos == old(grid).points@[i].pos
                &&& final(grid).points@[i].normal == old(grid).points@[i].normal
                &&& final(grid).points@[i].edges@ == old(grid).points@[i].edges@
            },
        r is None ==> final(grid).points@ == old(grid).points@,
        r matches Some(s) ==> {
            &&& (s.face[0] as int) < old(grid).points@.len()
            &&& (s.face[1] as int) < old(grid).points@.len()
            &&& (s.face[2] as int) < old(grid).points@.len()
            &&& s.face[0] != s.face[1] && s.face[1] != s.face[2] && s.face[0] != s.face[2]
            &&& s.ball_center.in_bound(VEC_MAX as int)
            &&& final(grid).points@[s.face[0] as int].used
            &&& final(grid).points@[s.face[1] as int].used
            &&& final(grid).points@[s.face[2] as int].used
            &&& forall|i: int|
                0 <= i < old(grid).points@.len() && i != s.face[0] && i != s.face[1] && i
                    != s.face[2] ==> (#[trigger] final(grid).points@[i]).used == old(
                    grid,
                ).points@[i].used
        },
{
    let ghost pos = pos_view(grid.points@);
    let ghost nrm = nrm_view(grid.points@);
    let ghost gcells = cells_view(grid.cells@);
    let ghost cs = grid.cell_size;
    let ghost dims = grid.dims;
    let ghost lower = grid.lower;
    let ncells = grid.cells.len();
    let mut c: usize = 0;
    while c < ncells
        invariant
            grid_wf(*grid),
            *grid == *old(grid),
            1 <= radius <= COORD_MAX,
            pos == pos_view(grid.points@),
            nrm == nrm_view(grid.points@),
            gcells == cells_view(grid.cells@),
            cs == grid.cell_size,
            dims == grid.dims,
            lower == grid.lower,
            ncells == grid.cells@.len(),
            0 <= c <= ncells,
            seed_scan_cells(pos, nrm, gcells, cs, dims, lower, radius, 0) == seed_scan_cells(
                pos,
                nrm,
                gcells,
                cs,
                dims,
                lower,
                radius,
                c as int,
            ),
        decreases ncells - c,
    {
        // Average normal of the cell's vertices; a canceling sum stays zero
        // and then filters nothing.
        let m = grid.cells[c].len();
        let mut sum = Vec3Fix::zero();
        let mut k: usize = 0;
        while k < m
            invariant
                grid_wf(*grid),
                pos == pos_view(grid.points@),
                nrm == nrm_view(grid.points@),
                gcells == cells_view(grid.cells@),
                (c as int) < gcells.len(),
                m == gcells[c as int].len(),
                0 <= k <= m,
                m <= grid.points@.len(),
                sum == cell_normal_sum(nrm, gcells[c as int], k as int),
                sum.in_bound(k as int * COORD_MAX as int),
            decreases m - k,
        {
            let j = grid.cells[c][k];
            let nj = grid.points[j].normal;
            proof {
                assert(nrm[j as int] == grid.points@[j as int].normal);
                assert(grid.points@[j as int].normal.in_bound(COORD_MAX as int));
            }
            sum = Vec3Fix { x: sum.x + nj.x, y: sum.y + nj.y, z: sum.z + nj.z };
            k += 1;
        }
        let avg = sum.normalize();
        let ghost cavg = cell_normal_sum(nrm, gcells[c as int], gcells[c as int].len() as int)
            .spec_normalize();
        proof {
            assert(avg == cavg);
        }
        // Each vertex of the cell in turn.
        let mut k: usize = 0;
        while k < m
            invariant
                grid_wf(*grid),
                *grid == *old(grid),
                1 <= radius <= COORD_MAX,
                pos == pos_view(grid.points@),
                nrm == nrm_view(grid.points@),
                gcells == cells_view(grid.cells@),
                cs == grid.cell_size,
                dims == grid.dims,
                lower == grid.lower,
                ncells == grid.cells@.len(),
                0 <= c < ncells,
                m == gcells[c as int].len(),
                0 <= k <= m,
                avg == cavg,
                avg.in_bound(crate::SCALE as int),
                seed_scan_cells(pos, nrm, gcells, cs, dims, lower, radius, 0) == or_else(
                    seed_in_cell(pos, gcells, cs, dims, lower, radius, avg, c as int, k as int),
                    seed_scan_cells(pos, nrm, gcells, cs, dims, lower, radius, c as int + 1),
                ),
            decreases m - k,
        {
            let p1 = grid.cells[c][k];
            let p1pos = grid.points[p1].pos;
            proof {
                assert(pos[p1 as int] == grid.points@[p1 as int].pos);
            }
            let ignore: Vec<usize> = vec![p1];
            proof {
                assert(ignore@ =~= seq![p1]);
            }
            let nb_raw = grid.spherical_neighborhood(&p1pos, &ignore);
            let nbs = sort_by_dist(&grid.points, &p1pos, &nb_raw);
            let ghost snbs = seed_nbs(pos, gcells, cs, dims, lower, p1);
            proof {
                assert(nbs@ == snbs);
                assert forall|t: int| 0 <= t < nbs@.len() implies ((#[trigger] nbs@[t]) as int)
                    < grid.points@.len() && nbs@[t] != p1 by {
                    assert(nb_raw@.contains(nbs@[t]));
                    let w = choose|w: int| 0 <= w < nb_raw@.len() && nb_raw@[w] == nbs@[t];
                    assert(!ignore@.contains(nb_raw@[w]));
                    assert(ignore@[0] == p1);
                }
            }
            let nn = nbs.len();
            let mut i2: usize = 0;
            while i2 < nn
                invariant
                    grid_wf(*grid),
                    *grid == *old(grid),
                    1 <= radius <= COORD_MAX,
                    pos == pos_view(grid.points@),
                    nrm == nrm_view(grid.points@),
                    gcells == cells_view(grid.cells@),
                    cs == grid.cell_size,
                    dims == grid.dims,
                    lower == grid.lower,
                    ncells == grid.cells@.len(),
                    0 <= c < ncells,
                    m == gcells[c as int].len(),
                    0 <= k < m,
                    p1 == gcells[c as int][k as int],
                    (p1 as int) < grid.points@.len(),
                    p1pos == pos[p1 as int],
                    avg == cavg,
                    avg.in_bound(crate::SCALE as int),
                    nbs@ == snbs,
                    snbs == seed_nbs(pos, gcells, cs, dims, lower, p1),
                    nn == nbs@.len(),
                    0 <= i2 <= nn,
                    forall|t: int|
                        0 <= t < nbs@.len() ==> ((#[trigger] nbs@[t]) as int)
                            < grid.points@.len() && nbs@[t] != p1,
                    seed_scan_cells(pos, nrm, gcells, cs, dims, lower, radius, 0) == or_else(
                        or_else(
                            seed_scan_p2(pos, radius, avg, snbs, p1, i2 as int),
                            seed_in_cell(
                                pos,
                                gcells,
                                cs,
                                dims,
                                lower,
                                radius,
                                avg,
                                c as int,
                                k as int + 1,
                            ),
                        ),
                        seed_scan_cells(pos, nrm, gcells, cs, dims, lower, radius, c as int + 1),
                    ),
                decreases nn - i2,
            {
                let p2 = nbs[i2];
                let mut i3: usize = 0;
                while i3 < nn
                    invariant
                        grid_wf(*grid),
                        *grid == *old(grid),
                        1 <= radius <= COORD_MAX,
                        pos == pos_view(grid.points@),
                        nrm == nrm_view(grid.points@),
                        gcells == cells_view(grid.cells@),
                        cs == grid.cell_size,
                        dims == grid.dims,
                        lower == grid.lower,
                        ncells == grid.cells@.len(),
                        0 <= c < ncells,
                        m == gcells[c as int].len(),
                        0 <= k < m,
                        p1 == gcells[c as int][k as int],
                        (p1 as int) < grid.points@.len(),
                        p1pos == pos[p1 as int],
                        avg == cavg,
                        avg.in_bound(crate::SCALE as int),
                        nbs@ == snbs,
                        snbs == seed_nbs(pos, gcells, cs, dims, lower, p1),
                        nn == nbs@.len(),
                        0 <= i2 < nn,
                        p2 == nbs@[i2 as int],
                        0 <= i3 <= nn,
                        forall|t: int|
                            0 <= t < nbs@.len() ==> ((#[trigger] nbs@[t]) as int)
                                < grid.points@.len() && nbs@[t] != p1,
                        seed_scan_cells(pos, nrm, gcells, cs, dims, lower, radius, 0) == or_else(
                            or_else(
                                or_else(
                                    seed_scan_p3(pos, radius, avg, snbs, p1, p2, i3 as int),
                                    seed_scan_p2(pos, radius, avg, snbs, p1, i2 as int + 1),
                                ),
                                seed_in_cell(
                                    pos,
                                    gcells,
                                    cs,
                                    dims,
                                    lower,
                                    radius,
                                    avg,
                                    c as int,
                                    k as int + 1,
                                ),
                            ),
                            seed_scan_cells(
                                pos,
                                nrm,
                                gcells,
                                cs,
                                dims,
                                lower,
                                radius,
                                c as int + 1,
                            ),
                        ),
                    decreases nn - i3,
                {
                    let p3 = nbs[i3];
                    let ghost check = seed_check(pos, radius, avg, snbs, p1, p2, p3);
                    if p2 != p3 {
                        let pa = grid.points[p1].pos;
                        let pb = grid.points[p2].pos;
                        let pc = grid.points[p3].pos;
                        proof {
                            assert(pos[p2 as int] == grid.points@[p2 as int].pos);
                            assert(pos[p3 as int] == grid.points@[p3 as int].pos);
                        }
                        let fnorm = face_normal(&pa, &pb, &pc);
                        let d = fnorm.dot(&avg);
                        if d >= 0 {
                            match ball_center_of(&pa, &pb, &pc, radius) {
                                Option::Some(bc) => {
                                    if ball_is_empty(&bc, &grid.points, &nbs, radius) {
                                        grid.points[p1].used = true;
                                        grid.points[p2].used = true;
                                        grid.points[p3].used = true;
                                        let s = SeedResult { face: [p1, p2, p3], ball_center: bc };
                                        proof {
                                            assert(check == Some(s));
                                            assert(seed_scan_p3(
                                                pos,
                                                radius,
                                                avg,
                                                snbs,
                                                p1,
                                                p2,
                                                i3 as int,
                                            ) == Some(s));
                                            assert(grid_wf(*grid));
                                        }
                                        return Some(s);
                                    }
                                },
                                Option::None => {},
                            }
                        }
                    }
                    proof {
                        assert(check is None);
                        assert(seed_scan_p3(pos, radius, avg, snbs, p1, p2, i3 as int)
                            == seed_scan_p3(pos, radius, avg, snbs, p1, p2, i3 as int + 1));
                    }
                    i3 += 1;
                }
                i2 += 1;
            }
            k += 1;
        }
        c += 1;
    }
    None
}

} // verus!
