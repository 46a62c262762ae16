//! Uniform spatial grid over the point cloud: the bounding box is cut into
//! cells of side `2 * radius` (at least one per axis), each point lands in
//! the cell under its position, and neighbor queries walk the 3x3x3 block of
//! cells around a query point. Construction and the query both have exact
//! mirror specifications, so the whole reconstruction is a function of the
//! input cloud alone.

use vstd::prelude::*;

use crate::mesh::{points_geom_wf, pos_view, MeshPoint, Point};
use crate::vec3::{div_trunc_spec, mul_mag_le, Vec3Fix};
use crate::{CELLS_MAX, COORD_MAX, NPOINTS_MAX};

verus! {

/// Cell counts along the three axes.
#[derive(Clone, Copy, Debug, PartialEq, Eq, Structural)]
pub struct Dims {
    pub x: usize,
    pub y: usize,
    pub z: usize,
}

/// The bucket grid. `cells` stores indices into `points`, flattened with `z`
/// varying slowest: `index = z * (dims.x * dims.y) + y * dims.x + x`.
#[derive(Debug)]
pub struct Grid {
    pub cell_size: i64,
    pub dims: Dims,
    pub cells: Vec<Vec<usize>>,
    pub lower: Vec3Fix,
    pub points: Vec<MeshPoint>,
}

/// Contents of the cells as sequences.
pub open spec fn cells_view(cells: Seq<Vec<usize>>) -> Seq<Seq<usize>> {
    cells.map_values(|c: Vec<usize>| c@)
}

pub open spec fn min_i64(a: i64, b: i64) -> i64 {
    if a <= b {
        a
    } else {
        b
    }
}

pub open spec fn max_i64(a: i64, b: i64) -> i64 {
    if a <= b {
        b
    } else {
        a
    }
}

/// Componentwise minimum of the first `n` positions.
pub open spec fn lower_upto(points: Seq<Point>, n: int) -> Vec3Fix
    decreases n,
{
    if n <= 1 {
        points[0].pos
    } else {
        let prev = lower_upto(points, n - 1);
        let p = points[n - 1].pos;
        Vec3Fix { x: min_i64(prev.x, p.x), y: min_i64(prev.y, p.y), z: min_i64(prev.z, p.z) }
    }
}

/// Componentwise maximum of the first `n` positions.
pub open spec fn upper_upto(points: Seq<Point>, n: int) -> Vec3Fix
    decreases n,
{
    if n <= 1 {
        points[0].pos
    } else {
        let prev = upper_upto(points, n - 1);
        let p = points[n - 1].pos;
        Vec3Fix { x: max_i64(prev.x, p.x), y: max_i64(prev.y, p.y), z: max_i64(prev.z, p.z) }
    }
}

pub open spec fn grid_lower_spec(points: Seq<Point>) -> Vec3Fix {
    lower_upto(points, points.len() as int)
}

pub open spec fn grid_upper_spec(points: Seq<Point>) -> Vec3Fix {
    upper_upto(points, points.len() as int)
}

/// Cells along one axis: the extent divided by the cell size, rounded up,
/// and at least one.
pub open spec fn axis_cells(lo: i64, hi: i64, cs: i64) -> int {
    let d = (hi - lo + cs - 1) / (cs as int);
    if d < 1 {
        1
    } else {
        d
    }
}

pub open spec fn grid_dims_spec(points: Seq<Point>, radius: i64) -> Dims {
    let lo = grid_lower_spec(points);
    let hi = grid_upper_spec(points);
    let cs = 2 * radius as int;
    Dims {
        x: axis_cells(lo.x, hi.x, cs as i64) as usize,
        y: axis_cells(lo.y, hi.y, cs as i64) as usize,
        z: axis_cells(lo.z, hi.z, cs as i64) as usize,
    }
}

pub open spec fn cell_count_spec(points: Seq<Point>, radius: i64) -> int {
    let d = grid_dims_spec(points, radius);
    d.x * d.y * d.z
}

/// Cell coordinate of `q` along one axis: truncated division of the offset
/// from the grid's lower corner, clamped into `[0, d-1]`.
pub open spec fn cell_axis(q: i64, lo: i64, cs: i64, d: int) -> int {
    let i = div_trunc_spec(q - lo, cs as int);
    if i < 0 {
        0
    } else if i >= d {
        d - 1
    } else {
        i
    }
}

/// Flattened cell index.
pub open spec fn flat_idx(ix: int, iy: int, iz: int, dims: Dims) -> int {
    iz * (dims.x * dims.y) + iy * dims.x + ix
}

/// Flattened cell index of position `q`.
pub open spec fn cell_of_pos(lower: Vec3Fix, cs: i64, dims: Dims, q: Vec3Fix) -> int {
    flat_idx(
        cell_axis(q.x, lower.x, cs, dims.x as int),
        cell_axis(q.y, lower.y, cs, dims.y as int),
        cell_axis(q.z, lower.z, cs, dims.z as int),
        dims,
    )
}

/// Empty cell contents, one per flattened index.
pub open spec fn empty_cells(m: int) -> Seq<Seq<usize>> {
    Seq::new(m as nat, |i: int| Seq::<usize>::empty())
}

/// Cell contents after inserting the first `n` points, in index order.
pub open spec fn cells_after(points: Seq<Point>, radius: i64, n: int) -> Seq<Seq<usize>>
    decreases n,
{
    if n <= 0 {
        empty_cells(cell_count_spec(points, radius))
    } else {
        let prev = cells_after(points, radius, n - 1);
        let lower = grid_lower_spec(points);
        let dims = grid_dims_spec(points, radius);
        let c = cell_of_pos(lower, (2 * radius) as i64, dims, points[n - 1].pos);
        prev.update(c, prev[c].push((n - 1) as usize))
    }
}

pub open spec fn grid_cells_spec(points: Seq<Point>, radius: i64) -> Seq<Seq<usize>> {
    cells_after(points, radius, points.len() as int)
}

/// The operational well-formedness of a grid: bounded geometry, at least one
/// cell per axis, the flat cell array matching the dimensions, and every
/// stored index naming a vertex.
pub open spec fn grid_wf(g: Grid) -> bool {
    &&& 1 <= g.points@.len() <= NPOINTS_MAX
    &&& points_geom_wf(g.points@)
    &&& 2 <= g.cell_size <= 2 * COORD_MAX
    &&& g.lower.in_bound(COORD_MAX as int)
    &&& g.dims.x >= 1 && g.dims.y >= 1 && g.dims.z >= 1
    &&& g.cells@.len() == g.dims.x * g.dims.y * g.dims.z
    &&& g.cells@.len() <= CELLS_MAX
    &&& forall|c: int, k: int|
        0 <= c < g.cells@.len() && 0 <= k < g.cells@[c]@.len() ==> (#[trigger] g.cells@[c]@[k])
            < g.points@.len()
    &&& forall|c: int| 0 <= c < g.cells@.len() ==> (#[trigger] g.cells@[c])@.len() <= g.points@.len()
}

/// All inputs the library accepts: a non-empty, bounded cloud, a positive
/// bounded radius, and a grid that fits in memory.
pub open spec fn input_ok(points: Seq<Point>, radius: i64) -> bool {
    &&& 1 <= points.len() <= NPOINTS_MAX
    &&& forall|i: int|
        0 <= i < points.len() ==> (#[trigger] points[i]).pos.in_bound(COORD_MAX as int)
            && points[i].normal.in_bound(COORD_MAX as int)
    &&& 1 <= radius <= COORD_MAX
    &&& cell_count_spec(points, radius) <= CELLS_MAX
}

/// A flattened index stays within the cell array.
proof fn lemma_flat_in_range(ix: int, iy: int, iz: int, dx: int, dy: int, dz: int)
    by (nonlinear_arith)
    requires
        0 <= ix < dx,
        0 <= iy < dy,
        0 <= iz < dz,
    ensures
        0 <= iz * (dx * dy) + iy * dx + ix < dx * dy * dz,
{
}

/// Bounds on the factors of a capped product of cell counts.
proof fn lemma_prod3_bounds(dx: int, dy: int, dz: int, cap: int)
    by (nonlinear_arith)
    requires
        1 <= dx,
        1 <= dy,
        1 <= dz,
        dx * dy * dz <= cap,
    ensures
        dx * dy <= cap,
        dx <= cap,
        dy <= cap,
        dz <= cap,
{
}

/// The bounding-box corners are themselves bounded positions.
proof fn lemma_bbox_bounds(points: Seq<Point>, n: int)
    requires
        1 <= n <= points.len(),
        forall|i: int| 0 <= i < points.len() ==> (#[trigger] points[i]).pos.in_bound(COORD_MAX as int),
    ensures
        lower_upto(points, n).in_bound(COORD_MAX as int),
        upper_upto(points, n).in_bound(COORD_MAX as int),
        lower_upto(points, n).x <= upper_upto(points, n).x,
        lower_upto(points, n).y <= upper_upto(points, n).y,
        lower_upto(points, n).z <= upper_upto(points, n).z,
    decreases n,
{
    if n > 1 {
        lemma_bbox_bounds(points, n - 1);
    }
}

/// For accepted inputs the grid dimensions are well formed and every
/// position's flattened cell index lands inside the cell array.
pub proof fn lemma_dims_facts(points: Seq<Point>, radius: i64)
    requires
        input_ok(points, radius),
    ensures
        grid_dims_spec(points, radius).x >= 1,
        grid_dims_spec(points, radius).y >= 1,
        grid_dims_spec(points, radius).z >= 1,
        cell_count_spec(points, radius) >= 1,
        forall|q: Vec3Fix|
            0 <= #[trigger] cell_of_pos(
                grid_lower_spec(points),
                (2 * radius) as i64,
                grid_dims_spec(points, radius),
                q,
            ) < cell_count_spec(points, radius),
{
    lemma_bbox_bounds(points, points.len() as int);
    let d = grid_dims_spec(points, radius);
    assert(axis_cells(grid_lower_spec(points).x, grid_upper_spec(points).x, (2 * radius) as i64)
        >= 1);
    assert(d.x >= 1 && d.y >= 1 && d.z >= 1);
    assert(cell_count_spec(points, radius) >= 1) by (nonlinear_arith)
        requires
            d.x >= 1 && d.y >= 1 && d.z >= 1,
            cell_count_spec(points, radius) == d.x * d.y * d.z,
    ;
    assert forall|q: Vec3Fix|
        0 <= #[trigger] cell_of_pos(
            grid_lower_spec(points),
            (2 * radius) as i64,
            d,
            q,
        ) < cell_count_spec(points, radius) by {
        let lo = grid_lower_spec(points);
        let cs = (2 * radius) as i64;
        let ix = cell_axis(q.x, lo.x, cs, d.x as int);
        let iy = cell_axis(q.y, lo.y, cs, d.y as int);
        let iz = cell_axis(q.z, lo.z, cs, d.z as int);
        lemma_flat_in_range(ix, iy, iz, d.x as int, d.y as int, d.z as int);
    }
}

/// The cell mirror always has one entry per cell, and every stored index
/// names one of the first `n` points.
pub proof fn lemma_cells_after_shape(points: Seq<Point>, radius: i64, n: int)
    requires
        input_ok(points, radius),
        0 <= n <= points.len(),
    ensures
        cells_after(points, radius, n).len() == cell_count_spec(points, radius),
        forall|c: int, k: int|
            0 <= c < cells_after(points, radius, n).len() && 0 <= k < cells_after(
                points,
                radius,
                n,
            )[c].len() ==> ((#[trigger] cells_after(points, radius, n)[c][k]) as int) < n,
        forall|c: int|
            0 <= c < cells_after(points, radius, n).len() ==> (#[trigger] cells_after(
                points,
                radius,
                n,
            )[c]).len() <= n,
    decreases n,
{
    lemma_dims_facts(points, radius);
    if n > 0 {
        lemma_cells_after_shape(points, radius, n - 1);
        let prev = cells_after(points, radius, n - 1);
        let cur = cells_after(points, radius, n);
        let c0 = cell_of_pos(
            grid_lower_spec(points),
            (2 * radius) as i64,
            grid_dims_spec(points, radius),
            points[n - 1].pos,
        );
        assert(cur == prev.update(c0, prev[c0].push((n - 1) as usize)));
        assert forall|c: int, k: int|
            0 <= c < cur.len() && 0 <= k < cur[c].len() implies ((#[trigger] cur[c][k]) as int)
            < n by {
            if c == c0 && k == prev[c0].len() {
                assert(cur[c][k] == (n - 1) as usize);
            } else {
                assert(cur[c][k] == prev[c][k]);
            }
        }
    }
}

/// Cell coordinate along one axis, executable form.
fn cell_axis_exec(q: i64, lo: i64, cs: i64, d: usize) -> (r: usize)
    requires
        -COORD_MAX <= q <= COORD_MAX,
        -COORD_MAX <= lo <= COORD_MAX,
        2 <= cs <= 2 * COORD_MAX,
        d >= 1,
    ensures
        r as int == cell_axis(q, lo, cs, d as int),
        r < d,
{
    if q <= lo {
        proof {
            if q < lo {
                vstd::arithmetic::div_mod::lemma_div_pos_is_pos(lo - q, cs as int);
            }
        }
        return 0;
    }
    let diff = (q - lo) as u64;
    let i = diff / (cs as u64);
    if i >= d as u64 {
        d - 1
    } else {
        i as usize
    }
}

/// Flattened cell index, executable form.
fn flat_exec(ix: usize, iy: usize, iz: usize, dims: Dims, ncells: usize) -> (r: usize)
    requires
        ix < dims.x,
        iy < dims.y,
        iz < dims.z,
        ncells == dims.x * dims.y * dims.z,
        ncells <= CELLS_MAX,
    ensures
        r as int == flat_idx(ix as int, iy as int, iz as int, dims),
        r < ncells,
{
    proof {
        lemma_flat_in_range(
            ix as int,
            iy as int,
            iz as int,
            dims.x as int,
            dims.y as int,
            dims.z as int,
        );
        lemma_prod3_bounds(dims.x as int, dims.y as int, dims.z as int, CELLS_MAX as int);
        mul_mag_le(dims.x as int, dims.y as int, CELLS_MAX as int, CELLS_MAX as int, 0x10_0000_0000_0000);
    }
    iz * (dims.x * dims.y) + iy * dims.x + ix
}

/// Does the list hold this index?
pub fn contains_idx(v: &Vec<usize>, x: usize) -> (r: bool)
    ensures
        r == v@.contains(x),
{
    let n = v.len();
    let mut k: usize = 0;
    while k < n
        invariant
            n == v@.len(),
            0 <= k <= n,
            forall|m: int| 0 <= m < k ==> v@[m] != x,
        decreases n - k,
    {
        if v[k] == x {
            return true;
        }
        k += 1;
    }
    false
}

impl Grid {
    /// Build the grid: bounding box over all positions, cells of side
    /// `2 * radius` (at least one per axis), every point dropped into the
    /// cell under its position, in input order.
    pub fn new(points: &Vec<Point>, radius: i64) -> (g: Grid)
        requires
            input_ok(points@, radius),
        ensures
            grid_wf(g),
            g.cell_size == 2 * radius,
            g.lower == grid_lower_spec(points@),
            g.dims == grid_dims_spec(points@, radius),
            cells_view(g.cells@) == grid_cells_spec(points@, radius),
            g.points@.len() == points@.len(),
            forall|i: int|
                0 <= i < points@.len() ==> {
                    &&& (#[trigger] g.points@[i]).pos == points@[i].pos
                    &&& g.points@[i].normal == points@[i].normal
                    &&& !g.points@[i].used
                    &&& g.points@[i].edges@ == Seq::<usize>::empty()
                },
    {
        let n = points.len();
        // Bounding box.
        let mut lower = points[0].pos;
        let mut upper = points[0].pos;
        let mut j: usize = 1;
        while j < n
            invariant
                1 <= j <= n,
                n == points@.len(),
                input_ok(points@, radius),
                lower == lower_upto(points@, j as int),
                upper == upper_upto(points@, j as int),
            decreases n - j,
        {
            let p = points[j].pos;
            proof {
                lemma_bbox_bounds(points@, j as int);
            }
            if p.x < lower.x {
                lower.x = p.x;
            }
            if p.y < lower.y {
                lower.y = p.y;
            }
            if p.z < lower.z {
                lower.z = p.z;
            }
            if p.x > upper.x {
                upper.x = p.x;
            }
            if p.y > upper.y {
                upper.y = p.y;
            }
            if p.z > upper.z {
                upper.z = p.z;
            }
            j += 1;
        }
        proof {
            lemma_bbox_bounds(points@, n as int);
        }
        let cell_size = 2 * radius;
        // Cell counts per axis.
        let nx = axis_cells_exec(lower.x, upper.x, cell_size);
        let ny = axis_cells_exec(lower.y, upper.y, cell_size);
        let nz = axis_cells_exec(lower.z, upper.z, cell_size);
        let dims = Dims { x: nx, y: ny, z: nz };
        proof {
            assert(dims == grid_dims_spec(points@, radius));
            lemma_prod3_bounds(nx as int, ny as int, nz as int, CELLS_MAX as int);
            mul_mag_le(nx as int, ny as int, CELLS_MAX as int, CELLS_MAX as int, 0x10_0000_0000_0000);
            mul_mag_le(
                (nx * ny) as int,
                nz as int,
                0x10_0000_0000_0000,
                CELLS_MAX as int,
                0x4_0000_0000_0000_0000_0000,
            );
        }
        let ncells = nx * ny * nz;
        // Empty cells.
        let mut cells: Vec<Vec<usize>> = Vec::new();
        let mut c: usize = 0;
        while c < ncells
            invariant
                0 <= c <= ncells,
                cells@.len() == c,
                forall|m: int| 0 <= m < c ==> (#[trigger] cells@[m])@ == Seq::<usize>::empty(),
            decreases ncells - c,
        {
            cells.push(Vec::new());
            c += 1;
        }
        proof {
            assert(cells_view(cells@) =~= empty_cells(cell_count_spec(points@, radius)));
        }
        // Vertices.
        let mut mp: Vec<MeshPoint> = Vec::new();
        let mut j: usize = 0;
        while j < n
            invariant
                0 <= j <= n,
                n == points@.len(),
                mp@.len() == j,
                forall|i: int|
                    0 <= i < j ==> {
                        &&& (#[trigger] mp@[i]).pos == points@[i].pos
                        &&& mp@[i].normal == points@[i].normal
                        &&& !mp@[i].used
                        &&& mp@[i].edges@ == Seq::<usize>::empty()
                    },
            decreases n - j,
        {
            mp.push(MeshPoint::from_point(&points[j]));
            j += 1;
        }
        // Insertion.
        let mut j: usize = 0;
        while j < n
            invariant
                0 <= j <= n,
                n == points@.len(),
                input_ok(points@, radius),
                cell_size == 2 * radius,
                lower == grid_lower_spec(points@),
                dims == grid_dims_spec(points@, radius),
                ncells == dims.x * dims.y * dims.z,
                ncells <= CELLS_MAX,
                dims.x >= 1 && dims.y >= 1 && dims.z >= 1,
                lower.in_bound(COORD_MAX as int),
                cells@.len() == ncells,
                cells_view(cells@) == cells_after(points@, radius, j as int),
                forall|ci: int, k: int|
                    0 <= ci < cells@.len() && 0 <= k < cells@[ci]@.len() ==> (#[trigger] cells@[ci]@[k]) < n,
                forall|ci: int| 0 <= ci < cells@.len() ==> (#[trigger] cells@[ci])@.len() <= j,
            decreases n - j,
        {
            let p = points[j].pos;
            let ix = cell_axis_exec(p.x, lower.x, cell_size, dims.x);
            let iy = cell_axis_exec(p.y, lower.y, cell_size, dims.y);
            let iz = cell_axis_exec(p.z, lower.z, cell_size, dims.z);
            let ci = flat_exec(ix, iy, iz, dims, ncells);
            let ghost before = cells_view(cells@);
            cells[ci].push(j);
            proof {
                assert(ci as int == cell_of_pos(lower, cell_size, dims, points@[j as int].pos));
                assert(cells_view(cells@) =~= before.update(
                    ci as int,
                    before[ci as int].push(j),
                ));
                assert(cells_view(cells@) =~= cells_after(points@, radius, j as int + 1));
            }
            j += 1;
        }
        let g = Grid { cell_size, dims, cells, lower, points: mp };
        proof {
            assert(points_geom_wf(g.points@));
            assert(grid_wf(g));
        }
        g
    }

    /// Cell coordinates of a position, each clamped into the grid.
    pub fn cell_index(&self, point: &Vec3Fix) -> (r: (usize, usize, usize))
        requires
            grid_wf(*self),
            point.in_bound(COORD_MAX as int),
        ensures
            r.0 as int == cell_axis(point.x, self.lower.x, self.cell_size, self.dims.x as int),
            r.1 as int == cell_axis(point.y, self.lower.y, self.cell_size, self.dims.y as int),
            r.2 as int == cell_axis(point.z, self.lower.z, self.cell_size, self.dims.z as int),
            r.0 < self.dims.x && r.1 < self.dims.y && r.2 < self.dims.z,
    {
        let ix = cell_axis_exec(point.x, self.lower.x, self.cell_size, self.dims.x);
        let iy = cell_axis_exec(point.y, self.lower.y, self.cell_size, self.dims.y);
        let iz = cell_axis_exec(point.z, self.lower.z, self.cell_size, self.dims.z);
        (ix, iy, iz)
    }
}

/// Keep an index in a neighborhood: strictly within one cell size of the
/// query (a deliberate over-fetch; callers apply the tight radius) and not
/// on the ignore list.
pub open spec fn nb_keep(
    pos: Seq<Vec3Fix>,
    cs: i64,
    q: Vec3Fix,
    ignore: Seq<usize>,
    j: usize,
) -> bool {
    pos[j as int].spec_dist_sq(q) < cs * cs && !ignore.contains(j)
}

/// The kept indices among the first `k` entries of cell `c`, in order.
pub open spec fn nb_cell_upto(
    pos: Seq<Vec3Fix>,
    cells: Seq<Seq<usize>>,
    cs: i64,
    q: Vec3Fix,
    ignore: Seq<usize>,
    c: int,
    k: int,
) -> Seq<usize>
    decreases k,
{
    if k <= 0 {
        Seq::<usize>::empty()
    } else {
        let prev = nb_cell_upto(pos, cells, cs, q, ignore, c, k - 1);
        let j = cells[c][k - 1];
        if nb_keep(pos, cs, q, ignore, j) {
            prev.push(j)
        } else {
            prev
        }
    }
}

pub open spec fn nb_cell(
    pos: Seq<Vec3Fix>,
    cells: Seq<Seq<usize>>,
    cs: i64,
    q: Vec3Fix,
    ignore: Seq<usize>,
    c: int,
) -> Seq<usize> {
    nb_cell_upto(pos, cells, cs, q, ignore, c, cells[c].len() as int)
}

/// The neighborhood gathered from the first `o` of the 27 cell offsets
/// around the query's cell (x varying slowest, matching the scan order).
pub open spec fn neighborhood_upto(
    pos: Seq<Vec3Fix>,
    cells: Seq<Seq<usize>>,
    cs: i64,
    dims: Dims,
    lower: Vec3Fix,
    q: Vec3Fix,
    ignore: Seq<usize>,
    o: int,
) -> Seq<usize>
    decreases o,
{
    if o <= 0 {
        Seq::<usize>::empty()
    } else {
        let prev = neighborhood_upto(pos, cells, cs, dims, lower, q, ignore, o - 1);
        let k = o - 1;
        let cx = cell_axis(q.x, lower.x, cs, dims.x as int) + k / 9 - 1;
        let cy = cell_axis(q.y, lower.y, cs, dims.y as int) + (k / 3) % 3 - 1;
        let cz = cell_axis(q.z, lower.z, cs, dims.z as int) + k % 3 - 1;
        if 0 <= cx < dims.x && 0 <= cy < dims.y && 0 <= cz < dims.z {
            prev + nb_cell(pos, cells, cs, q, ignore, flat_idx(cx, cy, cz, dims))
        } else {
            prev
        }
    }
}

/// Every vertex in the 3x3x3 block of cells around the query's cell that is
/// strictly within one cell size of the query and not ignored, in scan order.
pub open spec fn neighborhood_spec(
    pos: Seq<Vec3Fix>,
    cells: Seq<Seq<usize>>,
    cs: i64,
    dims: Dims,
    lower: Vec3Fix,
    q: Vec3Fix,
    ignore: Seq<usize>,
) -> Seq<usize> {
    neighborhood_upto(pos, cells, cs, dims, lower, q, ignore, 27)
}

/// Everything the kept part of one cell promises about its elements.
proof fn lemma_nb_cell_elems(
    pos: Seq<Vec3Fix>,
    cells: Seq<Seq<usize>>,
    cs: i64,
    q: Vec3Fix,
    ignore: Seq<usize>,
    c: int,
    k: int,
)
    requires
        0 <= c < cells.len(),
        k <= cells[c].len(),
        forall|ci: int, m: int|
            0 <= ci < cells.len() && 0 <= m < cells[ci].len() ==> ((#[trigger] cells[ci][m]) as int)
                < pos.len(),
    ensures
        forall|t: int|
            0 <= t < nb_cell_upto(pos, cells, cs, q, ignore, c, k).len() ==> ((
            #[trigger] nb_cell_upto(pos, cells, cs, q, ignore, c, k)[t]) as int) < pos.len()
                && nb_keep(pos, cs, q, ignore, nb_cell_upto(pos, cells, cs, q, ignore, c, k)[t]),
    decreases k,
{
    if k > 0 {
        lemma_nb_cell_elems(pos, cells, cs, q, ignore, c, k - 1);
        let prev = nb_cell_upto(pos, cells, cs, q, ignore, c, k - 1);
        let cur = nb_cell_upto(pos, cells, cs, q, ignore, c, k);
        assert forall|t: int|
            0 <= t < cur.len() implies ((#[trigger] cur[t]) as int) < pos.len() && nb_keep(
            pos,
            cs,
            q,
            ignore,
            cur[t],
        ) by {
            if t < prev.len() {
                assert(cur[t] == prev[t]);
            } else {
                assert(cur[t] == cells[c][k - 1]);
            }
        }
    }
}

/// Everything a neighborhood promises about its elements: each is a vertex,
/// within one cell size of the query, and not on the ignore list.
pub proof fn lemma_neighborhood_elems(
    pos: Seq<Vec3Fix>,
    cells: Seq<Seq<usize>>,
    cs: i64,
    dims: Dims,
    lower: Vec3Fix,
    q: Vec3Fix,
    ignore: Seq<usize>,
    o: int,
)
    requires
        forall|ci: int, m: int|
            0 <= ci < cells.len() && 0 <= m < cells[ci].len() ==> ((#[trigger] cells[ci][m]) as int)
                < pos.len(),
        cells.len() == dims.x * dims.y * dims.z,
    ensures
        forall|t: int|
            0 <= t < neighborhood_upto(pos, cells, cs, dims, lower, q, ignore, o).len() ==> ((
            #[trigger] neighborhood_upto(pos, cells, cs, dims, lower, q, ignore, o)[t]) as int)
                < pos.len() && nb_keep(
                pos,
                cs,
                q,
                ignore,
                neighborhood_upto(pos, cells, cs, dims, lower, q, ignore, o)[t],
            ),
    decreases o,
{
    if o > 0 {
        lemma_neighborhood_elems(pos, cells, cs, dims, lower, q, ignore, o - 1);
        let prev = neighborhood_upto(pos, cells, cs, dims, lower, q, ignore, o - 1);
        let cur = neighborhood_upto(pos, cells, cs, dims, lower, q, ignore, o);
        let k = o - 1;
        let cx = cell_axis(q.x, lower.x, cs, dims.x as int) + k / 9 - 1;
        let cy = cell_axis(q.y, lower.y, cs, dims.y as int) + (k / 3) % 3 - 1;
        let cz = cell_axis(q.z, lower.z, cs, dims.z as int) + k % 3 - 1;
        if 0 <= cx < dims.x && 0 <= cy < dims.y && 0 <= cz < dims.z {
            lemma_flat_in_range(cx, cy, cz, dims.x as int, dims.y as int, dims.z as int);
            let c = flat_idx(cx, cy, cz, dims);
            lemma_nb_cell_elems(pos, cells, cs, q, ignore, c, cells[c].len() as int);
            let tail = nb_cell(pos, cells, cs, q, ignore, c);
            assert forall|t: int|
                0 <= t < cur.len() implies ((#[trigger] cur[t]) as int) < pos.len() && nb_keep(
                pos,
                cs,
                q,
                ignore,
                cur[t],
            ) by {
                if t < prev.len() {
                    assert(cur[t] == prev[t]);
                } else {
                    assert(cur[t] == tail[t - prev.len()]);
                }
            }
        }
    }
}

impl Grid {
    /// All vertices in the 3x3x3 block of cells around `point`'s cell that
    /// lie strictly within one cell size of `point` and are not on the
    /// ignore list, in cell-scan order.
    pub fn spherical_neighborhood(&self, point: &Vec3Fix, ignore: &Vec<usize>) -> (r: Vec<usize>)
        requires
            grid_wf(*self),
            point.in_bound(COORD_MAX as int),
        ensures
            r@ == neighborhood_spec(
                pos_view(self.points@),
                cells_view(self.cells@),
                self.cell_size,
                self.dims,
                self.lower,
                *point,
                ignore@,
            ),
            forall|t: int|
                0 <= t < r@.len() ==> {
                    &&& ((#[trigger] r@[t]) as int) < self.points@.len()
                    &&& !ignore@.contains(r@[t])
                    &&& self.points@[r@[t] as int].pos.spec_dist_sq(*point) < self.cell_size
                        * self.cell_size
                },
    {
        let ghost pos = pos_view(self.points@);
        let ghost cells = cells_view(self.cells@);
        let mut result: Vec<usize> = Vec::new();
        let (ax, ay, az) = self.cell_index(point);
        let cs = self.cell_size;
        proof {
            lemma_prod3_bounds(
                self.dims.x as int,
                self.dims.y as int,
                self.dims.z as int,
                CELLS_MAX as int,
            );
            mul_mag_le(cs as int, cs as int, 16777216, 16777216, 0x1_0000_0000_0000);
        }
        let cs2 = cs * cs;
        let mut o: usize = 0;
        while o < 27
            invariant
                grid_wf(*self),
                point.in_bound(COORD_MAX as int),
                pos == pos_view(self.points@),
                cells == cells_view(self.cells@),
                cs == self.cell_size,
                cs2 == cs * cs,
                self.dims.x <= CELLS_MAX && self.dims.y <= CELLS_MAX && self.dims.z <= CELLS_MAX,
                0 <= o <= 27,
                ax as int == cell_axis(point.x, self.lower.x, cs, self.dims.x as int),
                ay as int == cell_axis(point.y, self.lower.y, cs, self.dims.y as int),
                az as int == cell_axis(point.z, self.lower.z, cs, self.dims.z as int),
                ax < self.dims.x && ay < self.dims.y && az < self.dims.z,
                result@ == neighborhood_upto(
                    pos,
                    cells,
                    cs,
                    self.dims,
                    self.lower,
                    *point,
                    ignore@,
                    o as int,
                ),
            decreases 27 - o,
        {
            let xo = o / 9;
            let yo = (o / 3) % 3;
            let zo = o % 3;
            let cx = ax as i64 + xo as i64 - 1;
            let cy = ay as i64 + yo as i64 - 1;
            let cz = az as i64 + zo as i64 - 1;
            if cx >= 0 && cx < self.dims.x as i64 && cy >= 0 && cy < self.dims.y as i64 && cz >= 0
                && cz < self.dims.z as i64 {
                let ci = flat_exec(cx as usize, cy as usize, cz as usize, self.dims, self.cells.len());
                let cell = &self.cells[ci];
                let m = cell.len();
                let ghost base = result@;
                let mut k: usize = 0;
                while k < m
                    invariant
                        grid_wf(*self),
                        point.in_bound(COORD_MAX as int),
                        pos == pos_view(self.points@),
                        cells == cells_view(self.cells@),
                        cs == self.cell_size,
                        cs2 == cs * cs,
                        0 <= k <= m,
                        (ci as int) < cells.len(),
                        m == cells[ci as int].len(),
                        cell@ == cells[ci as int],
                        result@ == base + nb_cell_upto(
                            pos,
                            cells,
                            cs,
                            *point,
                            ignore@,
                            ci as int,
                            k as int,
                        ),
                    decreases m - k,
                {
                    let j = cell[k];
                    let pj = self.points[j].pos;
                    let d = pj.dist_sq(point);
                    proof {
                        assert(pos[j as int] == self.points@[j as int].pos);
                    }
                    if d < cs2 && !contains_idx(ignore, j) {
                        result.push(j);
                    }
                    k += 1;
                }
                proof {
                    assert(result@ == neighborhood_upto(
                        pos,
                        cells,
                        cs,
                        self.dims,
                        self.lower,
                        *point,
                        ignore@,
                        o as int + 1,
                    ));
                }
            } else {
                proof {
                    assert(result@ == neighborhood_upto(
                        pos,
                        cells,
                        cs,
                        self.dims,
                        self.lower,
                        *point,
                        ignore@,
                        o as int + 1,
                    ));
                }
            }
            o += 1;
        }
        proof {
            lemma_neighborhood_elems(
                pos,
                cells,
                cs,
                self.dims,
                self.lower,
                *point,
                ignore@,
                27,
            );
            assert forall|t: int| 0 <= t < result@.len() implies {
                &&& ((#[trigger] result@[t]) as int) < self.points@.len()
                &&& !ignore@.contains(result@[t])
                &&& self.points@[result@[t] as int].pos.spec_dist_sq(*point) < cs * cs
            } by {
                assert(pos[result@[t] as int] == self.points@[result@[t] as int].pos);
                assert(nb_keep(pos, cs, *point, ignore@, result@[t]));
            }
        }
        result
    }
}

/// Cells along one axis, executable form.
fn axis_cells_exec(lo: i64, hi: i64, cs: i64) -> (r: usize)
    requires
        -COORD_MAX <= lo <= hi <= COORD_MAX,
        2 <= cs <= 2 * COORD_MAX,
    ensures
        r as int == axis_cells(lo, hi, cs),
        r >= 1,
        r <= 2 * COORD_MAX,
{
    let num = (hi - lo + cs - 1) as u64;
    let d = num / (cs as u64);
    proof {
        vstd::arithmetic::div_mod::lemma_div_is_ordered_by_denominator(num as int, 2, cs as int);
        vstd::arithmetic::div_mod::lemma_div_pos_is_pos(num as int, cs as int);
    }
    if d < 1 {
        1
    } else {
        d as usize
    }
}

} // verus!
