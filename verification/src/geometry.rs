//! The two geometric predicates reconstruction decides on: the center of the
//! radius-`r` ball resting on a triangle, and whether a ball is empty of
//! sample points. Both are exact integer computations with mirror
//! specifications, so callers know precisely which value is produced.

use vstd::prelude::*;

use crate::mesh::{MeshFace, MeshPoint};
use crate::vec3::{
    div_trunc, div_trunc_spec, isqrt_u128, lemma_sqrt_floor_le, lemma_sqrt_floor_unique,
    mul_mag_le, sqrt_floor, Vec3Fix,
};
use crate::{COORD_MAX, EPS_SQ, SCALE, VEC_MAX};

verus! {

/// Outward normal of the ordered triangle `(v0, v1, v2)`:
/// `normalize(cross(v0 - v1, v0 - v2))`, a fixed-point unit vector
/// (zero for a degenerate triangle).
pub open spec fn face_normal_spec(v0: Vec3Fix, v1: Vec3Fix, v2: Vec3Fix) -> Vec3Fix {
    v0.spec_minus(v1).spec_cross(v0.spec_minus(v2)).spec_normalize()
}

pub fn face_normal(v0: &Vec3Fix, v1: &Vec3Fix, v2: &Vec3Fix) -> (r: Vec3Fix)
    requires
        v0.in_bound(COORD_MAX as int),
        v1.in_bound(COORD_MAX as int),
        v2.in_bound(COORD_MAX as int),
    ensures
        r == face_normal_spec(*v0, *v1, *v2),
        r.in_bound(SCALE as int),
{
    let d1 = v0.minus(v1);
    let d2 = v0.minus(v2);
    let c = d1.cross(&d2);
    proof {
        mul_mag_le(d1.y as int, d2.z as int, 16777216, 16777216, 0x1_0000_0000_0000);
        mul_mag_le(d1.z as int, d2.y as int, 16777216, 16777216, 0x1_0000_0000_0000);
        mul_mag_le(d1.z as int, d2.x as int, 16777216, 16777216, 0x1_0000_0000_0000);
        mul_mag_le(d1.x as int, d2.z as int, 16777216, 16777216, 0x1_0000_0000_0000);
        mul_mag_le(d1.x as int, d2.y as int, 16777216, 16777216, 0x1_0000_0000_0000);
        mul_mag_le(d1.y as int, d2.x as int, 16777216, 16777216, 0x1_0000_0000_0000);
    }
    c.normalize()
}

/// Mirror of the ball-center computation. For the triangle `(pa, pb, pc)`:
/// the circumcenter offset comes from the standard cross/dot formula (each
/// component one truncating division), the squared height of the ball center
/// above the plane is `radius² - |offset|²` (negative: no ball of this radius
/// can rest on the triangle), and the center sits at
/// `circumcenter + normal * height`. A zero cross product (degenerate
/// triangle) yields `None` rather than a division by zero. The offset is
/// applied along `normalize(cross(ab, ac))`, which equals the triangle's
/// outward normal `normalize(cross(pa - pb, pa - pc))` exactly.
pub open spec fn ball_center_spec(pa: Vec3Fix, pb: Vec3Fix, pc: Vec3Fix, radius: i64) -> Option<
    Vec3Fix,
> {
    let ab = pb.spec_minus(pa);
    let ac = pc.spec_minus(pa);
    let w = ab.spec_cross(ac);
    let den = 2 * w.spec_len_sq();
    if den == 0 {
        None
    } else {
        let s1 = ac.spec_len_sq();
        let s2 = ab.spec_len_sq();
        let tx = div_trunc_spec((w.y * ab.z - w.z * ab.y) * s1 + (ac.y * w.z - ac.z * w.y) * s2, den);
        let ty = div_trunc_spec((w.z * ab.x - w.x * ab.z) * s1 + (ac.z * w.x - ac.x * w.z) * s2, den);
        let tz = div_trunc_spec((w.x * ab.y - w.y * ab.x) * s1 + (ac.x * w.y - ac.y * w.x) * s2, den);
        let hs = radius * radius - (tx * tx + ty * ty + tz * tz);
        if hs < 0 {
            None
        } else {
            let h = sqrt_floor(hs as nat) as int;
            let nrm = w.spec_normalize();
            Some(
                Vec3Fix {
                    x: (pa.x + tx + div_trunc_spec(nrm.x * h, SCALE as int)) as i64,
                    y: (pa.y + ty + div_trunc_spec(nrm.y * h, SCALE as int)) as i64,
                    z: (pa.z + tz + div_trunc_spec(nrm.z * h, SCALE as int)) as i64,
                },
            )
        }
    }
}

/// Center of the radius-`radius` ball resting on the triangle with vertex
/// positions `(pa, pb, pc)`, or `None` when the triangle is degenerate or too
/// large for the ball.
pub fn ball_center_of(pa: &Vec3Fix, pb: &Vec3Fix, pc: &Vec3Fix, radius: i64) -> (r: Option<
    Vec3Fix,
>)
    requires
        pa.in_bound(COORD_MAX as int),
        pb.in_bound(COORD_MAX as int),
        pc.in_bound(COORD_MAX as int),
        1 <= radius <= COORD_MAX,
    ensures
        r == ball_center_spec(*pa, *pb, *pc, radius),
        r is Some ==> r->0.in_bound(VEC_MAX as int),
{
    let ab = pb.minus(pa);
    let ac = pc.minus(pa);
    let w = ab.cross(&ac);
    proof {
        mul_mag_le(ab.y as int, ac.z as int, 16777216, 16777216, 0x1_0000_0000_0000);
        mul_mag_le(ab.z as int, ac.y as int, 16777216, 16777216, 0x1_0000_0000_0000);
        mul_mag_le(ab.z as int, ac.x as int, 16777216, 16777216, 0x1_0000_0000_0000);
        mul_mag_le(ab.x as int, ac.z as int, 16777216, 16777216, 0x1_0000_0000_0000);
        mul_mag_le(ab.x as int, ac.y as int, 16777216, 16777216, 0x1_0000_0000_0000);
        mul_mag_le(ab.y as int, ac.x as int, 16777216, 16777216, 0x1_0000_0000_0000);
    }
    let ax = ab.x as i128;
    let ay = ab.y as i128;
    let az = ab.z as i128;
    let cx = ac.x as i128;
    let cy = ac.y as i128;
    let cz = ac.z as i128;
    let wx = w.x as i128;
    let wy = w.y as i128;
    let wz = w.z as i128;
    proof {
        mul_mag_le(
            wx as int,
            wx as int,
            0x2_0000_0000_0000,
            0x2_0000_0000_0000,
            0x4_0000_0000_0000_0000_0000_0000,
        );
        mul_mag_le(
            wy as int,
            wy as int,
            0x2_0000_0000_0000,
            0x2_0000_0000_0000,
            0x4_0000_0000_0000_0000_0000_0000,
        );
        mul_mag_le(
            wz as int,
            wz as int,
            0x2_0000_0000_0000,
            0x2_0000_0000_0000,
            0x4_0000_0000_0000_0000_0000_0000,
        );
        crate::vec3::square_nonneg(wx as int);
        crate::vec3::square_nonneg(wy as int);
        crate::vec3::square_nonneg(wz as int);
    }
    let den: i128 = 2 * (wx * wx + wy * wy + wz * wz);
    if den == 0 {
        return None;
    }
    proof {
        mul_mag_le(ax as int, ax as int, 16777216, 16777216, 0x1_0000_0000_0000);
        mul_mag_le(ay as int, ay as int, 16777216, 16777216, 0x1_0000_0000_0000);
        mul_mag_le(az as int, az as int, 16777216, 16777216, 0x1_0000_0000_0000);
        mul_mag_le(cx as int, cx as int, 16777216, 16777216, 0x1_0000_0000_0000);
        mul_mag_le(cy as int, cy as int, 16777216, 16777216, 0x1_0000_0000_0000);
        mul_mag_le(cz as int, cz as int, 16777216, 16777216, 0x1_0000_0000_0000);
        crate::vec3::square_nonneg(ax as int);
        crate::vec3::square_nonneg(ay as int);
        crate::vec3::square_nonneg(az as int);
        crate::vec3::square_nonneg(cx as int);
        crate::vec3::square_nonneg(cy as int);
        crate::vec3::square_nonneg(cz as int);
    }
    let s1: i128 = cx * cx + cy * cy + cz * cz;
    let s2: i128 = ax * ax + ay * ay + az * az;
    proof {
        mul_mag_le(wy as int, az as int, 0x2_0000_0000_0000, 16777216, 0x200_0000_0000_0000_0000);
        mul_mag_le(wz as int, ay as int, 0x2_0000_0000_0000, 16777216, 0x200_0000_0000_0000_0000);
        mul_mag_le(wz as int, ax as int, 0x2_0000_0000_0000, 16777216, 0x200_0000_0000_0000_0000);
        mul_mag_le(wx as int, az as int, 0x2_0000_0000_0000, 16777216, 0x200_0000_0000_0000_0000);
        mul_mag_le(wx as int, ay as int, 0x2_0000_0000_0000, 16777216, 0x200_0000_0000_0000_0000);
        mul_mag_le(wy as int, ax as int, 0x2_0000_0000_0000, 16777216, 0x200_0000_0000_0000_0000);
        mul_mag_le(cy as int, wz as int, 16777216, 0x2_0000_0000_0000, 0x200_0000_0000_0000_0000);
        mul_mag_le(cz as int, wy as int, 16777216, 0x2_0000_0000_0000, 0x200_0000_0000_0000_0000);
        mul_mag_le(cz as int, wx as int, 16777216, 0x2_0000_0000_0000, 0x200_0000_0000_0000_0000);
        mul_mag_le(cx as int, wz as int, 16777216, 0x2_0000_0000_0000, 0x200_0000_0000_0000_0000);
        mul_mag_le(cx as int, wy as int, 16777216, 0x2_0000_0000_0000, 0x200_0000_0000_0000_0000);
        mul_mag_le(cy as int, wx as int, 16777216, 0x2_0000_0000_0000, 0x200_0000_0000_0000_0000);
        mul_mag_le(
            (wy * az - wz * ay) as int,
            s1 as int,
            0x400_0000_0000_0000_0000,
            0x3_0000_0000_0000,
            0x1000_0000_0000_0000_0000_0000_0000_0000,
        );
        mul_mag_le(
            (wz * ax - wx * az) as int,
            s1 as int,
            0x400_0000_0000_0000_0000,
            0x3_0000_0000_0000,
            0x1000_0000_0000_0000_0000_0000_0000_0000,
        );
        mul_mag_le(
            (wx * ay - wy * ax) as int,
            s1 as int,
            0x400_0000_0000_0000_0000,
            0x3_0000_0000_0000,
            0x1000_0000_0000_0000_0000_0000_0000_0000,
        );
        mul_mag_le(
            (cy * wz - cz * wy) as int,
            s2 as int,
            0x400_0000_0000_0000_0000,
            0x3_0000_0000_0000,
            0x1000_0000_0000_0000_0000_0000_0000_0000,
        );
        mul_mag_le(
            (cz * wx - cx * wz) as int,
            s2 as int,
            0x400_0000_0000_0000_0000,
            0x3_0000_0000_0000,
            0x1000_0000_0000_0000_0000_0000_0000_0000,
        );
        mul_mag_le(
            (cx * wy - cy * wx) as int,
            s2 as int,
            0x400_0000_0000_0000_0000,
            0x3_0000_0000_0000,
            0x1000_0000_0000_0000_0000_0000_0000_0000,
        );
    }
    let numx: i128 = (wy * az - wz * ay) * s1 + (cy * wz - cz * wy) * s2;
    let numy: i128 = (wz * ax - wx * az) * s1 + (cz * wx - cx * wz) * s2;
    let numz: i128 = (wx * ay - wy * ax) * s1 + (cx * wy - cy * wx) * s2;
    let tx = div_trunc(numx, den);
    let ty = div_trunc(numy, den);
    let tz = div_trunc(numz, den);
    if tx > 2 * COORD_MAX as i128 || tx < -2 * COORD_MAX as i128 || ty > 2 * COORD_MAX as i128
        || ty < -2 * COORD_MAX as i128 || tz > 2 * COORD_MAX as i128 || tz < -2 * COORD_MAX as i128 {
        // Some offset component alone already exceeds any radius this library
        // accepts, so the height below would be negative: same `None` as the
        // mirror takes.
        proof {
            lemma_offset_too_far(tx as int, ty as int, tz as int, radius as int);
        }
        return None;
    }
    proof {
        mul_mag_le(tx as int, tx as int, 16777216, 16777216, 0x1_0000_0000_0000);
        mul_mag_le(ty as int, ty as int, 16777216, 16777216, 0x1_0000_0000_0000);
        mul_mag_le(tz as int, tz as int, 16777216, 16777216, 0x1_0000_0000_0000);
        mul_mag_le(radius as int, radius as int, 8388608, 8388608, 0x4000_0000_0000);
        crate::vec3::square_nonneg(tx as int);
        crate::vec3::square_nonneg(ty as int);
        crate::vec3::square_nonneg(tz as int);
    }
    let hs: i128 = (radius as i128) * (radius as i128) - (tx * tx + ty * ty + tz * tz);
    if hs < 0 {
        return None;
    }
    let h128 = isqrt_u128(hs as u128);
    proof {
        lemma_sqrt_floor_le(hs as nat, ((radius as int) * (radius as int)) as nat);
        assert((radius as int) * (radius as int) < (radius as int + 1) * (radius as int + 1))
            by (nonlinear_arith)
            requires
                radius >= 1,
        ;
        lemma_sqrt_floor_unique(((radius as int) * (radius as int)) as nat, radius as nat);
    }
    let h = h128 as i64;
    let nrm = w.normalize();
    proof {
        crate::vec3::lemma_unit_mul_div_bound(nrm.x as int, h as int);
        crate::vec3::lemma_unit_mul_div_bound(nrm.y as int, h as int);
        crate::vec3::lemma_unit_mul_div_bound(nrm.z as int, h as int);
        crate::vec3::mul_mag_le(nrm.x as int, h as int, 65536, 8388608, 0x8_0000_0000_0000);
        crate::vec3::mul_mag_le(nrm.y as int, h as int, 65536, 8388608, 0x8_0000_0000_0000);
        crate::vec3::mul_mag_le(nrm.z as int, h as int, 65536, 8388608, 0x8_0000_0000_0000);
    }
    let ox = div_trunc(nrm.x as i128 * h as i128, SCALE as i128);
    let oy = div_trunc(nrm.y as i128 * h as i128, SCALE as i128);
    let oz = div_trunc(nrm.z as i128 * h as i128, SCALE as i128);
    Some(
        Vec3Fix {
            x: pa.x + tx as i64 + ox as i64,
            y: pa.y + ty as i64 + oy as i64,
            z: pa.z + tz as i64 + oz as i64,
        },
    )
}

/// If any circumcenter-offset component exceeds `2 * COORD_MAX` in magnitude,
/// the squared offset exceeds the squared radius.
proof fn lemma_offset_too_far(tx: int, ty: int, tz: int, radius: int)
    requires
        1 <= radius <= COORD_MAX,
        tx > 2 * COORD_MAX || tx < -2 * COORD_MAX || ty > 2 * COORD_MAX || ty < -2 * COORD_MAX
            || tz > 2 * COORD_MAX || tz < -2 * COORD_MAX,
    ensures
        radius * radius - (tx * tx + ty * ty + tz * tz) < 0,
{
    crate::vec3::square_nonneg(tx);
    crate::vec3::square_nonneg(ty);
    crate::vec3::square_nonneg(tz);
    assert(radius * radius <= COORD_MAX * COORD_MAX) by (nonlinear_arith)
        requires
            1 <= radius <= COORD_MAX,
    ;
    if tx > 2 * COORD_MAX || tx < -2 * COORD_MAX {
        assert(tx * tx > COORD_MAX * COORD_MAX) by (nonlinear_arith)
            requires
                tx > 2 * COORD_MAX || tx < -2 * COORD_MAX,
                COORD_MAX > 0,
        ;
    } else if ty > 2 * COORD_MAX || ty < -2 * COORD_MAX {
        assert(ty * ty > COORD_MAX * COORD_MAX) by (nonlinear_arith)
            requires
                ty > 2 * COORD_MAX || ty < -2 * COORD_MAX,
                COORD_MAX > 0,
        ;
    } else {
        assert(tz * tz > COORD_MAX * COORD_MAX) by (nonlinear_arith)
            requires
                tz > 2 * COORD_MAX || tz < -2 * COORD_MAX,
                COORD_MAX > 0,
        ;
    }
}

/// Center of the ball of radius `radius` resting on the face, or `None`.
pub fn compute_ball_center(f: &MeshFace, radius: i64) -> (r: Option<Vec3Fix>)
    requires
        f.0[0].pos.in_bound(COORD_MAX as int),
        f.0[1].pos.in_bound(COORD_MAX as int),
        f.0[2].pos.in_bound(COORD_MAX as int),
        1 <= radius <= COORD_MAX,
    ensures
        r == ball_center_spec(f.0[0].pos, f.0[1].pos, f.0[2].pos, radius),
        r is Some ==> r->0.in_bound(VEC_MAX as int),
{
    let pa = f.0[0].pos;
    let pb = f.0[1].pos;
    let pc = f.0[2].pos;
    ball_center_of(&pa, &pb, &pc, radius)
}

/// The ball at `center` holds no listed vertex strictly inside it: every
/// member's squared distance to the center is at least `radius² - EPS_SQ`
/// (the tolerance keeps the triangle's own vertices, which lie on the ball
/// surface, from failing the test).
pub open spec fn ball_empty_spec(
    center: Vec3Fix,
    pos: Seq<Vec3Fix>,
    members: Seq<usize>,
    radius: i64,
) -> bool {
    forall|k: int|
        0 <= k < members.len() ==> pos[(#[trigger] members[k]) as int].spec_dist_sq(center)
            >= radius * radius - EPS_SQ
}

/// True exactly when no listed vertex lies strictly within the tolerance
/// radius of `center`.
pub fn ball_is_empty(
    ball_center: &Vec3Fix,
    points: &Vec<MeshPoint>,
    members: &Vec<usize>,
    radius: i64,
) -> (r: bool)
    requires
        ball_center.in_bound(VEC_MAX as int),
        1 <= radius <= COORD_MAX,
        forall|k: int| 0 <= k < members@.len() ==> (#[trigger] members@[k]) < points@.len(),
        crate::mesh::points_geom_wf(points@),
    ensures
        r == ball_empty_spec(*ball_center, crate::mesh::pos_view(points@), members@, radius),
{
    proof {
        mul_mag_le(radius as int, radius as int, 8388608, 8388608, 0x4000_0000_0000);
    }
    let threshold: i64 = radius * radius - EPS_SQ;
    let n = members.len();
    let mut k: usize = 0;
    while k < n
        invariant
            n == members@.len(),
            0 <= k <= n,
            threshold == radius * radius - EPS_SQ,
            ball_center.in_bound(VEC_MAX as int),
            forall|m: int| 0 <= m < members@.len() ==> (#[trigger] members@[m]) < points@.len(),
            crate::mesh::points_geom_wf(points@),
            forall|m: int|
                0 <= m < k ==> crate::mesh::pos_view(points@)[(#[trigger] members@[m]) as int].spec_dist_sq(
                    *ball_center,
                ) >= radius * radius - EPS_SQ,
        decreases n - k,
    {
        let j = members[k];
        let d = points[j].pos.dist_sq(ball_center);
        proof {
            assert(crate::mesh::pos_view(points@)[j as int] == points@[j as int].pos);
        }
        if d < threshold {
            return false;
        }
        k += 1;
    }
    true
}

} // verus!
