//! Fixed-point 3D vector algebra: exact integer counterparts of the float
//! operations surface reconstruction relies on (difference, dot, cross,
//! squared length, truncated division, integer square root, normalization).

use vstd::prelude::*;

use crate::SCALE;

verus! {

/// A 3D vector whose components count fixed-point steps of `1/SCALE`.
#[derive(Clone, Copy, Debug, PartialEq, Eq, Structural)]
pub struct Vec3Fix {
    pub x: i64,
    pub y: i64,
    pub z: i64,
}

/// Components safe for addition and subtraction.
pub const ARITH_MAX: i64 = 0x2000_0000_0000_0000;

/// Components safe for products inside `dot` and `cross`.
pub const MUL_MAX: i64 = 0x4000_0000;

/// Components safe for `normalize` (squared length fits an `i128`).
pub const NORM_MAX: i64 = 0x100_0000_0000_0000;

impl Vec3Fix {
    /// All components within `[-m, m]`.
    pub open spec fn in_bound(self, m: int) -> bool {
        -m <= self.x <= m && -m <= self.y <= m && -m <= self.z <= m
    }

    pub open spec fn spec_zero() -> Vec3Fix {
        Vec3Fix { x: 0, y: 0, z: 0 }
    }

    pub open spec fn spec_minus(self, o: Vec3Fix) -> Vec3Fix {
        Vec3Fix { x: (self.x - o.x) as i64, y: (self.y - o.y) as i64, z: (self.z - o.z) as i64 }
    }

    pub open spec fn spec_plus(self, o: Vec3Fix) -> Vec3Fix {
        Vec3Fix { x: (self.x + o.x) as i64, y: (self.y + o.y) as i64, z: (self.z + o.z) as i64 }
    }

    /// Mathematical dot product (no overflow in spec arithmetic).
    pub open spec fn spec_dot(self, o: Vec3Fix) -> int {
        self.x * o.x + self.y * o.y + self.z * o.z
    }

    pub open spec fn spec_cross(self, o: Vec3Fix) -> Vec3Fix {
        Vec3Fix {
            x: (self.y * o.z - self.z * o.y) as i64,
            y: (self.z * o.x - self.x * o.z) as i64,
            z: (self.x * o.y - self.y * o.x) as i64,
        }
    }

    pub open spec fn spec_len_sq(self) -> int {
        self.spec_dot(self)
    }

    /// Squared distance between two vectors.
    pub open spec fn spec_dist_sq(self, o: Vec3Fix) -> int {
        self.spec_minus(o).spec_len_sq()
    }

    /// Scale the vector to length `SCALE` (a unit vector in fixed-point),
    /// rounding each component toward zero; the zero vector stays zero.
    pub open spec fn spec_normalize(self) -> Vec3Fix {
        let l = sqrt_floor(self.spec_len_sq() as nat) as int;
        if l == 0 {
            Vec3Fix::spec_zero()
        } else {
            Vec3Fix {
                x: div_trunc_spec(self.x * SCALE, l) as i64,
                y: div_trunc_spec(self.y * SCALE, l) as i64,
                z: div_trunc_spec(self.z * SCALE, l) as i64,
            }
        }
    }

    pub fn zero() -> (r: Vec3Fix)
        ensures
            r == Vec3Fix::spec_zero(),
    {
        Vec3Fix { x: 0, y: 0, z: 0 }
    }

    pub fn minus(&self, o: &Vec3Fix) -> (r: Vec3Fix)
        requires
            self.in_bound(ARITH_MAX as int),
            o.in_bound(ARITH_MAX as int),
        ensures
            r == self.spec_minus(*o),
            r.x == self.x - o.x && r.y == self.y - o.y && r.z == self.z - o.z,
    {
        Vec3Fix { x: self.x - o.x, y: self.y - o.y, z: self.z - o.z }
    }

    pub fn dot(&self, o: &Vec3Fix) -> (r: i64)
        requires
            self.in_bound(MUL_MAX as int),
            o.in_bound(MUL_MAX as int),
        ensures
            r == self.spec_dot(*o),
    {
        proof {
            mul_in_bound(self.x as int, o.x as int, MUL_MAX as int);
            mul_in_bound(self.y as int, o.y as int, MUL_MAX as int);
            mul_in_bound(self.z as int, o.z as int, MUL_MAX as int);
        }
        self.x * o.x + self.y * o.y + self.z * o.z
    }

    pub fn cross(&self, o: &Vec3Fix) -> (r: Vec3Fix)
        requires
            self.in_bound(MUL_MAX as int),
            o.in_bound(MUL_MAX as int),
        ensures
            r == self.spec_cross(*o),
            r.in_bound(0x2000_0000_0000_0000),
    {
        proof {
            mul_in_bound(self.y as int, o.z as int, MUL_MAX as int);
            mul_in_bound(self.z as int, o.y as int, MUL_MAX as int);
            mul_in_bound(self.z as int, o.x as int, MUL_MAX as int);
            mul_in_bound(self.x as int, o.z as int, MUL_MAX as int);
            mul_in_bound(self.x as int, o.y as int, MUL_MAX as int);
            mul_in_bound(self.y as int, o.x as int, MUL_MAX as int);
        }
        Vec3Fix {
            x: self.y * o.z - self.z * o.y,
            y: self.z * o.x - self.x * o.z,
            z: self.x * o.y - self.y * o.x,
        }
    }

    /// Dot product with a lopsided bound: suits a cross product of unit
    /// vectors against an edge direction.
    pub fn dot_wide(&self, o: &Vec3Fix) -> (r: i64)
        requires
            self.in_bound(0x10_0000_0000),
            o.in_bound(0x200_0000),
        ensures
            r == self.spec_dot(*o),
    {
        proof {
            mul_mag_le(self.x as int, o.x as int, 0x10_0000_0000, 0x200_0000, 0x2000_0000_0000_0000);
            mul_mag_le(self.y as int, o.y as int, 0x10_0000_0000, 0x200_0000, 0x2000_0000_0000_0000);
            mul_mag_le(self.z as int, o.z as int, 0x10_0000_0000, 0x200_0000, 0x2000_0000_0000_0000);
        }
        self.x * o.x + self.y * o.y + self.z * o.z
    }

    pub fn len_sq(&self) -> (r: i64)
        requires
            self.in_bound(MUL_MAX as int),
        ensures
            r == self.spec_len_sq(),
            r >= 0,
    {
        proof {
            square_nonneg(self.x as int);
            square_nonneg(self.y as int);
            square_nonneg(self.z as int);
        }
        self.dot(self)
    }

    pub fn dist_sq(&self, o: &Vec3Fix) -> (r: i64)
        requires
            self.in_bound(MUL_MAX as int / 2),
            o.in_bound(MUL_MAX as int / 2),
        ensures
            r == self.spec_dist_sq(*o),
            r >= 0,
    {
        let d = self.minus(o);
        d.len_sq()
    }

    pub fn normalize(&self) -> (r: Vec3Fix)
        requires
            self.in_bound(NORM_MAX as int),
        ensures
            r == self.spec_normalize(),
            r.in_bound(SCALE as int),
    {
        proof {
            mul_in_bound(self.x as int, self.x as int, NORM_MAX as int);
            mul_in_bound(self.y as int, self.y as int, NORM_MAX as int);
            mul_in_bound(self.z as int, self.z as int, NORM_MAX as int);
            square_nonneg(self.x as int);
            square_nonneg(self.y as int);
            square_nonneg(self.z as int);
        }
        let xx = self.x as i128 * self.x as i128;
        let yy = self.y as i128 * self.y as i128;
        let zz = self.z as i128 * self.z as i128;
        let lsq: i128 = xx + yy + zz;
        let l128 = isqrt_u128(lsq as u128);
        proof {
            lemma_sqrt_floor_bounds(lsq as nat);
            lemma_component_le_sqrt(self.x as int, self.spec_len_sq());
            lemma_component_le_sqrt(self.y as int, self.spec_len_sq());
            lemma_component_le_sqrt(self.z as int, self.spec_len_sq());
        }
        if l128 == 0 {
            Vec3Fix { x: 0, y: 0, z: 0 }
        } else {
            let l = l128 as i128;
            let rx = div_trunc(self.x as i128 * SCALE as i128, l);
            let ry = div_trunc(self.y as i128 * SCALE as i128, l);
            let rz = div_trunc(self.z as i128 * SCALE as i128, l);
            proof {
                lemma_scaled_div_bound(self.x as int, l as int);
                lemma_scaled_div_bound(self.y as int, l as int);
                lemma_scaled_div_bound(self.z as int, l as int);
            }
            Vec3Fix { x: rx as i64, y: ry as i64, z: rz as i64 }
        }
    }
}

/// Magnitude of a product against an explicit (usually literal) bound.
pub proof fn mul_mag_le(a: int, b: int, ma: int, mb: int, m: int)
    by (nonlinear_arith)
    requires
        0 <= ma,
        0 <= mb,
        -ma <= a <= ma,
        -mb <= b <= mb,
        ma * mb <= m,
    ensures
        -m <= a * b <= m,
{
}

/// `|v| <= SCALE` and `h >= 0` bound the scaled product-quotient by `h`.
pub proof fn lemma_unit_mul_div_bound(v: int, h: int)
    requires
        -SCALE <= v <= SCALE,
        0 <= h,
    ensures
        -h <= div_trunc_spec(v * h, SCALE as int) <= h,
{
    assert(-(h * SCALE) <= v * h <= h * SCALE) by (nonlinear_arith)
        requires
            -SCALE <= v <= SCALE,
            0 <= h,
    ;
    lemma_div_trunc_mag(v * h, SCALE as int, h);
}

/// Magnitude bound for truncating division: `|num| <= m * d` gives `|q| <= m`.
pub proof fn lemma_div_trunc_mag(num: int, d: int, m: int)
    requires
        d > 0,
        0 <= m,
        -(m * d) <= num <= m * d,
    ensures
        -m <= div_trunc_spec(num, d) <= m,
{
    assert((m * d) / d == m) by (nonlinear_arith)
        requires
            d > 0,
    ;
    if num >= 0 {
        vstd::arithmetic::div_mod::lemma_div_is_ordered(num, m * d, d);
        vstd::arithmetic::div_mod::lemma_div_pos_is_pos(num, d);
    } else {
        let nn = -num;
        vstd::arithmetic::div_mod::lemma_div_is_ordered(nn, m * d, d);
        vstd::arithmetic::div_mod::lemma_div_pos_is_pos(nn, d);
    }
}

/// `sqrt_floor` is monotone.
pub proof fn lemma_sqrt_floor_le(a: nat, b: nat)
    requires
        a <= b,
    ensures
        sqrt_floor(a) <= sqrt_floor(b),
{
    lemma_sqrt_floor_bounds(a);
    lemma_sqrt_floor_bounds(b);
    let sa = sqrt_floor(a);
    let sb = sqrt_floor(b);
    if sb < sa {
        assert((sb + 1) * (sb + 1) <= sa * sa) by (nonlinear_arith)
            requires
                sb + 1 <= sa,
        ;
    }
}

proof fn mul_in_bound(a: int, b: int, m: int)
    by (nonlinear_arith)
    requires
        0 <= m,
        -m <= a <= m,
        -m <= b <= m,
    ensures
        -(m * m) <= a * b <= m * m,
{
}

pub proof fn square_nonneg(a: int)
    by (nonlinear_arith)
    ensures
        a * a >= 0,
{
}

/// `|c| <= sqrt_floor(s)` whenever `c * c <= s`.
proof fn lemma_component_le_sqrt(c: int, s: int)
    requires
        c * c <= s,
    ensures
        -(sqrt_floor(s as nat) as int) <= c <= sqrt_floor(s as nat) as int,
{
    square_nonneg(c);
    let l = sqrt_floor(s as nat) as int;
    lemma_sqrt_floor_bounds(s as nat);
    if c > l {
        assert((l + 1) * (l + 1) <= c * c) by (nonlinear_arith)
            requires
                l + 1 <= c,
                0 <= l,
        ;
    }
    if c < -l {
        assert((l + 1) * (l + 1) <= c * c) by (nonlinear_arith)
            requires
                c <= -(l + 1),
                0 <= l,
        ;
    }
}

/// Bound on the scaled quotient that `normalize` computes:
/// `|x| <= l` gives `|div_trunc(x * SCALE, l)| <= SCALE`.
proof fn lemma_scaled_div_bound(x: int, l: int)
    requires
        l > 0,
        -l <= x <= l,
    ensures
        -SCALE <= div_trunc_spec(x * SCALE, l) <= SCALE,
{
    if x >= 0 {
        assert(x * SCALE <= l * SCALE) by (nonlinear_arith)
            requires
                0 <= x <= l,
        ;
        assert(x * SCALE >= 0) by (nonlinear_arith)
            requires
                x >= 0,
        ;
        assert((x * SCALE) / l <= (l * SCALE) / l) by {
            vstd::arithmetic::div_mod::lemma_div_is_ordered(x * SCALE, l * SCALE, l);
        }
        assert((l * SCALE) / l == SCALE) by (nonlinear_arith)
            requires
                l > 0,
        ;
        assert((x * SCALE) / l >= 0) by {
            vstd::arithmetic::div_mod::lemma_div_pos_is_pos(x * SCALE, l);
        }
    } else {
        let nx = -x;
        assert(nx * SCALE <= l * SCALE) by (nonlinear_arith)
            requires
                0 <= nx <= l,
        ;
        assert(nx * SCALE >= 0) by (nonlinear_arith)
            requires
                nx >= 0,
        ;
        assert(-(x * SCALE) == nx * SCALE) by (nonlinear_arith)
            requires
                nx == -x,
        ;
        assert((nx * SCALE) / l <= (l * SCALE) / l) by {
            vstd::arithmetic::div_mod::lemma_div_is_ordered(nx * SCALE, l * SCALE, l);
        }
        assert((l * SCALE) / l == SCALE) by (nonlinear_arith)
            requires
                l > 0,
        ;
        assert((nx * SCALE) / l >= 0) by {
            vstd::arithmetic::div_mod::lemma_div_pos_is_pos(nx * SCALE, l);
        }
    }
}

/// Floor of the real square root of `n`.
pub open spec fn sqrt_floor(n: nat) -> nat
    decreases n,
{
    if n == 0 {
        0
    } else {
        let p = sqrt_floor((n - 1) as nat);
        if (p + 1) * (p + 1) <= n {
            p + 1
        } else {
            p
        }
    }
}

pub proof fn lemma_sqrt_floor_bounds(n: nat)
    ensures
        sqrt_floor(n) * sqrt_floor(n) <= n,
        n < (sqrt_floor(n) + 1) * (sqrt_floor(n) + 1),
    decreases n,
{
    if n == 0 {
        assert(sqrt_floor(n) == 0);
        assert((sqrt_floor(n) + 1) * (sqrt_floor(n) + 1) == 1) by (nonlinear_arith)
            requires
                sqrt_floor(n) == 0,
        ;
    } else {
        lemma_sqrt_floor_bounds((n - 1) as nat);
        let p = sqrt_floor((n - 1) as nat);
        let s = sqrt_floor(n);
        assert(p * p <= n - 1 && n - 1 < (p + 1) * (p + 1));
        if (p + 1) * (p + 1) <= n {
            assert(s == p + 1);
            assert(s * s <= n);
            assert(n - 1 < (p + 1) * (p + 1));
            assert(n < (p + 2) * (p + 2)) by (nonlinear_arith)
                requires
                    n <= (p + 1) * (p + 1),
                    0 <= p,
            ;
        } else {
            assert(s == p);
            assert(p * p <= n - 1);
        }
    }
}

pub proof fn lemma_sqrt_floor_unique(n: nat, r: nat)
    requires
        r * r <= n,
        n < (r + 1) * (r + 1),
    ensures
        r == sqrt_floor(n),
{
    lemma_sqrt_floor_bounds(n);
    let s = sqrt_floor(n);
    if r < s {
        assert((r + 1) * (r + 1) <= s * s) by (nonlinear_arith)
            requires
                r + 1 <= s,
        ;
    }
    if s < r {
        assert((s + 1) * (s + 1) <= r * r) by (nonlinear_arith)
            requires
                s + 1 <= r,
        ;
    }
}

/// Floor of the square root, computed by binary search on 128-bit integers.
pub fn isqrt_u128(n: u128) -> (r: u128)
    ensures
        r == sqrt_floor(n as nat),
        r * r <= n,
        r < 0x1_0000_0000_0000_0000u128,
{
    let mut lo: u128 = 0;
    let mut hi: u128 = 0x1_0000_0000_0000_0000;
    proof {
        assert(hi * hi > n) by (nonlinear_arith)
            requires
                hi == 0x1_0000_0000_0000_0000,
                n <= u128::MAX,
        ;
    }
    while lo + 1 < hi
        invariant
            lo < hi <= 0x1_0000_0000_0000_0000u128,
            lo * lo <= n,
            hi * hi > n,
        decreases hi - lo,
    {
        let mid = lo + (hi - lo) / 2;
        proof {
            assert(mid * mid <= u128::MAX) by (nonlinear_arith)
                requires
                    mid <= 0xffff_ffff_ffff_ffffu128,
            ;
        }
        if mid * mid <= n {
            lo = mid;
        } else {
            hi = mid;
        }
    }
    proof {
        lemma_sqrt_floor_unique(n as nat, lo as nat);
    }
    lo
}

/// Division rounding toward zero (the divisor is positive).
pub open spec fn div_trunc_spec(n: int, d: int) -> int {
    if n >= 0 {
        n / d
    } else {
        -((-n) / d)
    }
}

/// Truncating signed division, as hardware division would behave.
pub fn div_trunc(n: i128, d: i128) -> (q: i128)
    requires
        d > 0,
        n > i128::MIN,
    ensures
        q == div_trunc_spec(n as int, d as int),
{
    if n >= 0 {
        let q = (n as u128) / (d as u128);
        proof {
            vstd::arithmetic::div_mod::lemma_div_is_ordered_by_denominator(n as int, 1, d as int);
            vstd::arithmetic::div_mod::lemma_div_pos_is_pos(n as int, d as int);
        }
        q as i128
    } else {
        let m = ((-n) as u128) / (d as u128);
        proof {
            vstd::arithmetic::div_mod::lemma_div_is_ordered_by_denominator(-n as int, 1, d as int);
            vstd::arithmetic::div_mod::lemma_div_pos_is_pos(-n as int, d as int);
        }
        -(m as i128)
    }
}

} // verus!
