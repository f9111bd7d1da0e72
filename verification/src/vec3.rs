//! Three-component fixed-point vectors, used interchangeably for points,
//! directions and colors. Every executable operation returns exactly the
//! value of its spec-level counterpart, so whole-pipeline results are pinned.

use crate::fixed::{
    abs_i, clamp_fp, clamp_s, div_fp, fdiv_s, fmul_s, fsqrt_s, lemma_abs_mul, lemma_fmul_bound,
    mul_fp, sqrt_fp, DOT_ARG_MAX, SCALE,
};
use vstd::prelude::*;

verus! {

#[derive(Clone, Copy, PartialEq, Eq, Structural, Debug)]
pub struct Vec3 {
    pub x: i64,
    pub y: i64,
    pub z: i64,
}

pub open spec fn bounded_s(v: Vec3, b: int) -> bool {
    abs_i(v.x as int) <= b && abs_i(v.y as int) <= b && abs_i(v.z as int) <= b
}

/// A color: every channel within the unit interval `[0, 1]` (raw `[0, SCALE]`).
pub open spec fn in_unit_color(v: Vec3) -> bool {
    0 <= v.x <= SCALE && 0 <= v.y <= SCALE && 0 <= v.z <= SCALE
}

pub open spec fn zero_v() -> Vec3 {
    Vec3 { x: 0, y: 0, z: 0 }
}

pub open spec fn add_v(a: Vec3, b: Vec3) -> Vec3 {
    Vec3 { x: (a.x + b.x) as i64, y: (a.y + b.y) as i64, z: (a.z + b.z) as i64 }
}

pub open spec fn sub_v(a: Vec3, b: Vec3) -> Vec3 {
    Vec3 { x: (a.x - b.x) as i64, y: (a.y - b.y) as i64, z: (a.z - b.z) as i64 }
}

pub open spec fn neg_v(a: Vec3) -> Vec3 {
    Vec3 { x: (-a.x) as i64, y: (-a.y) as i64, z: (-a.z) as i64 }
}

pub open spec fn scale_v(t: int, v: Vec3) -> Vec3 {
    Vec3 {
        x: fmul_s(t, v.x as int) as i64,
        y: fmul_s(t, v.y as int) as i64,
        z: fmul_s(t, v.z as int) as i64,
    }
}

/// Component-wise product, the color attenuation operation.
pub open spec fn hadamard_v(a: Vec3, b: Vec3) -> Vec3 {
    Vec3 {
        x: fmul_s(a.x as int, b.x as int) as i64,
        y: fmul_s(a.y as int, b.y as int) as i64,
        z: fmul_s(a.z as int, b.z as int) as i64,
    }
}

pub open spec fn dot_s(a: Vec3, b: Vec3) -> int {
    fmul_s(a.x as int, b.x as int) + fmul_s(a.y as int, b.y as int) + fmul_s(
        a.z as int,
        b.z as int,
    )
}

pub open spec fn cross_s(a: Vec3, b: Vec3) -> Vec3 {
    Vec3 {
        x: (fmul_s(a.y as int, b.z as int) - fmul_s(a.z as int, b.y as int)) as i64,
        y: (fmul_s(a.z as int, b.x as int) - fmul_s(a.x as int, b.z as int)) as i64,
        z: (fmul_s(a.x as int, b.y as int) - fmul_s(a.y as int, b.x as int)) as i64,
    }
}

/// The normalized vector, each component clamped into `[-2, 2]` to give a
/// rounding-proof component bound.
pub open spec fn unit_s(v: Vec3) -> Vec3 {
    let len = fsqrt_s(dot_s(v, v));
    Vec3 {
        x: clamp_s(fdiv_s(v.x as int, len), -2 * (SCALE as int), 0x2_0000) as i64,
        y: clamp_s(fdiv_s(v.y as int, len), -2 * (SCALE as int), 0x2_0000) as i64,
        z: clamp_s(fdiv_s(v.z as int, len), -2 * (SCALE as int), 0x2_0000) as i64,
    }
}

/// Normalization guarded against vectors too short to carry direction
/// information (squared length below one raw step).
pub open spec fn unit_or_zero_s(v: Vec3) -> Vec3 {
    if dot_s(v, v) >= 1 {
        unit_s(v)
    } else {
        zero_v()
    }
}

/// A direction is degenerate when every component is smaller in magnitude
/// than the designed threshold; the threshold (1e-8) lies below one raw step,
/// so the test is exact zero.
pub open spec fn near_zero_s(v: Vec3) -> bool {
    v.x == 0 && v.y == 0 && v.z == 0
}

/// Scaling a `bv`-bounded vector by a `bt`-bounded factor keeps it within
/// any `m` with `bt * bv <= m * SCALE`.
pub proof fn lemma_scale_v_bound(t: int, v: Vec3, bt: int, bv: int, m: int)
    requires
        abs_i(t) <= bt,
        bounded_s(v, bv),
        0 <= m,
        bt * bv <= m * (SCALE as int),
    ensures
        bounded_s(scale_v(t, v), m),
{
    lemma_abs_mul(t, v.x as int, bt, bv);
    lemma_abs_mul(t, v.y as int, bt, bv);
    lemma_abs_mul(t, v.z as int, bt, bv);
    lemma_fmul_bound(t, v.x as int, m);
    lemma_fmul_bound(t, v.y as int, m);
    lemma_fmul_bound(t, v.z as int, m);
}

/// A dot product of `ba`/`bb`-bounded vectors is at most `3 * m` in magnitude
/// whenever `ba * bb <= m * SCALE`.
pub proof fn lemma_dot_s_bound(a: Vec3, b: Vec3, ba: int, bb: int, m: int)
    requires
        bounded_s(a, ba),
        bounded_s(b, bb),
        0 <= m,
        ba * bb <= m * (SCALE as int),
    ensures
        abs_i(dot_s(a, b)) <= 3 * m,
{
    lemma_abs_mul(a.x as int, b.x as int, ba, bb);
    lemma_abs_mul(a.y as int, b.y as int, ba, bb);
    lemma_abs_mul(a.z as int, b.z as int, ba, bb);
    lemma_fmul_bound(a.x as int, b.x as int, m);
    lemma_fmul_bound(a.y as int, b.y as int, m);
    lemma_fmul_bound(a.z as int, b.z as int, m);
}

/// A cross product of `ba`/`bb`-bounded vectors is bounded by `2 * m`
/// whenever `ba * bb <= m * 65536`.
pub proof fn lemma_cross_bound(a: Vec3, b: Vec3, ba: int, bb: int, m: int)
    requires
        bounded_s(a, ba),
        bounded_s(b, bb),
        0 <= m,
        ba * bb <= m * (SCALE as int),
    ensures
        bounded_s(cross_s(a, b), 2 * m),
{
    lemma_abs_mul(a.x as int, b.y as int, ba, bb);
    lemma_abs_mul(a.x as int, b.z as int, ba, bb);
    lemma_abs_mul(a.y as int, b.x as int, ba, bb);
    lemma_abs_mul(a.y as int, b.z as int, ba, bb);
    lemma_abs_mul(a.z as int, b.x as int, ba, bb);
    lemma_abs_mul(a.z as int, b.y as int, ba, bb);
    lemma_fmul_bound(a.x as int, b.y as int, m);
    lemma_fmul_bound(a.x as int, b.z as int, m);
    lemma_fmul_bound(a.y as int, b.x as int, m);
    lemma_fmul_bound(a.y as int, b.z as int, m);
    lemma_fmul_bound(a.z as int, b.x as int, m);
    lemma_fmul_bound(a.z as int, b.y as int, m);
}

/// Negating one argument negates a dot product.
pub proof fn lemma_dot_neg(a: Vec3, b: Vec3)
    requires
        bounded_s(b, 0x3fff_ffff_ffff_ffff),
    ensures
        dot_s(a, neg_v(b)) == -dot_s(a, b),
{
    crate::fixed::lemma_fmul_neg(a.x as int, b.x as int);
    crate::fixed::lemma_fmul_neg(a.y as int, b.y as int);
    crate::fixed::lemma_fmul_neg(a.z as int, b.z as int);
}

/// Attenuating one unit color by another keeps it a unit color.
pub proof fn lemma_hadamard_unit(a: Vec3, b: Vec3)
    requires
        in_unit_color(a),
        in_unit_color(b),
    ensures
        in_unit_color(hadamard_v(a, b)),
{
    crate::fixed::lemma_fmul_unit(a.x as int, b.x as int);
    crate::fixed::lemma_fmul_unit(a.y as int, b.y as int);
    crate::fixed::lemma_fmul_unit(a.z as int, b.z as int);
}

/// Normalizing a vector whose squared length lies in `[1/4, 1]` yields a
/// near-unit vector: its squared length is within 64 raw steps (under 0.001)
/// of one. This is the accuracy guarantee behind the sampler's acceptance
/// floor.
#[verifier::rlimit(100)]
#[verifier::spinoff_prover]
pub proof fn lemma_unit_s_length(v: Vec3)
    requires
        bounded_s(v, SCALE as int),
        16384 <= dot_s(v, v) <= SCALE as int,
    ensures
        (SCALE as int) - 64 <= dot_s(unit_s(v), unit_s(v)),
        dot_s(unit_s(v), unit_s(v)) <= (SCALE as int) + 64,
{
    let s = SCALE as int;
    let d = dot_s(v, v);
    let x1 = v.x as int;
    let x2 = v.y as int;
    let x3 = v.z as int;
    let xx = x1 * x1 + x2 * x2 + x3 * x3;
    crate::fixed::lemma_fmul_sq_char(x1);
    crate::fixed::lemma_fmul_sq_char(x2);
    crate::fixed::lemma_fmul_sq_char(x3);
    assert(d * s <= xx && xx < (d + 3) * s) by (nonlinear_arith)
        requires
            d == fmul_s(x1, x1) + fmul_s(x2, x2) + fmul_s(x3, x3),
            fmul_s(x1, x1) * s <= x1 * x1,
            x1 * x1 < (fmul_s(x1, x1) + 1) * s,
            fmul_s(x2, x2) * s <= x2 * x2,
            x2 * x2 < (fmul_s(x2, x2) + 1) * s,
            fmul_s(x3, x3) * s <= x3 * x3,
            x3 * x3 < (fmul_s(x3, x3) + 1) * s,
            xx == x1 * x1 + x2 * x2 + x3 * x3,
    ;
    let len = crate::fixed::fsqrt_s(d);
    assert(d * s >= 0) by (nonlinear_arith)
        requires
            d >= 0,
            s > 0,
    ;
    crate::fixed::lemma_isqrt_exists(d * s);
    let len2 = len * len;
    assert(len >= 32768) by (nonlinear_arith)
        requires
            d * s < (len + 1) * (len + 1),
            d >= 16384,
            s == 65536,
            len >= 0,
    ;
    assert(len <= s) by (nonlinear_arith)
        requires
            len * len <= d * s,
            d <= s,
            s == 65536,
            len >= 0,
    ;
    let q1 = fdiv_s(x1, len);
    let q2 = fdiv_s(x2, len);
    let q3 = fdiv_s(x3, len);
    let t1 = abs_i(q1);
    let t2 = abs_i(q2);
    let t3 = abs_i(q3);
    crate::fixed::lemma_fdiv_char(x1, len);
    crate::fixed::lemma_fdiv_char(x2, len);
    crate::fixed::lemma_fdiv_char(x3, len);
    assert(t1 <= 2 * s && t2 <= 2 * s && t3 <= 2 * s) by (nonlinear_arith)
        requires
            t1 * len <= abs_i(x1) * s,
            t2 * len <= abs_i(x2) * s,
            t3 * len <= abs_i(x3) * s,
            abs_i(x1) <= s,
            abs_i(x2) <= s,
            abs_i(x3) <= s,
            len >= 32768,
            s == 65536,
            t1 >= 0,
            t2 >= 0,
            t3 >= 0,
            abs_i(x1) >= 0,
            abs_i(x2) >= 0,
            abs_i(x3) >= 0,
    ;
    let u = unit_s(v);
    assert(u.x as int == q1 && u.y as int == q2 && u.z as int == q3);
    // squares of the per-component characterizations
    lemma_abs_mul(x1, x1, s, s);
    lemma_abs_mul(x2, x2, s, s);
    lemma_abs_mul(x3, x3, s, s);
    assert(x1 * x1 >= 0 && x2 * x2 >= 0 && x3 * x3 >= 0) by (nonlinear_arith);
    assert(abs_i(x1) * abs_i(x1) == x1 * x1);
    assert(abs_i(x2) * abs_i(x2) == x2 * x2);
    assert(abs_i(x3) * abs_i(x3) == x3 * x3);
    assert(t1 * t1 * len2 <= (x1 * x1) * (s * s) && (x1 * x1) * (s * s) < (t1 + 1) * (t1 + 1)
        * len2) by (nonlinear_arith)
        requires
            t1 * len <= abs_i(x1) * s,
            abs_i(x1) * s < (t1 + 1) * len,
            t1 >= 0,
            len > 0,
            abs_i(x1) >= 0,
            abs_i(x1) * abs_i(x1) == x1 * x1,
            len2 == len * len,
    ;
    assert(t2 * t2 * len2 <= (x2 * x2) * (s * s) && (x2 * x2) * (s * s) < (t2 + 1) * (t2 + 1)
        * len2) by (nonlinear_arith)
        requires
            t2 * len <= abs_i(x2) * s,
            abs_i(x2) * s < (t2 + 1) * len,
            t2 >= 0,
            len > 0,
            abs_i(x2) >= 0,
            abs_i(x2) * abs_i(x2) == x2 * x2,
            len2 == len * len,
    ;
    assert(t3 * t3 * len2 <= (x3 * x3) * (s * s) && (x3 * x3) * (s * s) < (t3 + 1) * (t3 + 1)
        * len2) by (nonlinear_arith)
        requires
            t3 * len <= abs_i(x3) * s,
            abs_i(x3) * s < (t3 + 1) * len,
            t3 >= 0,
            len > 0,
            abs_i(x3) >= 0,
            abs_i(x3) * abs_i(x3) == x3 * x3,
            len2 == len * len,
    ;
    let tt = t1 * t1 + t2 * t2 + t3 * t3;
    assert(tt * len2 <= xx * (s * s)) by (nonlinear_arith)
        requires
            t1 * t1 * len2 <= (x1 * x1) * (s * s),
            t2 * t2 * len2 <= (x2 * x2) * (s * s),
            t3 * t3 * len2 <= (x3 * x3) * (s * s),
            tt == t1 * t1 + t2 * t2 + t3 * t3,
            xx == x1 * x1 + x2 * x2 + x3 * x3,
    ;
    assert(xx * (s * s) < (tt + 2 * (t1 + t2 + t3) + 3) * len2) by (nonlinear_arith)
        requires
            (x1 * x1) * (s * s) < (t1 + 1) * (t1 + 1) * len2,
            (x2 * x2) * (s * s) < (t2 + 1) * (t2 + 1) * len2,
            (x3 * x3) * (s * s) < (t3 + 1) * (t3 + 1) * len2,
            tt == t1 * t1 + t2 * t2 + t3 * t3,
            xx == x1 * x1 + x2 * x2 + x3 * x3,
    ;
    // upper bound
    assert(len2 >= d * s - 2 * s) by (nonlinear_arith)
        requires
            d * s < (len + 1) * (len + 1),
            len <= s,
            len2 == len * len,
            len >= 0,
            s == 65536,
    ;
    assert((d + 3) * s * (s * s) <= (s + 64) * s * (d * s - 2 * s)) by (nonlinear_arith)
        requires
            16384 <= d <= s,
            s == 65536,
    ;
    assert(tt <= (s + 64) * s) by (nonlinear_arith)
        requires
            tt * len2 <= xx * (s * s),
            xx < (d + 3) * s,
            len2 >= d * s - 2 * s,
            (d + 3) * s * (s * s) <= (s + 64) * s * (d * s - 2 * s),
            d * s - 2 * s > 0,
            tt >= 0,
            s == 65536,
            16384 <= d <= s,
    ;
    // the result's own dot product, characterized over the t_i
    crate::fixed::lemma_fmul_sq_char(q1);
    crate::fixed::lemma_fmul_sq_char(q2);
    crate::fixed::lemma_fmul_sq_char(q3);
    lemma_abs_mul(q1, q1, 2 * s, 2 * s);
    lemma_abs_mul(q2, q2, 2 * s, 2 * s);
    lemma_abs_mul(q3, q3, 2 * s, 2 * s);
    assert(q1 * q1 >= 0 && q2 * q2 >= 0 && q3 * q3 >= 0) by (nonlinear_arith);
    assert(q1 * q1 == t1 * t1 && q2 * q2 == t2 * t2 && q3 * q3 == t3 * t3);
    let du = dot_s(u, u);
    assert(du == fmul_s(q1, q1) + fmul_s(q2, q2) + fmul_s(q3, q3));
    assert(du * s <= tt && tt < (du + 3) * s) by (nonlinear_arith)
        requires
            du == fmul_s(q1, q1) + fmul_s(q2, q2) + fmul_s(q3, q3),
            fmul_s(q1, q1) * s <= q1 * q1,
            q1 * q1 < (fmul_s(q1, q1) + 1) * s,
            fmul_s(q2, q2) * s <= q2 * q2,
            q2 * q2 < (fmul_s(q2, q2) + 1) * s,
            fmul_s(q3, q3) * s <= q3 * q3,
            q3 * q3 < (fmul_s(q3, q3) + 1) * s,
            tt == t1 * t1 + t2 * t2 + t3 * t3,
            q1 * q1 == t1 * t1,
            q2 * q2 == t2 * t2,
            q3 * q3 == t3 * t3,
    ;
    assert(du <= s + 64) by (nonlinear_arith)
        requires
            du * s <= tt,
            tt <= (s + 64) * s,
            s == 65536,
    ;
    // lower bound
    assert(len2 <= d * s);
    assert(xx * (s * s) >= (d * s) * (s * s)) by (nonlinear_arith)
        requires
            xx >= d * s,
            s == 65536,
    ;
    assert(xx * (s * s) < (tt + 12 * s + 3) * (d * s)) by (nonlinear_arith)
        requires
            xx * (s * s) < (tt + 2 * (t1 + t2 + t3) + 3) * len2,
            t1 + t2 + t3 <= 6 * s,
            len2 <= d * s,
            len2 >= 0,
            tt >= 0,
            d * s >= 0,
            t1 >= 0,
            t2 >= 0,
            t3 >= 0,
            s == 65536,
    ;
    assert(tt > s * s - 12 * s - 3) by (nonlinear_arith)
        requires
            (d * s) * (s * s) <= xx * (s * s),
            xx * (s * s) < (tt + 12 * s + 3) * (d * s),
            d * s > 0,
            s == 65536,
    ;
    assert(du >= s - 64) by (nonlinear_arith)
        requires
            tt < (du + 3) * s,
            tt > s * s - 12 * s - 3,
            s == 65536,
    ;
}

/// A vector's dot product with itself is non-negative.
pub proof fn lemma_dot_self_nonneg(v: Vec3)
    ensures
        dot_s(v, v) >= 0,
{
    lemma_fmul_self_nonneg(v.x as int);
    lemma_fmul_self_nonneg(v.y as int);
    lemma_fmul_self_nonneg(v.z as int);
}

proof fn lemma_fmul_self_nonneg(a: int)
    ensures
        fmul_s(a, a) >= 0,
{
    assert(a * a >= 0) by (nonlinear_arith);
    if a * a >= 0 {
        vstd::arithmetic::div_mod::lemma_div_pos_is_pos(a * a, SCALE as int);
    }
}

impl Vec3 {
    pub fn new(x: i64, y: i64, z: i64) -> (r: Vec3)
        ensures
            r == (Vec3 { x, y, z }),
    {
        Vec3 { x, y, z }
    }

    pub fn zero() -> (r: Vec3)
        ensures
            r == zero_v(),
    {
        Vec3 { x: 0, y: 0, z: 0 }
    }

    pub fn add(self, o: Vec3) -> (r: Vec3)
        requires
            bounded_s(self, 0x3fff_ffff_ffff_ffff),
            bounded_s(o, 0x3fff_ffff_ffff_ffff),
        ensures
            r == add_v(self, o),
    {
        Vec3 { x: self.x + o.x, y: self.y + o.y, z: self.z + o.z }
    }

    pub fn sub(self, o: Vec3) -> (r: Vec3)
        requires
            bounded_s(self, 0x3fff_ffff_ffff_ffff),
            bounded_s(o, 0x3fff_ffff_ffff_ffff),
        ensures
            r == sub_v(self, o),
    {
        Vec3 { x: self.x - o.x, y: self.y - o.y, z: self.z - o.z }
    }

    pub fn neg(self) -> (r: Vec3)
        requires
            bounded_s(self, 0x3fff_ffff_ffff_ffff),
        ensures
            r == neg_v(self),
    {
        Vec3 { x: -self.x, y: -self.y, z: -self.z }
    }

    pub fn scale(self, t: i64) -> (r: Vec3)
        requires
            abs_i(t as int) <= 0x10_0000_0000,
            bounded_s(self, DOT_ARG_MAX as int),
        ensures
            r == scale_v(t as int, self),
    {
        proof {
            lemma_abs_mul(t as int, self.x as int, 0x10_0000_0000, DOT_ARG_MAX as int);
            lemma_abs_mul(t as int, self.y as int, 0x10_0000_0000, DOT_ARG_MAX as int);
            lemma_abs_mul(t as int, self.z as int, 0x10_0000_0000, DOT_ARG_MAX as int);
        }
        Vec3 { x: mul_fp(t, self.x), y: mul_fp(t, self.y), z: mul_fp(t, self.z) }
    }

    /// Component-wise (Hadamard) product; with colors, the attenuation step.
    pub fn mul(self, o: Vec3) -> (r: Vec3)
        requires
            bounded_s(self, DOT_ARG_MAX as int),
            bounded_s(o, DOT_ARG_MAX as int),
        ensures
            r == hadamard_v(self, o),
    {
        proof {
            lemma_abs_mul(self.x as int, o.x as int, DOT_ARG_MAX as int, DOT_ARG_MAX as int);
            lemma_abs_mul(self.y as int, o.y as int, DOT_ARG_MAX as int, DOT_ARG_MAX as int);
            lemma_abs_mul(self.z as int, o.z as int, DOT_ARG_MAX as int, DOT_ARG_MAX as int);
        }
        Vec3 { x: mul_fp(self.x, o.x), y: mul_fp(self.y, o.y), z: mul_fp(self.z, o.z) }
    }

    pub fn dot(self, o: Vec3) -> (r: i64)
        requires
            bounded_s(self, DOT_ARG_MAX as int),
            bounded_s(o, DOT_ARG_MAX as int),
        ensures
            r as int == dot_s(self, o),
            abs_i(r as int) <= 0x3000_0000_0000,
    {
        proof {
            lemma_abs_mul(self.x as int, o.x as int, DOT_ARG_MAX as int, DOT_ARG_MAX as int);
            lemma_abs_mul(self.y as int, o.y as int, DOT_ARG_MAX as int, DOT_ARG_MAX as int);
            lemma_abs_mul(self.z as int, o.z as int, DOT_ARG_MAX as int, DOT_ARG_MAX as int);
            lemma_fmul_bound(self.x as int, o.x as int, 0x1000_0000_0000);
            lemma_fmul_bound(self.y as int, o.y as int, 0x1000_0000_0000);
            lemma_fmul_bound(self.z as int, o.z as int, 0x1000_0000_0000);
        }
        mul_fp(self.x, o.x) + mul_fp(self.y, o.y) + mul_fp(self.z, o.z)
    }

    pub fn cross(self, o: Vec3) -> (r: Vec3)
        requires
            bounded_s(self, DOT_ARG_MAX as int),
            bounded_s(o, DOT_ARG_MAX as int),
        ensures
            r == cross_s(self, o),
            bounded_s(r, 0x2000_0000_0000),
    {
        proof {
            let m = DOT_ARG_MAX as int;
            lemma_abs_mul(self.x as int, o.x as int, m, m);
            lemma_abs_mul(self.x as int, o.y as int, m, m);
            lemma_abs_mul(self.x as int, o.z as int, m, m);
            lemma_abs_mul(self.y as int, o.x as int, m, m);
            lemma_abs_mul(self.y as int, o.y as int, m, m);
            lemma_abs_mul(self.y as int, o.z as int, m, m);
            lemma_abs_mul(self.z as int, o.x as int, m, m);
            lemma_abs_mul(self.z as int, o.y as int, m, m);
            lemma_abs_mul(self.z as int, o.z as int, m, m);
            lemma_fmul_bound(self.x as int, o.y as int, 0x1000_0000_0000);
            lemma_fmul_bound(self.x as int, o.z as int, 0x1000_0000_0000);
            lemma_fmul_bound(self.y as int, o.x as int, 0x1000_0000_0000);
            lemma_fmul_bound(self.y as int, o.z as int, 0x1000_0000_0000);
            lemma_fmul_bound(self.z as int, o.x as int, 0x1000_0000_0000);
            lemma_fmul_bound(self.z as int, o.y as int, 0x1000_0000_0000);
        }
        Vec3 {
            x: mul_fp(self.y, o.z) - mul_fp(self.z, o.y),
            y: mul_fp(self.z, o.x) - mul_fp(self.x, o.z),
            z: mul_fp(self.x, o.y) - mul_fp(self.y, o.x),
        }
    }

    pub fn length_squared(self) -> (r: i64)
        requires
            bounded_s(self, DOT_ARG_MAX as int),
        ensures
            r as int == dot_s(self, self),
            0 <= r,
            r <= 0x3000_0000_0000,
    {
        proof {
            lemma_dot_self_nonneg(self);
        }
        self.dot(self)
    }

    pub fn length(self) -> (r: i64)
        requires
            bounded_s(self, DOT_ARG_MAX as int),
        ensures
            r as int == fsqrt_s(dot_s(self, self)),
            0 <= r <= 0x1_0000_0000,
            (r as int) * (r as int) <= dot_s(self, self) * (SCALE as int),
            dot_s(self, self) * (SCALE as int) < (r as int + 1) * (r as int + 1),
    {
        let sq = self.length_squared();
        sqrt_fp(sq)
    }

    /// Normalize; callers must supply a direction at least one raw step long.
    pub fn unit(self) -> (r: Vec3)
        requires
            bounded_s(self, DOT_ARG_MAX as int),
            dot_s(self, self) >= 1,
        ensures
            r == unit_s(self),
            bounded_s(r, 0x2_0000),
    {
        let len = self.length();
        proof {
            assert((len as int) * (len as int) <= dot_s(self, self) * (SCALE as int));
            assert(len >= 1) by (nonlinear_arith)
                requires
                    dot_s(self, self) * (SCALE as int) < (len as int + 1) * (len as int + 1),
                    dot_s(self, self) >= 1,
                    len >= 0,
                    SCALE == 65536,
            ;
        }
        Vec3 {
            x: clamp_fp(div_fp(self.x, len), -2 * SCALE, 2 * SCALE),
            y: clamp_fp(div_fp(self.y, len), -2 * SCALE, 2 * SCALE),
            z: clamp_fp(div_fp(self.z, len), -2 * SCALE, 2 * SCALE),
        }
    }

    /// Normalize, or return the zero vector when the input is too short.
    pub fn unit_or_zero(self) -> (r: Vec3)
        requires
            bounded_s(self, DOT_ARG_MAX as int),
        ensures
            r == unit_or_zero_s(self),
            bounded_s(r, 0x2_0000),
    {
        let sq = self.length_squared();
        if sq >= 1 {
            self.unit()
        } else {
            Vec3::zero()
        }
    }

    pub fn near_zero(self) -> (r: bool)
        ensures
            r == near_zero_s(self),
    {
        self.x == 0 && self.y == 0 && self.z == 0
    }
}

} // verus!
