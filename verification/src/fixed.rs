//! Q.16 fixed-point arithmetic: every geometric quantity in this crate is an
//! `i64` holding `value * SCALE`, so that the renderer's numeric behaviour is
//! exact integer arithmetic and can be specified and proved precisely.

use vstd::arithmetic::div_mod::{
    lemma_div_is_ordered, lemma_div_multiples_vanish, lemma_div_pos_is_pos,
};
use vstd::prelude::*;

verus! {

/// Number of raw steps per unit: a raw value `v` denotes the real number `v / SCALE`.
pub const SCALE: i64 = 65536;

/// Largest coordinate magnitude (raw) the world model admits for a sphere
/// center or a camera position.
pub const POS_MAX: i64 = 0x800_0000;

/// Largest coordinate magnitude (raw) of a reachable hit point or ray
/// origin: the center bound plus the radius bound, so every exact surface
/// point of a well-formed sphere sits at least `RAD_MAX` inside it.
pub const REACH_MAX: i64 = 0xC00_0000;

/// Largest component magnitude (raw) the world model admits for a ray direction.
pub const DIR_MAX: i64 = 0x200_0000;

/// Largest sphere radius magnitude (raw) the world model admits.
pub const RAD_MAX: i64 = 0x400_0000;

/// Upper bound (raw) of the ray-parameter search interval. The parameter is
/// measured in direction lengths: for a direction of at least unit length
/// this horizon exceeds the diameter of the reachable world, while a
/// shorter direction sees a proportionally shorter horizon. It stands in
/// for an unbounded search interval, which fixed-width arithmetic cannot
/// hold.
pub const T_MAX: i64 = 0x4000_0000;

/// Lower bound (raw) of the ray-parameter search interval used by the
/// integrator; roughly 0.001, suppressing self-intersection at a scattered
/// ray's own origin.
pub const T_EPS: i64 = 66;

/// Largest component magnitude accepted by the vector dot/cross/scale
/// operations; all world quantities stay far below it.
pub const DOT_ARG_MAX: i64 = 0x4000_0000;

pub open spec fn abs_i(a: int) -> int {
    if a >= 0 {
        a
    } else {
        -a
    }
}

/// Truncated (round-toward-zero) division by a positive divisor, which is what
/// the executable magnitude/sign implementations below compute.
pub open spec fn div_t(p: int, q: int) -> int
    recommends
        q > 0,
{
    if p >= 0 {
        p / q
    } else {
        -((-p) / q)
    }
}

/// Fixed-point product: `(a * b) / SCALE`, truncated toward zero.
pub open spec fn fmul_s(a: int, b: int) -> int {
    div_t(a * b, SCALE as int)
}

/// Fixed-point quotient: `(a * SCALE) / b`, truncated toward zero.
pub open spec fn fdiv_s(a: int, b: int) -> int
    recommends
        b != 0,
{
    if b > 0 {
        div_t(a * (SCALE as int), b)
    } else {
        -div_t(a * (SCALE as int), -b)
    }
}

pub open spec fn is_isqrt(x: int, r: int) -> bool {
    0 <= r && r * r <= x && x < (r + 1) * (r + 1)
}

/// The integer square root (unique when it exists; see `lemma_isqrt_unique`).
pub open spec fn sqrt_i(x: int) -> int {
    choose|r: int| is_isqrt(x, r)
}

/// Fixed-point square root: the raw value of `sqrt(x / SCALE)` is `isqrt(x * SCALE)`.
pub open spec fn fsqrt_s(x: int) -> int {
    sqrt_i(x * (SCALE as int))
}

pub open spec fn clamp_s(x: int, lo: int, hi: int) -> int {
    if x < lo {
        lo
    } else if x > hi {
        hi
    } else {
        x
    }
}

pub proof fn lemma_isqrt_unique(x: int, r1: int, r2: int)
    requires
        is_isqrt(x, r1),
        is_isqrt(x, r2),
    ensures
        r1 == r2,
{
    if r1 < r2 {
        assert((r1 + 1) * (r1 + 1) <= r2 * r2) by (nonlinear_arith)
            requires
                0 <= r1,
                r1 + 1 <= r2,
        ;
    }
    if r2 < r1 {
        assert((r2 + 1) * (r2 + 1) <= r1 * r1) by (nonlinear_arith)
            requires
                0 <= r2,
                r2 + 1 <= r1,
        ;
    }
}

/// Magnitudes multiply: `|a * b| == |a| * |b|`, and a product bound follows
/// from bounds on the factors.
pub proof fn lemma_abs_mul(a: int, b: int, ba: int, bb: int)
    requires
        abs_i(a) <= ba,
        abs_i(b) <= bb,
    ensures
        abs_i(a * b) == abs_i(a) * abs_i(b),
        abs_i(a * b) <= ba * bb,
{
    assert(abs_i(a * b) == abs_i(a) * abs_i(b)) by (nonlinear_arith);
    assert(abs_i(a) * abs_i(b) <= ba * bb) by (nonlinear_arith)
        requires
            0 <= abs_i(a) <= ba,
            0 <= abs_i(b) <= bb,
    ;
}

/// Truncated division shrinks magnitudes: if `|p| <= m * q` then `|p / q| <= m`.
pub proof fn lemma_div_t_bound(p: int, q: int, m: int)
    requires
        q > 0,
        0 <= m,
        abs_i(p) <= m * q,
    ensures
        abs_i(div_t(p, q)) <= m,
        p >= 0 ==> 0 <= div_t(p, q) && div_t(p, q) * q <= p,
        p <= 0 ==> div_t(p, q) <= 0 && p <= div_t(p, q) * q,
{
    lemma_div_multiples_vanish(m, q);
    assert(m * q == q * m);
    if p >= 0 {
        lemma_div_pos_is_pos(p, q);
        lemma_div_is_ordered(p, m * q, q);
        vstd::arithmetic::div_mod::lemma_fundamental_div_mod(p, q);
        vstd::arithmetic::div_mod::lemma_mod_bound(p, q);
        assert(div_t(p, q) * q <= p) by (nonlinear_arith)
            requires
                p == q * (p / q) + p % q,
                0 <= p % q,
                div_t(p, q) == p / q,
        ;
    } else {
        lemma_div_pos_is_pos(-p, q);
        lemma_div_is_ordered(-p, m * q, q);
        vstd::arithmetic::div_mod::lemma_fundamental_div_mod(-p, q);
        vstd::arithmetic::div_mod::lemma_mod_bound(-p, q);
        assert(p <= div_t(p, q) * q) by (nonlinear_arith)
            requires
                -p == q * ((-p) / q) + (-p) % q,
                0 <= (-p) % q,
                div_t(p, q) == -((-p) / q),
        ;
    }
}

/// The two-sided characterization of truncated division of a non-negative
/// value: `div_t(p, q) * q <= p < (div_t(p, q) + 1) * q`.
pub proof fn lemma_div_t_char(p: int, q: int)
    requires
        q > 0,
        p >= 0,
    ensures
        0 <= div_t(p, q),
        div_t(p, q) * q <= p,
        p < (div_t(p, q) + 1) * q,
{
    lemma_div_pos_is_pos(p, q);
    vstd::arithmetic::div_mod::lemma_fundamental_div_mod(p, q);
    vstd::arithmetic::div_mod::lemma_mod_bound(p, q);
    assert(div_t(p, q) * q <= p && p < (div_t(p, q) + 1) * q) by (nonlinear_arith)
        requires
            p == q * (p / q) + p % q,
            0 <= p % q < q,
            div_t(p, q) == p / q,
    ;
}

/// The two-sided characterization of a fixed-point square:
/// `fmul_s(x, x) * SCALE <= x * x < (fmul_s(x, x) + 1) * SCALE`.
pub proof fn lemma_fmul_sq_char(x: int)
    ensures
        0 <= fmul_s(x, x),
        fmul_s(x, x) * (SCALE as int) <= x * x,
        x * x < (fmul_s(x, x) + 1) * (SCALE as int),
{
    assert(x * x >= 0) by (nonlinear_arith);
    lemma_div_t_char(x * x, SCALE as int);
}

/// Every non-negative integer has an integer square root, so `sqrt_i` is
/// characterized on the whole domain.
pub proof fn lemma_isqrt_exists(x: int)
    requires
        0 <= x,
    ensures
        is_isqrt(x, sqrt_i(x)),
    decreases x,
{
    if x == 0 {
        assert(is_isqrt(0, 0));
        assert(exists|r: int| is_isqrt(0, r));
    } else {
        lemma_isqrt_exists(x - 1);
        let r = sqrt_i(x - 1);
        if x < (r + 1) * (r + 1) {
            assert(is_isqrt(x, r));
        } else {
            assert(x < (r + 2) * (r + 2)) by (nonlinear_arith)
                requires
                    r >= 0,
                    x - 1 < (r + 1) * (r + 1),
                    x >= (r + 1) * (r + 1),
            ;
            assert(is_isqrt(x, r + 1));
        }
        assert(exists|q: int| is_isqrt(x, q));
    }
}

/// The two-sided characterization of a fixed-point quotient's magnitude:
/// `|fdiv_s(a, b)| * b <= |a| * SCALE < (|fdiv_s(a, b)| + 1) * b` for `b > 0`.
pub proof fn lemma_fdiv_char(a: int, b: int)
    requires
        b > 0,
    ensures
        abs_i(fdiv_s(a, b)) * b <= abs_i(a) * (SCALE as int),
        abs_i(a) * (SCALE as int) < (abs_i(fdiv_s(a, b)) + 1) * b,
{
    let s = SCALE as int;
    if a >= 0 {
        assert(a * s >= 0) by (nonlinear_arith)
            requires
                a >= 0,
                s > 0,
        ;
        lemma_div_t_char(a * s, b);
        assert(abs_i(fdiv_s(a, b)) == div_t(a * s, b));
    } else {
        assert((-a) * s == -(a * s) && (-a) * s >= 0) by (nonlinear_arith)
            requires
                a < 0,
                s > 0,
        ;
        lemma_div_t_char((-a) * s, b);
        assert(abs_i(fdiv_s(a, b)) == div_t((-a) * s, b));
        assert(abs_i(a) * s == (-a) * s);
    }
}

/// A fixed-point product of factors whose plain product is at most
/// `m * SCALE` in magnitude is itself at most `m` in magnitude.
pub proof fn lemma_fmul_bound(a: int, b: int, m: int)
    requires
        0 <= m,
        abs_i(a * b) <= m * (SCALE as int),
    ensures
        abs_i(fmul_s(a, b)) <= m,
{
    lemma_div_t_bound(a * b, SCALE as int, m);
}

/// Closure of the unit interval under fixed-point multiplication.
pub proof fn lemma_fmul_unit(a: int, b: int)
    requires
        0 <= a <= SCALE as int,
        0 <= b <= SCALE as int,
    ensures
        0 <= fmul_s(a, b),
        fmul_s(a, b) <= a,
        fmul_s(a, b) <= b,
{
    let s = SCALE as int;
    assert(a * b <= a * s && a * b <= b * s && 0 <= a * b) by (nonlinear_arith)
        requires
            0 <= a <= s,
            0 <= b <= s,
    ;
    lemma_div_pos_is_pos(a * b, s);
    lemma_div_is_ordered(a * b, a * s, s);
    lemma_div_is_ordered(a * b, b * s, s);
    lemma_div_multiples_vanish(a, s);
    lemma_div_multiples_vanish(b, s);
    assert(a * s == s * a && b * s == s * b);
}

/// A fixed-point product of same-signed factors is non-negative.
pub proof fn lemma_fmul_nonneg(a: int, b: int)
    requires
        (a >= 0 && b >= 0) || (a <= 0 && b <= 0),
    ensures
        0 <= fmul_s(a, b),
{
    assert(a * b >= 0) by (nonlinear_arith)
        requires
            (a >= 0 && b >= 0) || (a <= 0 && b <= 0),
    ;
    lemma_div_pos_is_pos(a * b, SCALE as int);
}

/// A fixed-point square is non-negative.
pub proof fn lemma_fmul_sq_nonneg(a: int)
    ensures
        0 <= fmul_s(a, a),
{
    assert(a * a >= 0) by (nonlinear_arith);
    lemma_div_pos_is_pos(a * a, SCALE as int);
}

/// Fixed-point multiplication is odd in each argument.
pub proof fn lemma_fmul_neg(a: int, b: int)
    ensures
        fmul_s(a, -b) == -fmul_s(a, b),
        fmul_s(-a, b) == -fmul_s(a, b),
{
    assert(a * (-b) == -(a * b) && (-a) * b == -(a * b)) by (nonlinear_arith);
}

/// Coarse magnitude bound of a fixed-point quotient: the divisor is at least
/// one raw step, so the quotient is at most `|a| * SCALE`.
pub proof fn lemma_fdiv_bound(a: int, b: int)
    requires
        b != 0,
    ensures
        abs_i(fdiv_s(a, b)) <= abs_i(a) * (SCALE as int),
{
    let s = SCALE as int;
    assert(abs_i(a * s) == abs_i(a) * s) by (nonlinear_arith)
        requires
            s > 0,
    ;
    assert(abs_i(a) * s <= (abs_i(a) * s) * abs_i(b)) by (nonlinear_arith)
        requires
            abs_i(b) >= 1,
            abs_i(a) * s >= 0,
    ;
    if b > 0 {
        lemma_div_t_bound(a * s, b, abs_i(a) * s);
    } else {
        lemma_div_t_bound(a * s, -b, abs_i(a) * s);
    }
}

/// Fixed-point division is odd in each argument.
pub proof fn lemma_fdiv_neg(a: int, b: int)
    requires
        b != 0,
    ensures
        fdiv_s(-a, b) == -fdiv_s(a, b),
        fdiv_s(a, -b) == -fdiv_s(a, b),
{
    let s = SCALE as int;
    assert((-a) * s == -(a * s)) by (nonlinear_arith);
    if b > 0 {
        vstd::arithmetic::div_mod::lemma_div_of0(b);
    } else {
        vstd::arithmetic::div_mod::lemma_div_of0(-b);
    }
}

fn abs64(a: i64) -> (r: u64)
    requires
        a != i64::MIN,
    ensures
        r as int == abs_i(a as int),
{
    if a >= 0 {
        a as u64
    } else {
        (-a) as u64
    }
}

/// Fixed-point multiply. The product bound in `requires` is exactly what makes
/// the truncated quotient fit an `i64`.
pub fn mul_fp(a: i64, b: i64) -> (r: i64)
    requires
        a != i64::MIN,
        b != i64::MIN,
        abs_i((a as int) * (b as int)) <= 0x7fff_ffff_ffff_ffff * 0x10000,
    ensures
        r as int == fmul_s(a as int, b as int),
        (a as int) * (b as int) >= 0 ==> 0 <= r && (r as int) * (SCALE as int) <= (a as int) * (
        b as int),
        (a as int) * (b as int) <= 0 ==> r <= 0 && (a as int) * (b as int) <= (r as int) * (
        SCALE as int),
{
    let ghost p: int = (a as int) * (b as int);
    let neg = (a < 0) != (b < 0);
    let aa = abs64(a) as u128;
    let bb = abs64(b) as u128;
    proof {
        lemma_abs_mul(a as int, b as int, abs_i(a as int), abs_i(b as int));
        assert(aa * bb == abs_i(p)) by (nonlinear_arith)
            requires
                aa == abs_i(a as int),
                bb == abs_i(b as int),
                abs_i(p) == abs_i(a as int) * abs_i(b as int),
        ;
    }
    let q = (aa * bb) / (SCALE as u128);
    proof {
        lemma_div_t_bound(abs_i(p), SCALE as int, 0x7fff_ffff_ffff_ffff);
        assert(q == div_t(abs_i(p), SCALE as int));
        lemma_div_t_bound(p, SCALE as int, 0x7fff_ffff_ffff_ffff);
        assert(div_t(p, SCALE as int) == if p >= 0 {
            div_t(abs_i(p), SCALE as int)
        } else {
            -div_t(abs_i(p), SCALE as int)
        });
        assert(neg ==> p <= 0) by (nonlinear_arith)
            requires
                neg == ((a < 0) != (b < 0)),
                p == (a as int) * (b as int),
        ;
        assert(!neg ==> p >= 0) by (nonlinear_arith)
            requires
                neg == ((a < 0) != (b < 0)),
                p == (a as int) * (b as int),
        ;
    }
    if neg {
        -(q as i64)
    } else {
        q as i64
    }
}

/// Fixed-point divide. `|r| * |b| <= |a| * SCALE` is the coarse magnitude
/// bound callers use to control growth.
pub fn div_fp(a: i64, b: i64) -> (r: i64)
    requires
        b != 0,
        b != i64::MIN,
        abs_i(a as int) <= 0x7fff_ffff_ffff,
    ensures
        r as int == fdiv_s(a as int, b as int),
        abs_i(r as int) * abs_i(b as int) <= abs_i(a as int) * (SCALE as int),
        a >= 0 && b > 0 ==> r >= 0,
        a <= 0 && b > 0 ==> r <= 0,
        a >= 0 && b < 0 ==> r <= 0,
        a <= 0 && b < 0 ==> r >= 0,
{
    let neg = (a < 0) != (b < 0);
    let am = abs64(a);
    proof {
        assert((am as int) * (SCALE as int) <= 0x7fff_ffff_ffff * 0x10000) by (nonlinear_arith)
            requires
                am as int <= 0x7fff_ffff_ffff,
                SCALE == 65536,
        ;
    }
    let aa = (am as u128) * (SCALE as u128);
    let bb = abs64(b) as u128;
    let q = aa / bb;
    proof {
        let ia = a as int;
        let ib = b as int;
        let s = SCALE as int;
        assert(aa == abs_i(ia) * s) by (nonlinear_arith)
            requires
                aa == abs_i(ia) * (SCALE as u128),
                s == SCALE as u128,
        ;
        lemma_div_pos_is_pos(abs_i(ia) * s, abs_i(ib));
        lemma_div_is_ordered(abs_i(ia) * s, 0x7fff_ffff_ffff * s, abs_i(ib));
        assert((0x7fff_ffff_ffff * s) / abs_i(ib) <= 0x7fff_ffff_ffff * s) by {
            vstd::arithmetic::div_mod::lemma_div_is_ordered_by_denominator(
                0x7fff_ffff_ffff * s,
                1,
                abs_i(ib),
            );
            vstd::arithmetic::div_mod::lemma_div_by_self(1);
            assert((0x7fff_ffff_ffff * s) / 1 == 0x7fff_ffff_ffff * s) by (nonlinear_arith);
        }
        // relate q to div_t of |a| * S
        assert(q == div_t(abs_i(ia) * s, abs_i(ib)));
        // magnitude bound: q * |b| <= |a| * S
        vstd::arithmetic::div_mod::lemma_fundamental_div_mod(abs_i(ia) * s, abs_i(ib));
        vstd::arithmetic::div_mod::lemma_mod_bound(abs_i(ia) * s, abs_i(ib));
        assert(q * abs_i(ib) <= abs_i(ia) * s) by (nonlinear_arith)
            requires
                abs_i(ia) * s == abs_i(ib) * ((abs_i(ia) * s) / abs_i(ib)) + (abs_i(ia) * s) % abs_i(
                    ib,
                ),
                0 <= (abs_i(ia) * s) % abs_i(ib),
                q == (abs_i(ia) * s) / abs_i(ib),
        ;
        // tie the sign/magnitude computation to fdiv_s
        assert(abs_i(ia * s) == abs_i(ia) * s) by (nonlinear_arith)
            requires
                s > 0,
        ;
        if ib > 0 {
            assert(fdiv_s(ia, ib) == div_t(ia * s, ib));
            assert(div_t(ia * s, ib) == if ia >= 0 {
                q as int
            } else {
                -(q as int)
            }) by (nonlinear_arith)
                requires
                    ib > 0,
                    s > 0,
                    q == div_t(abs_i(ia) * s, ib),
                    abs_i(ia * s) == abs_i(ia) * s,
            ;
        } else {
            assert(fdiv_s(ia, ib) == -div_t(ia * s, -ib));
            assert(-div_t(ia * s, -ib) == if ia >= 0 {
                -(q as int)
            } else {
                q as int
            }) by (nonlinear_arith)
                requires
                    ib < 0,
                    s > 0,
                    q == div_t(abs_i(ia) * s, -ib),
                    abs_i(ia * s) == abs_i(ia) * s,
            ;
        }
    }
    if neg {
        -(q as i64)
    } else {
        q as i64
    }
}

fn isqrt_u128(x: u128) -> (r: u128)
    requires
        x < 0x4000_0000_0000_0000_0000_0000_0000_0000,
    ensures
        is_isqrt(x as int, r as int),
        r <= 0x8000_0000_0000_0000,
{
    let mut lo: u128 = 0;
    let mut hi: u128 = 0x8000_0000_0000_0000;
    proof {
        assert((hi as int) * (hi as int) == 0x4000_0000_0000_0000_0000_0000_0000_0000)
            by (nonlinear_arith)
            requires
                hi == 0x8000_0000_0000_0000u128,
        ;
    }
    while hi - lo > 1
        invariant
            lo < hi,
            hi <= 0x8000_0000_0000_0000,
            (lo as int) * (lo as int) <= x as int,
            (x as int) < (hi as int) * (hi as int),
        decreases hi - lo,
    {
        let mid = lo + (hi - lo) / 2;
        proof {
            assert((mid as int) * (mid as int) <= 0x4000_0000_0000_0000_0000_0000_0000_0000)
                by (nonlinear_arith)
                requires
                    mid <= 0x8000_0000_0000_0000u128,
            ;
        }
        if mid * mid <= x {
            lo = mid;
        } else {
            hi = mid;
        }
    }
    lo
}

/// Fixed-point square root of a non-negative value.
pub fn sqrt_fp(x: i64) -> (r: i64)
    requires
        0 <= x,
    ensures
        r as int == fsqrt_s(x as int),
        0 <= r,
        (r as int) * (r as int) <= (x as int) * (SCALE as int),
        (x as int) * (SCALE as int) < (r as int + 1) * (r as int + 1),
        r <= 0x100_0000_0000,
        x <= 0x7fff_ffff_ffff ==> r <= 0x1_0000_0000,
{
    proof {
        assert((x as int) * (SCALE as int) <= 0x7fff_ffff_ffff_ffff * 0x10000)
            by (nonlinear_arith)
            requires
                0 <= x <= 0x7fff_ffff_ffff_ffff,
                SCALE == 65536,
        ;
    }
    let xs = (x as u128) * (SCALE as u128);
    let r = isqrt_u128(xs);
    proof {
        let xi = (x as int) * (SCALE as int);
        assert(xs == xi);
        assert(is_isqrt(xi, r as int));
        assert(exists|q: int| is_isqrt(xi, q));
        lemma_isqrt_unique(xi, sqrt_i(xi), r as int);
        assert(r as int <= 0x100_0000_0000) by (nonlinear_arith)
            requires
                (r as int) * (r as int) <= xi,
                xi <= 0x7fff_ffff_ffff_ffff * 0x10000,
                0 <= r as int,
        ;
        if x <= 0x7fff_ffff_ffff {
            assert(xi <= 0x7fff_ffff_ffff * 0x10000) by (nonlinear_arith)
                requires
                    xi == (x as int) * (SCALE as int),
                    0 <= x <= 0x7fff_ffff_ffff,
                    SCALE == 65536,
            ;
            assert(r as int <= 0x1_0000_0000) by (nonlinear_arith)
                requires
                    (r as int) * (r as int) <= xi,
                    xi <= 0x7fff_ffff_ffff * 0x10000,
                    0 <= r as int,
            ;
        }
    }
    r as i64
}

/// Clamp a raw value into `[lo, hi]`.
pub fn clamp_fp(x: i64, lo: i64, hi: i64) -> (r: i64)
    requires
        lo <= hi,
    ensures
        r as int == clamp_s(x as int, lo as int, hi as int),
        lo <= r <= hi,
{
    if x < lo {
        lo
    } else if x > hi {
        hi
    } else {
        x
    }
}

} // verus!
