use vstd::prelude::*;
use vstd::arithmetic::div_mod::{
    lemma_div_is_ordered, lemma_div_multiples_vanish, lemma_div_pos_is_pos,
};
use crate::points::{Point, pt_bounded};

verus! {

/// Scale of the fractional position `t` along a segment: `t` runs from
/// `0` (the segment's start) to `T_SCALE` (the segment's end).
pub const T_SCALE: u64 = 1_000_000;

/// Coordinates handed to the interpolation helpers stay within this
/// magnitude, so that differences and products fit the machine integers.
pub const COORD_LIMIT: i64 = 4_000_000_000_000_000_000;

/// `r` is the integer square root of `n`.
pub open spec fn is_isqrt(n: int, r: int) -> bool {
    0 <= r && r * r <= n && n < (r + 1) * (r + 1)
}

/// The integer square root of `n` (meaningful for `n >= 0`,
/// see `lemma_isqrt_exists`).
pub open spec fn isqrt_spec(n: int) -> int {
    choose|r: int| is_isqrt(n, r)
}

/// The integer square root is unique.
pub proof fn lemma_isqrt_unique(n: int, r1: int, r2: int)
    requires
        is_isqrt(n, r1),
        is_isqrt(n, r2),
    ensures
        r1 == r2,
{
    if r1 < r2 {
        assert((r1 + 1) * (r1 + 1) <= r2 * r2) by (nonlinear_arith)
            requires 0 <= r1, 0 <= r2, r1 < r2;
    }
    if r2 < r1 {
        assert((r2 + 1) * (r2 + 1) <= r1 * r1) by (nonlinear_arith)
            requires 0 <= r1, 0 <= r2, r2 < r1;
    }
}

/// Every nonnegative integer has an integer square root.
pub proof fn lemma_isqrt_exists(n: int)
    requires
        0 <= n,
    ensures
        is_isqrt(n, isqrt_spec(n)),
    decreases n,
{
    if n == 0 {
        assert(is_isqrt(0, 0));
    } else {
        lemma_isqrt_exists(n - 1);
        let r = isqrt_spec(n - 1);
        if n < (r + 1) * (r + 1) {
            assert(is_isqrt(n, r));
        } else {
            assert((r + 1) * (r + 1) == n);
            assert(n < (r + 2) * (r + 2)) by (nonlinear_arith)
                requires 0 <= r, (r + 1) * (r + 1) == n;
            assert(is_isqrt(n, r + 1));
        }
    }
    let w = choose|r: int| is_isqrt(n, r);
    lemma_isqrt_unique(n, w, isqrt_spec(n));
}

/// A witness pins `isqrt_spec` down.
pub proof fn lemma_isqrt_is(n: int, r: int)
    requires
        is_isqrt(n, r),
    ensures
        isqrt_spec(n) == r,
{
    assert(exists|x: int| is_isqrt(n, x));
    let w = choose|x: int| is_isqrt(n, x);
    lemma_isqrt_unique(n, w, r);
}

/// Integer square root by bisection.
pub fn isqrt(n: u128) -> (r: u64)
    ensures
        is_isqrt(n as int, r as int),
        r as int == isqrt_spec(n as int),
{
    let mut lo: u128 = 0;
    let mut hi: u128 = 0x1_0000_0000_0000_0000;
    proof {
        assert((n as int) < 0x1_0000_0000_0000_0000 * 0x1_0000_0000_0000_0000);
    }
    while hi - lo > 1
        invariant
            lo < hi <= 0x1_0000_0000_0000_0000,
            (lo as int) * (lo as int) <= n as int,
            (n as int) < (hi as int) * (hi as int),
        decreases hi - lo,
    {
        let mid = lo + (hi - lo) / 2;
        proof {
            assert(lo < mid < hi);
            assert((mid as int) * (mid as int) <= 0xffff_ffff_ffff_ffff * 0xffff_ffff_ffff_ffff)
                by (nonlinear_arith)
                requires 0 <= mid <= 0xffff_ffff_ffff_ffff;
        }
        if mid * mid <= n {
            lo = mid;
        } else {
            hi = mid;
        }
    }
    proof {
        assert(is_isqrt(n as int, lo as int));
        lemma_isqrt_is(n as int, lo as int);
        assert(lo <= 0xffff_ffff_ffff_ffff);
    }
    lo as u64
}

/// Division that truncates toward zero, matching how a ratio of
/// like-signed magnitudes rounds.
pub open spec fn tdiv(a: int, b: int) -> int {
    if a >= 0 {
        a / b
    } else {
        -((-a) / b)
    }
}

/// `a <= q * b` bounds the quotient `a / b` from above.
pub proof fn lemma_div_le(a: int, b: int, q: int)
    requires
        0 <= a,
        0 < b,
        a <= q * b,
    ensures
        a / b <= q,
{
    lemma_div_is_ordered(a, q * b, b);
    lemma_div_multiples_vanish(q, b);
    assert(q * b == b * q) by (nonlinear_arith);
}

/// `q * b <= a` bounds the quotient `a / b` from below.
pub proof fn lemma_div_ge(a: int, b: int, q: int)
    requires
        0 <= q * b,
        0 < b,
        q * b <= a,
    ensures
        q <= a / b,
{
    lemma_div_is_ordered(q * b, a, b);
    lemma_div_multiples_vanish(q, b);
    assert(q * b == b * q) by (nonlinear_arith);
}

/// Truncating division on wide signed integers.
pub fn div_trunc_i128(a: i128, b: i128) -> (q: i128)
    requires
        0 < b,
        i128::MIN < a,
    ensures
        q == tdiv(a as int, b as int),
{
    if a >= 0 {
        let r = (a as u128) / (b as u128);
        proof {
            assert(a as int <= a * b) by (nonlinear_arith)
                requires 0 <= a, 1 <= b;
            lemma_div_le(a as int, b as int, a as int);
        }
        r as i128
    } else {
        let m = -a;
        let r = (m as u128) / (b as u128);
        proof {
            assert(m as int <= m * b) by (nonlinear_arith)
                requires 0 <= m, 1 <= b;
            lemma_div_le(m as int, b as int, m as int);
        }
        -(r as i128)
    }
}

/// Truncating division never grows the magnitude of the dividend.
pub proof fn lemma_tdiv_bounds(a: int, b: int)
    requires
        1 <= b,
    ensures
        0 <= a ==> 0 <= tdiv(a, b) <= a,
        a <= 0 ==> a <= tdiv(a, b) <= 0,
{
    if 0 <= a {
        lemma_div_pos_is_pos(a, b);
        assert(a <= a * b) by (nonlinear_arith)
            requires 0 <= a, 1 <= b;
        lemma_div_le(a, b, a);
    } else {
        let m = -a;
        lemma_div_pos_is_pos(m, b);
        assert(m <= m * b) by (nonlinear_arith)
            requires 0 <= m, 1 <= b;
        lemma_div_le(m, b, m);
    }
}

/// `delta` scaled by the fraction `t / T_SCALE`, truncated toward zero.
pub open spec fn scale_frac(delta: int, t: int) -> int {
    tdiv(delta * t, T_SCALE as int)
}

/// The scaled delta never overshoots `delta` and keeps its sign.
pub proof fn lemma_scale_frac_bounds(delta: int, t: int)
    requires
        0 <= t <= T_SCALE,
    ensures
        0 <= delta ==> 0 <= scale_frac(delta, t) <= delta,
        delta <= 0 ==> delta <= scale_frac(delta, t) <= 0,
        t == 0 ==> scale_frac(delta, t) == 0,
        t == T_SCALE ==> scale_frac(delta, t) == delta,
{
    let ts = T_SCALE as int;
    if 0 <= delta {
        assert(0 <= delta * t <= delta * ts) by (nonlinear_arith)
            requires 0 <= delta, 0 <= t <= ts;
        lemma_div_pos_is_pos(delta * t, ts);
        lemma_div_le(delta * t, ts, delta);
        assert(delta * t <= delta * ts);
    } else {
        let m = -delta;
        assert(0 <= m * t <= m * ts) by (nonlinear_arith)
            requires 0 <= m, 0 <= t <= ts;
        assert(m * t == -(delta * t)) by (nonlinear_arith)
            requires m == -delta;
        lemma_div_pos_is_pos(m * t, ts);
        lemma_div_le(m * t, ts, m);
        assert(m * ts == -(delta * ts)) by (nonlinear_arith)
            requires m == -delta;
    }
    if t == 0 {
        assert(delta * 0 == 0);
        assert(tdiv(0, ts) == 0) by {
            assert(0int / ts == 0) by {
                lemma_div_pos_is_pos(0, ts);
                lemma_div_le(0, ts, 0);
            }
        }
    }
    if t == ts {
        if 0 <= delta {
            lemma_div_multiples_vanish(delta, ts);
            assert(delta * ts == ts * delta) by (nonlinear_arith);
        } else {
            lemma_div_multiples_vanish(-delta, ts);
            assert((-delta) * ts == -(delta * ts)) by (nonlinear_arith);
        }
    }
}

/// Linear interpolation between `a` and `b` at fraction `t / T_SCALE`.
pub open spec fn interp_spec(a: Point, b: Point, t: int) -> Point {
    Point {
        x: (a.x + scale_frac(b.x - a.x, t)) as i64,
        y: (a.y + scale_frac(b.y - a.y, t)) as i64,
    }
}

/// A point at fraction `t / T_SCALE` of the way from `a` to `b`.
pub fn interpolate(a: Point, b: Point, t: u64) -> (p: Point)
    requires
        t <= T_SCALE,
        pt_bounded(a, COORD_LIMIT as int),
        pt_bounded(b, COORD_LIMIT as int),
    ensures
        p == interp_spec(a, b, t as int),
        t == 0 ==> p == a,
        t == T_SCALE ==> p == b,
        a.x <= b.x ==> a.x <= p.x <= b.x,
        b.x <= a.x ==> b.x <= p.x <= a.x,
        a.y <= b.y ==> a.y <= p.y <= b.y,
        b.y <= a.y ==> b.y <= p.y <= a.y,
{
    let dx: i128 = b.x as i128 - a.x as i128;
    let dy: i128 = b.y as i128 - a.y as i128;
    proof {
        let lim: int = 8_000_000_000_000_000_000;
        assert(-lim * 1_000_000 <= dx * t <= lim * 1_000_000) by (nonlinear_arith)
            requires -lim <= dx <= lim, 0 <= t <= 1_000_000;
        assert(-lim * 1_000_000 <= dy * t <= lim * 1_000_000) by (nonlinear_arith)
            requires -lim <= dy <= lim, 0 <= t <= 1_000_000;
    }
    let sx = div_trunc_i128(dx * t as i128, T_SCALE as i128);
    let sy = div_trunc_i128(dy * t as i128, T_SCALE as i128);
    proof {
        lemma_scale_frac_bounds(dx as int, t as int);
        lemma_scale_frac_bounds(dy as int, t as int);
    }
    let px = a.x + sx as i64;
    let py = a.y + sy as i64;
    Point { x: px, y: py }
}

} // verus!
