//! Inverse sRGB gamma in fixed point.
//!
//! The sRGB inverse transfer function is `f(c) = 12.92*c` for `c <= 0.0031308`
//! and `f(c) = 1.055 * c^(1/2.4) - 0.055` otherwise.  Linear channel values
//! are carried in `CHAN_SCALE` fixed point, so `c^(1/2.4) = (c^5)^(1/12)`
//! becomes an exact integer floor of a 12th root: the result `g` is the
//! unique integer with `g^12 <= c^5 * CHAN_SCALE^7 < (g+1)^12`.  At this
//! resolution the linear branch of the transfer function covers exactly the
//! non-positive inputs (the threshold is below one fixed-point unit), and a
//! non-positive channel comes out as 0, which is also where the engine's
//! "clamp negative channels to zero" step lands.

use vstd::prelude::*;

verus! {

/// Fixed-point units per 1.0 of a linear or gamma-corrected channel.
pub const CHAN_SCALE: i64 = 256;

/// Cap on a linear channel value before gamma correction (62.5 in real
/// terms); keeps `c^5 * CHAN_SCALE^7` inside `u128`.
pub const CHAN_MAX: i64 = 16000;

/// `CHAN_SCALE` to the 7th power: the scale factor that turns `(c/S)^(5/12)`
/// into the 12th root of `c^5 * S^7` over `S`.
pub const SCALE_POW7: u128 = 72057594037927936;

/// Upper bound on a gamma-corrected channel: `gamma_out(CHAN_MAX)` is below
/// this (5.87 in real terms).
pub const GAMMA_MAX: i64 = 1504;

pub open spec fn sq(x: int) -> int {
    x * x
}

pub open spec fn pow4(x: int) -> int {
    sq(x) * sq(x)
}

pub open spec fn pow5(x: int) -> int {
    pow4(x) * x
}

pub open spec fn pow12(x: int) -> int {
    pow4(x) * pow4(x) * pow4(x)
}

/// `g` is the floor of the real 12th root of `t`.
pub open spec fn is_root12(g: int, t: int) -> bool {
    &&& 0 <= g
    &&& pow12(g) <= t
    &&& t < pow12(g + 1)
}

/// The floor of the real 12th root of `t` (meaningful for `t >= 0`).
pub open spec fn floor_root12(t: int) -> int {
    choose|g: int| is_root12(g, t)
}

/// What the 12th root is taken of: `c^5 * CHAN_SCALE^7`.
pub open spec fn root12_target(c: int) -> int {
    pow5(c) * SCALE_POW7
}

/// The gamma-corrected channel at `CHAN_SCALE` fixed point:
/// `floor(1.055 * (c/S)^(5/12) * S - 0.055 * S)` for positive `c`, and 0 for
/// non-positive `c` (the linear branch, clamped at zero).
pub open spec fn gamma_out(c: int) -> int {
    if c <= 0 {
        0
    } else {
        let g = floor_root12(root12_target(c));
        if 1055 * g <= 14080 {
            0
        } else {
            (1055 * g - 14080) / 1000
        }
    }
}

proof fn lemma_sq_le(a: int, b: int)
    by (nonlinear_arith)
    requires
        0 <= a <= b,
    ensures
        0 <= a * a <= b * b,
{
}

proof fn lemma_cube_le(a: int, b: int)
    by (nonlinear_arith)
    requires
        0 <= a <= b,
    ensures
        0 <= a * a * a <= b * b * b,
{
}

/// `x^12` is monotone on the naturals.
pub proof fn lemma_pow12_le(a: int, b: int)
    requires
        0 <= a <= b,
    ensures
        0 <= pow12(a) <= pow12(b),
{
    lemma_sq_le(a, b);
    lemma_sq_le(sq(a), sq(b));
    lemma_cube_le(pow4(a), pow4(b));
}

proof fn lemma_mul_le(a: int, b: int, c: int, d: int)
    by (nonlinear_arith)
    requires
        0 <= a <= b,
        0 <= c <= d,
    ensures
        0 <= a * c <= b * d,
{
}

/// `x^5` is monotone on the naturals.
pub proof fn lemma_pow5_le(a: int, b: int)
    requires
        0 <= a <= b,
    ensures
        0 <= pow5(a) <= pow5(b),
{
    lemma_sq_le(a, b);
    lemma_sq_le(sq(a), sq(b));
    lemma_mul_le(pow4(a), pow4(b), a, b);
}

/// The floor of a 12th root is unique.
pub proof fn lemma_root12_unique(g1: int, g2: int, t: int)
    requires
        is_root12(g1, t),
        is_root12(g2, t),
    ensures
        g1 == g2,
{
    if g1 < g2 {
        lemma_pow12_le(g1 + 1, g2);
    }
    if g2 < g1 {
        lemma_pow12_le(g2 + 1, g1);
    }
}

/// Every `t` below `n^12` has a floor 12th root, and `floor_root12` is it.
proof fn lemma_floor_root12_exists(t: int, n: nat)
    requires
        0 <= t,
        t < pow12(n as int),
    ensures
        is_root12(floor_root12(t), t),
    decreases n,
{
    if n == 0 {
        assert(pow12(0) == 0);
    } else if t < pow12(n - 1) {
        lemma_floor_root12_exists(t, (n - 1) as nat);
    } else {
        assert(is_root12(n - 1, t));
        assert(is_root12(floor_root12(t), t)) by {
            assert(exists|g: int| is_root12(g, t)) by {
                assert(is_root12(n - 1, t));
            }
        }
    }
}

/// The floor 12th root is monotone.
proof fn lemma_floor_root12_le(t1: int, t2: int)
    requires
        0 <= t1 <= t2,
        t2 < pow12(1440),
    ensures
        floor_root12(t1) <= floor_root12(t2),
{
    lemma_floor_root12_exists(t1, 1440);
    lemma_floor_root12_exists(t2, 1440);
    let g1 = floor_root12(t1);
    let g2 = floor_root12(t2);
    if g1 > g2 {
        lemma_pow12_le(g2 + 1, g1);
    }
}

/// The gamma output is never negative.
pub proof fn lemma_gamma_out_nonneg(c: int)
    ensures
        gamma_out(c) >= 0,
{
    if c <= 0 {
    } else {
        let g = floor_root12(root12_target(c));
        if 1055 * g <= 14080 {
        } else {
            assert((1055 * g - 14080) / 1000 >= 0);
        }
    }
}

/// The transfer function is monotone: a channel at least as large as another
/// before gamma correction stays at least as large after it.
pub proof fn lemma_gamma_out_le(c1: int, c2: int)
    requires
        c1 <= c2,
        c2 <= CHAN_MAX,
    ensures
        gamma_out(c1) <= gamma_out(c2),
{
    lemma_gamma_out_nonneg(c2);
    if c1 <= 0 {
    } else {
        let t1 = root12_target(c1);
        let t2 = root12_target(c2);
        lemma_pow5_le(c1, c2);
        lemma_pow5_le(c2, 16000);
        assert(pow5(16000) * SCALE_POW7 < pow12(1440)) by (nonlinear_arith);
        lemma_floor_root12_le(t1, t2);
        let g1 = floor_root12(t1);
        let g2 = floor_root12(t2);
        if 1055 * g1 <= 14080 {
        } else {
            assert((1055 * g1 - 14080) / 1000 <= (1055 * g2 - 14080) / 1000);
        }
    }
}

/// Binary search for the floor of the 12th root of `t`.
fn root12(t: u128) -> (g: u64)
    requires
        t < pow12(1440),
    ensures
        is_root12(g as int, t as int),
        g == floor_root12(t as int),
        g <= 1439,
{
    let mut lo: u64 = 0;
    let mut hi: u64 = 1440;
    proof {
        assert(pow12(0) == 0);
    }
    while lo + 1 < hi
        invariant
            lo < hi <= 1440,
            pow12(lo as int) <= t as int,
            (t as int) < pow12(hi as int),
        decreases hi - lo,
    {
        let mid = lo + (hi - lo) / 2;
        let m = mid as u128;
        proof {
            assert(m <= 1440);
            assert(m * m <= 2073600) by (nonlinear_arith)
                requires
                    m <= 1440,
            ;
        }
        let m2 = m * m;
        proof {
            assert(m2 * m2 <= 4299816960000) by (nonlinear_arith)
                requires
                    m2 <= 2073600,
            ;
        }
        let m4 = m2 * m2;
        proof {
            assert(m4 * m4 <= 18488425889503641600000000) by (nonlinear_arith)
                requires
                    m4 <= 4299816960000,
            ;
        }
        let m8 = m4 * m4;
        proof {
            assert(m8 * m4 <= 79496847203390844133441536000000000000) by (nonlinear_arith)
                requires
                    m8 <= 18488425889503641600000000,
                    m4 <= 4299816960000,
            ;
        }
        let m12 = m8 * m4;
        proof {
            assert(m12 == pow12(m as int));
        }
        if m12 <= t {
            lo = mid;
        } else {
            hi = mid;
        }
    }
    proof {
        assert(lo + 1 == hi);
        assert(is_root12(lo as int, t as int));
        let w = floor_root12(t as int);
        assert(is_root12(w, t as int)) by {
            assert(exists|g: int| is_root12(g, t as int)) by {
                assert(is_root12(lo as int, t as int));
            }
        }
        lemma_root12_unique(lo as int, w, t as int);
        if lo >= 1440 {
            lemma_pow12_le(1440, lo as int);
        }
    }
    lo
}

/// Apply the inverse sRGB transfer function to a fixed-point linear channel.
pub fn gamma_correction(c: i64) -> (r: i64)
    requires
        c <= CHAN_MAX,
    ensures
        r == gamma_out(c as int),
        0 <= r <= GAMMA_MAX,
{
    if c <= 0 {
        return 0;
    }
    let cu = c as u128;
    proof {
        assert(cu <= 16000);
        assert(cu * cu <= 256000000) by (nonlinear_arith)
            requires
                cu <= 16000,
        ;
    }
    let c2 = cu * cu;
    proof {
        assert(c2 * c2 <= 65536000000000000) by (nonlinear_arith)
            requires
                c2 <= 256000000,
            ;
    }
    let c4 = c2 * c2;
    proof {
        assert(c4 * cu <= 1048576000000000000000) by (nonlinear_arith)
            requires
                c4 <= 65536000000000000,
                cu <= 16000,
            ;
    }
    let c5 = c4 * cu;
    proof {
        assert(c5 * SCALE_POW7 <= 75557863725914323419136000000000000000) by (nonlinear_arith)
            requires
                c5 <= 1048576000000000000000,
            ;
    }
    let t = c5 * SCALE_POW7;
    proof {
        assert(c5 == pow5(cu as int));
        assert(t == root12_target(c as int));
        assert(pow12(1440) == 79496847203390844133441536000000000000) by (nonlinear_arith);
        assert(t < pow12(1440));
    }
    let g = root12(t);
    let num = 1055u64 * g;
    if num <= 14080 {
        0
    } else {
        ((num - 14080) / 1000) as i64
    }
}

} // verus!
