//! Gamut-triangle geometry: the reachability test and the projection of an
//! out-of-gamut chromaticity onto the triangle's boundary.
//!
//! Everything is exact: coordinates are `COORD_SCALE` fixed point, and the
//! closest point on an edge is kept as an exact rational (`RatPoint`), so the
//! projected point provably lies on the triangle and no rounding can push it
//! back outside.

use vstd::prelude::*;
use crate::color::{ColorCoordinate, ColorError, ColorGamut2, COORD_SCALE};

verus! {

/// Largest possible squared edge length (twice `COORD_SCALE` squared), and so
/// the largest denominator a projected point can carry.
pub const MAX_SEG_DEN: i64 = 200000000;

/// `cross(a, b) = a.x*b.y - a.y*b.x` over plain integers.
pub open spec fn cross_vals(ax: int, ay: int, bx: int, by: int) -> int {
    ax * by - ay * bx
}

/// Twice the signed area of the gamut triangle: `cross(green-red, blue-red)`.
/// Zero exactly when the triangle is degenerate.
pub open spec fn gamut_den(g: ColorGamut2) -> int {
    cross_vals(
        g.green.x - g.red.x,
        g.green.y - g.red.y,
        g.blue.x - g.red.x,
        g.blue.y - g.red.y,
    )
}

/// A point with exact rational coordinates `(nx/den, ny/den)`, still in
/// `COORD_SCALE` fixed point.  Plain coordinates embed with `den == 1`.
#[derive(Debug, Copy, Clone, PartialEq, Eq, Structural)]
pub struct RatPoint {
    pub nx: i64,
    pub ny: i64,
    pub den: i64,
}

impl RatPoint {
    /// Positive, bounded denominator; both coordinates inside the nominal
    /// `[0, 1]` band.
    pub open spec fn wf(self) -> bool {
        &&& 1 <= self.den <= MAX_SEG_DEN
        &&& 0 <= self.nx <= COORD_SCALE * self.den
        &&& 0 <= self.ny <= COORD_SCALE * self.den
    }
}

/// A plain coordinate as a rational point.
pub open spec fn rat_of(p: ColorCoordinate) -> RatPoint {
    RatPoint { nx: p.x, ny: p.y, den: 1 }
}

/// Numerator of the barycentric scalar `s` of `q` (times `q.den * gamut_den`).
pub open spec fn bary_s(g: ColorGamut2, q: RatPoint) -> int {
    (q.nx - q.den * g.red.x) * (g.blue.y - g.red.y) - (q.ny - q.den * g.red.y) * (g.blue.x
        - g.red.x)
}

/// Numerator of the barycentric scalar `t` of `q` (times `q.den * gamut_den`).
pub open spec fn bary_t(g: ColorGamut2, q: RatPoint) -> int {
    (g.green.x - g.red.x) * (q.ny - q.den * g.red.y) - (g.green.y - g.red.y) * (q.nx - q.den
        * g.red.x)
}

/// Numerator of `1 - s - t`, on the same scale as `bary_s` and `bary_t`.
pub open spec fn bary_u(g: ColorGamut2, q: RatPoint) -> int {
    q.den * gamut_den(g) - bary_s(g, q) - bary_t(g, q)
}

/// The exact affine-combination reachability test `s >= 0 && t >= 0 &&
/// s + t <= 1`, with the division by `gamut_den` folded into sign cases.
pub open spec fn rat_in_gamut(q: RatPoint, g: ColorGamut2) -> bool {
    if gamut_den(g) >= 0 {
        bary_s(g, q) >= 0 && bary_t(g, q) >= 0 && bary_u(g, q) >= 0
    } else {
        bary_s(g, q) <= 0 && bary_t(g, q) <= 0 && bary_u(g, q) <= 0
    }
}

/// Reachability of a plain coordinate.
pub open spec fn point_in_gamut(p: ColorCoordinate, g: ColorGamut2) -> bool {
    rat_in_gamut(rat_of(p), g)
}

proof fn lemma_mul_range(a: int, b: int, m: int, n: int)
    by (nonlinear_arith)
    requires
        -m <= a <= m,
        -n <= b <= n,
        0 <= m,
        0 <= n,
    ensures
        -(m * n) <= a * b <= m * n,
{
}

/// Returns the cross product of two coordinate vectors.
pub fn cross_product(point1: ColorCoordinate, point2: ColorCoordinate) -> (r: i64)
    requires
        -COORD_SCALE <= point1.x <= COORD_SCALE,
        -COORD_SCALE <= point1.y <= COORD_SCALE,
        -COORD_SCALE <= point2.x <= COORD_SCALE,
        -COORD_SCALE <= point2.y <= COORD_SCALE,
    ensures
        r == cross_vals(point1.x as int, point1.y as int, point2.x as int, point2.y as int),
{
    proof {
        lemma_mul_range(point1.x as int, point2.y as int, 10000, 10000);
        lemma_mul_range(point1.y as int, point2.x as int, 10000, 10000);
    }
    point1.x * point2.y - point1.y * point2.x
}

/// Decide whether the provided chromaticity can be recreated by the lamp:
/// `Ok(true)` exactly when the point lies on or inside the gamut triangle,
/// `Err(DegenerateGamut)` exactly when the triangle has zero area.
pub fn check_point_in_lamps_reach(color: ColorCoordinate, gamut: ColorGamut2) -> (r: Result<
    bool,
    ColorError,
>)
    requires
        color.wf(),
        gamut.wf(),
    ensures
        r is Err <==> gamut_den(gamut) == 0,
        r is Err ==> r == Result::<bool, ColorError>::Err(ColorError::DegenerateGamut),
        r is Ok ==> r == Result::<bool, ColorError>::Ok(point_in_gamut(color, gamut)),
{
    let v1x = gamut.green.x - gamut.red.x;
    let v1y = gamut.green.y - gamut.red.y;
    let v2x = gamut.blue.x - gamut.red.x;
    let v2y = gamut.blue.y - gamut.red.y;
    let qx = color.x - gamut.red.x;
    let qy = color.y - gamut.red.y;
    proof {
        lemma_mul_range(v1x as int, v2y as int, 10000, 10000);
        lemma_mul_range(v1y as int, v2x as int, 10000, 10000);
        lemma_mul_range(qx as int, v2y as int, 10000, 10000);
        lemma_mul_range(qy as int, v2x as int, 10000, 10000);
        lemma_mul_range(v1x as int, qy as int, 10000, 10000);
        lemma_mul_range(v1y as int, qx as int, 10000, 10000);
    }
    let den = v1x * v2y - v1y * v2x;
    if den == 0 {
        return Err(ColorError::DegenerateGamut);
    }
    let s_num = qx * v2y - qy * v2x;
    let t_num = v1x * qy - v1y * qx;
    let inside = if den > 0 {
        s_num >= 0 && t_num >= 0 && s_num + t_num <= den
    } else {
        s_num <= 0 && t_num <= 0 && s_num + t_num >= den
    };
    proof {
        assert(s_num == bary_s(gamut, rat_of(color)));
        assert(t_num == bary_t(gamut, rat_of(color)));
        assert(inside == point_in_gamut(color, gamut));
    }
    Ok(inside)
}

/// The closest point to `p` on the segment from `a` to `b`: project onto the
/// direction vector, clamp the parameter to the segment, and keep the result
/// as an exact rational (denominator: the squared segment length).
pub open spec fn closest_on_segment(a: ColorCoordinate, b: ColorCoordinate, p: ColorCoordinate)
    -> RatPoint {
    let abx = b.x - a.x;
    let aby = b.y - a.y;
    let ab2 = abx * abx + aby * aby;
    let apab = (p.x - a.x) * abx + (p.y - a.y) * aby;
    if apab <= 0 {
        RatPoint { nx: a.x, ny: a.y, den: 1 }
    } else if apab >= ab2 {
        RatPoint { nx: b.x, ny: b.y, den: 1 }
    } else {
        RatPoint {
            nx: (a.x * ab2 + abx * apab) as i64,
            ny: (a.y * ab2 + aby * apab) as i64,
            den: ab2 as i64,
        }
    }
}

/// Squared distance from `p` to the closest point on segment `a`-`b`, as an
/// exact rational `num/den` (`den` is 1 for the clamped endpoint cases).
pub open spec fn seg_dist_sq(a: ColorCoordinate, b: ColorCoordinate, p: ColorCoordinate) -> (
    int,
    int,
) {
    let abx = b.x - a.x;
    let aby = b.y - a.y;
    let ab2 = abx * abx + aby * aby;
    let apx = p.x - a.x;
    let apy = p.y - a.y;
    let ap2 = apx * apx + apy * apy;
    let apab = apx * abx + apy * aby;
    if apab <= 0 {
        (ap2, 1)
    } else if apab >= ab2 {
        let bpx = p.x - b.x;
        let bpy = p.y - b.y;
        (bpx * bpx + bpy * bpy, 1)
    } else {
        (ap2 * ab2 - apab * apab, ab2)
    }
}

/// Returns the squared Euclidean distance between two coordinates (the
/// square root is irrational; every comparison the projector makes only
/// needs squares).
pub fn get_squared_distance_between_two_points(one: ColorCoordinate, two: ColorCoordinate) -> (r:
    i64)
    requires
        one.wf(),
        two.wf(),
    ensures
        r == (one.x - two.x) * (one.x - two.x) + (one.y - two.y) * (one.y - two.y),
{
    let dx = one.x - two.x;
    let dy = one.y - two.y;
    proof {
        lemma_mul_range(dx as int, dx as int, 10000, 10000);
        lemma_mul_range(dy as int, dy as int, 10000, 10000);
    }
    dx * dx + dy * dy
}

/// `v` is one of the triangle's three vertices.
pub open spec fn is_vertex(g: ColorGamut2, v: ColorCoordinate) -> bool {
    v == g.red || v == g.green || v == g.blue
}

/// `q` is the affine combination of `a` and `b` with weights `alpha/(alpha+beta)`
/// and `beta/(alpha+beta)`.
pub open spec fn is_combo(
    q: RatPoint,
    a: ColorCoordinate,
    b: ColorCoordinate,
    alpha: int,
    beta: int,
) -> bool {
    &&& q.nx == alpha * a.x + beta * b.x
    &&& q.ny == alpha * a.y + beta * b.y
    &&& q.den == alpha + beta
    &&& alpha >= 0
    &&& beta >= 0
}

/// At the triangle's own vertices the three barycentric numerators take the
/// values 0 or `gamut_den` exactly.
proof fn lemma_bary_at_vertices(g: ColorGamut2)
    ensures
        bary_s(g, rat_of(g.red)) == 0,
        bary_s(g, rat_of(g.green)) == gamut_den(g),
        bary_s(g, rat_of(g.blue)) == 0,
        bary_t(g, rat_of(g.red)) == 0,
        bary_t(g, rat_of(g.green)) == 0,
        bary_t(g, rat_of(g.blue)) == gamut_den(g),
        bary_u(g, rat_of(g.red)) == gamut_den(g),
        bary_u(g, rat_of(g.green)) == 0,
        bary_u(g, rat_of(g.blue)) == 0,
{
    assert(bary_s(g, rat_of(g.red)) == 0) by (nonlinear_arith);
    assert(bary_s(g, rat_of(g.green)) == gamut_den(g)) by (nonlinear_arith);
    assert(bary_s(g, rat_of(g.blue)) == 0) by (nonlinear_arith);
    assert(bary_t(g, rat_of(g.red)) == 0) by (nonlinear_arith);
    assert(bary_t(g, rat_of(g.green)) == 0) by (nonlinear_arith);
    assert(bary_t(g, rat_of(g.blue)) == gamut_den(g)) by (nonlinear_arith);
}

/// The barycentric numerators are linear in the point, so they distribute
/// over an affine combination of two points.
#[verifier::rlimit(50)]
proof fn lemma_bary_linear(
    g: ColorGamut2,
    a: ColorCoordinate,
    b: ColorCoordinate,
    q: RatPoint,
    alpha: int,
    beta: int,
)
    requires
        is_combo(q, a, b, alpha, beta),
    ensures
        bary_s(g, q) == alpha * bary_s(g, rat_of(a)) + beta * bary_s(g, rat_of(b)),
        bary_t(g, q) == alpha * bary_t(g, rat_of(a)) + beta * bary_t(g, rat_of(b)),
        bary_u(g, q) == alpha * bary_u(g, rat_of(a)) + beta * bary_u(g, rat_of(b)),
{
    let rx = g.red.x as int;
    let ry = g.red.y as int;
    let xq = q.nx - q.den * rx;
    let yq = q.ny - q.den * ry;
    let xa = a.x - rx;
    let ya = a.y - ry;
    let xb = b.x - rx;
    let yb = b.y - ry;
    assert(xq == alpha * xa + beta * xb) by (nonlinear_arith)
        requires
            q.nx == alpha * a.x + beta * b.x,
            q.den == alpha + beta,
            xq == q.nx - q.den * rx,
            xa == a.x - rx,
            xb == b.x - rx,
    ;
    assert(yq == alpha * ya + beta * yb) by (nonlinear_arith)
        requires
            q.ny == alpha * a.y + beta * b.y,
            q.den == alpha + beta,
            yq == q.ny - q.den * ry,
            ya == a.y - ry,
            yb == b.y - ry,
    ;
    lemma_affine_pair(alpha, beta, xa, xb, ya, yb, g.blue.y - g.red.y, g.blue.x - g.red.x, xq, yq);
    lemma_affine_pair_left(alpha, beta, ya, yb, xa, xb, g.green.x - g.red.x, g.green.y - g.red.y,
        yq, xq);
    let d = gamut_den(g);
    let sa = bary_s(g, rat_of(a));
    let sb = bary_s(g, rat_of(b));
    let ta = bary_t(g, rat_of(a));
    let tb = bary_t(g, rat_of(b));
    assert(q.den * d - bary_s(g, q) - bary_t(g, q) == alpha * (1 * d - sa - ta) + beta * (1 * d
        - sb - tb)) by (nonlinear_arith)
        requires
            q.den == alpha + beta,
            bary_s(g, q) == alpha * sa + beta * sb,
            bary_t(g, q) == alpha * ta + beta * tb,
    ;
}

proof fn lemma_distrib_right(alpha: int, beta: int, u: int, v: int, e: int)
    by (nonlinear_arith)
    ensures
        (alpha * u + beta * v) * e == alpha * (u * e) + beta * (v * e),
{
}

proof fn lemma_distrib_left(alpha: int, beta: int, u: int, v: int, e: int)
    by (nonlinear_arith)
    ensures
        e * (alpha * u + beta * v) == alpha * (e * u) + beta * (e * v),
{
}

proof fn lemma_factor(alpha: int, p: int, q: int)
    by (nonlinear_arith)
    ensures
        alpha * p - alpha * q == alpha * (p - q),
{
}

/// Distributes an affine combination through the form `e1 * y - e2 * x`.
proof fn lemma_affine_pair_left(
    alpha: int,
    beta: int,
    ya: int,
    yb: int,
    xa: int,
    xb: int,
    e1: int,
    e2: int,
    y: int,
    x: int,
)
    requires
        y == alpha * ya + beta * yb,
        x == alpha * xa + beta * xb,
    ensures
        e1 * y - e2 * x == alpha * (e1 * ya - e2 * xa) + beta * (e1 * yb - e2 * xb),
{
    lemma_distrib_left(alpha, beta, ya, yb, e1);
    lemma_distrib_left(alpha, beta, xa, xb, e2);
    lemma_factor(alpha, e1 * ya, e2 * xa);
    lemma_factor(beta, e1 * yb, e2 * xb);
}

/// Distributes an affine combination through the bilinear form
/// `x * e1 - y * e2`.
proof fn lemma_affine_pair(
    alpha: int,
    beta: int,
    xa: int,
    xb: int,
    ya: int,
    yb: int,
    e1: int,
    e2: int,
    x: int,
    y: int,
)
    requires
        x == alpha * xa + beta * xb,
        y == alpha * ya + beta * yb,
    ensures
        x * e1 - y * e2 == alpha * (xa * e1 - ya * e2) + beta * (xb * e1 - yb * e2),
{
    lemma_distrib_right(alpha, beta, xa, xb, e1);
    lemma_distrib_right(alpha, beta, ya, yb, e2);
    lemma_factor(alpha, xa * e1, ya * e2);
    lemma_factor(beta, xb * e1, yb * e2);
}

/// A nonnegative combination of values drawn from `{0, d}` has the sign of `d`.
proof fn lemma_combo_sign(fa: int, fb: int, alpha: int, beta: int, d: int, f: int)
    by (nonlinear_arith)
    requires
        f == alpha * fa + beta * fb,
        alpha >= 0,
        beta >= 0,
        fa == 0 || fa == d,
        fb == 0 || fb == d,
    ensures
        d >= 0 ==> f >= 0,
        d < 0 ==> f <= 0,
{
}

/// Any affine combination of two vertices of the gamut triangle — in
/// particular any point of an edge — passes the reachability test.
pub proof fn lemma_combo_in_gamut(
    g: ColorGamut2,
    a: ColorCoordinate,
    b: ColorCoordinate,
    q: RatPoint,
    alpha: int,
    beta: int,
)
    requires
        is_vertex(g, a),
        is_vertex(g, b),
        is_combo(q, a, b, alpha, beta),
    ensures
        rat_in_gamut(q, g),
{
    lemma_bary_at_vertices(g);
    lemma_bary_linear(g, a, b, q, alpha, beta);
    let d = gamut_den(g);
    lemma_combo_sign(bary_s(g, rat_of(a)), bary_s(g, rat_of(b)), alpha, beta, d, bary_s(g, q));
    lemma_combo_sign(bary_t(g, rat_of(a)), bary_t(g, rat_of(b)), alpha, beta, d, bary_t(g, q));
    lemma_combo_sign(bary_u(g, rat_of(a)), bary_u(g, rat_of(b)), alpha, beta, d, bary_u(g, q));
}

/// An affine combination of well-formed coordinates with a bounded weight sum
/// is a well-formed rational point.
proof fn lemma_combo_wf(
    a: ColorCoordinate,
    b: ColorCoordinate,
    q: RatPoint,
    alpha: int,
    beta: int,
)
    by (nonlinear_arith)
    requires
        a.wf(),
        b.wf(),
        is_combo(q, a, b, alpha, beta),
        1 <= alpha + beta <= MAX_SEG_DEN,
    ensures
        q.wf(),
{
}

/// The closest point on a segment is an affine combination of its endpoints.
proof fn lemma_closest_is_combo(a: ColorCoordinate, b: ColorCoordinate, p: ColorCoordinate)
    requires
        a.wf(),
        b.wf(),
        p.wf(),
    ensures
        ({
            let abx = b.x - a.x;
            let aby = b.y - a.y;
            let ab2 = abx * abx + aby * aby;
            let apab = (p.x - a.x) * abx + (p.y - a.y) * aby;
            let q = closest_on_segment(a, b, p);
            if apab <= 0 {
                is_combo(q, a, b, 1, 0)
            } else if apab >= ab2 {
                is_combo(q, a, b, 0, 1)
            } else {
                is_combo(q, a, b, ab2 - apab, apab)
            }
        }),
{
    let abx: int = b.x - a.x;
    let aby: int = b.y - a.y;
    let ab2: int = abx * abx + aby * aby;
    let apab: int = (p.x - a.x) * abx + (p.y - a.y) * aby;
    let q = closest_on_segment(a, b, p);
    if apab <= 0 {
    } else if apab >= ab2 {
    } else {
        lemma_mul_range(abx, abx, 10000, 10000);
        lemma_mul_range(aby, aby, 10000, 10000);
        lemma_mul_range(p.x - a.x, abx, 10000, 10000);
        lemma_mul_range(p.y - a.y, aby, 10000, 10000);
        lemma_mul_range(a.x as int, ab2, 10000, 200000000);
        lemma_mul_range(abx, apab, 10000, 200000000);
        lemma_mul_range(a.y as int, ab2, 10000, 200000000);
        lemma_mul_range(aby, apab, 10000, 200000000);
        assert(q.nx == a.x * ab2 + abx * apab);
        assert(q.ny == a.y * ab2 + aby * apab);
        assert(a.x * ab2 + abx * apab == (ab2 - apab) * a.x + apab * b.x) by (nonlinear_arith)
            requires
                abx == b.x - a.x,
        ;
        assert(a.y * ab2 + aby * apab == (ab2 - apab) * a.y + apab * b.y) by (nonlinear_arith)
            requires
                aby == b.y - a.y,
        ;
    }
}

/// Find the closest point on a segment to `p`, exactly.
pub fn get_closest_point_to_line(a: ColorCoordinate, b: ColorCoordinate, p: ColorCoordinate) -> (q:
    RatPoint)
    requires
        a.wf(),
        b.wf(),
        p.wf(),
    ensures
        q == closest_on_segment(a, b, p),
        q.wf(),
        is_segment_combo(a, b, q),
{
    let abx = b.x - a.x;
    let aby = b.y - a.y;
    proof {
        lemma_mul_range(abx as int, abx as int, 10000, 10000);
        lemma_mul_range(aby as int, aby as int, 10000, 10000);
        lemma_mul_range((p.x - a.x) as int, abx as int, 10000, 10000);
        lemma_mul_range((p.y - a.y) as int, aby as int, 10000, 10000);
    }
    let ab2 = abx * abx + aby * aby;
    let apab = (p.x - a.x) * abx + (p.y - a.y) * aby;
    proof {
        lemma_closest_is_combo(a, b, p);
    }
    if apab <= 0 {
        let q = RatPoint { nx: a.x, ny: a.y, den: 1 };
        proof {
            lemma_combo_wf(a, b, q, 1int, 0int);
        }
        q
    } else if apab >= ab2 {
        let q = RatPoint { nx: b.x, ny: b.y, den: 1 };
        proof {
            lemma_combo_wf(a, b, q, 0int, 1int);
        }
        q
    } else {
        proof {
            lemma_mul_range(a.x as int, ab2 as int, 10000, 200000000);
            lemma_mul_range(abx as int, apab as int, 10000, 200000000);
            lemma_mul_range(a.y as int, ab2 as int, 10000, 200000000);
            lemma_mul_range(aby as int, apab as int, 10000, 200000000);
        }
        let q = RatPoint { nx: a.x * ab2 + abx * apab, ny: a.y * ab2 + aby * apab, den: ab2 };
        proof {
            lemma_combo_wf(a, b, q, ab2 - apab, apab as int);
        }
        q
    }
}

/// `q` is some affine combination of `a` and `b` — in particular, a point of
/// the segment between them.
pub open spec fn is_segment_combo(a: ColorCoordinate, b: ColorCoordinate, q: RatPoint) -> bool {
    exists|alpha: int, beta: int| is_combo(q, a, b, alpha, beta)
}

/// The closest point on any segment between two gamut vertices passes the
/// reachability test.
pub proof fn lemma_closest_on_edge_in_gamut(
    g: ColorGamut2,
    a: ColorCoordinate,
    b: ColorCoordinate,
    p: ColorCoordinate,
)
    requires
        g.wf(),
        p.wf(),
        is_vertex(g, a),
        is_vertex(g, b),
    ensures
        rat_in_gamut(closest_on_segment(a, b, p), g),
        closest_on_segment(a, b, p).wf(),
{
    let q = closest_on_segment(a, b, p);
    let abx: int = b.x - a.x;
    let aby: int = b.y - a.y;
    let ab2: int = abx * abx + aby * aby;
    let apab: int = (p.x - a.x) * abx + (p.y - a.y) * aby;
    lemma_closest_is_combo(a, b, p);
    if apab <= 0 {
        lemma_combo_in_gamut(g, a, b, q, 1, 0);
        lemma_combo_wf(a, b, q, 1, 0);
    } else if apab >= ab2 {
        lemma_combo_in_gamut(g, a, b, q, 0, 1);
        lemma_combo_wf(a, b, q, 0, 1);
    } else {
        lemma_mul_range(abx, abx, 10000, 10000);
        lemma_mul_range(aby, aby, 10000, 10000);
        lemma_combo_in_gamut(g, a, b, q, ab2 - apab, apab);
        lemma_combo_wf(a, b, q, ab2 - apab, apab);
    }
}

/// `n1/d1 <= n2/d2` for positive denominators, by cross-multiplication.
pub open spec fn rat_le(n1: int, d1: int, n2: int, d2: int) -> bool {
    n1 * d2 <= n2 * d1
}

proof fn lemma_rat_le_trans(n1: int, d1: int, n2: int, d2: int, n3: int, d3: int)
    by (nonlinear_arith)
    requires
        d1 >= 1,
        d2 >= 1,
        d3 >= 1,
        n1 * d2 <= n2 * d1,
        n2 * d3 <= n3 * d2,
    ensures
        n1 * d3 <= n3 * d1,
{
}

/// The candidate points of the three gamut edges, in the order they are
/// compared: red-green, then green-blue, then blue-red.
pub open spec fn edge_candidates(g: ColorGamut2, p: ColorCoordinate) -> (RatPoint, RatPoint,
    RatPoint) {
    (
        closest_on_segment(g.red, g.green, p),
        closest_on_segment(g.green, g.blue, p),
        closest_on_segment(g.blue, g.red, p),
    )
}

/// The candidates' squared distances to `p`, as exact rationals.
pub open spec fn edge_distances(g: ColorGamut2, p: ColorCoordinate) -> ((int, int), (int, int), (
    int,
    int,
)) {
    (
        seg_dist_sq(g.red, g.green, p),
        seg_dist_sq(g.green, g.blue, p),
        seg_dist_sq(g.blue, g.red, p),
    )
}

/// The projection of an out-of-gamut point: of the three edge candidates,
/// the one at the smallest distance, an earlier edge winning ties.
pub open spec fn projected_point(g: ColorGamut2, p: ColorCoordinate) -> RatPoint {
    let (c1, c2, c3) = edge_candidates(g, p);
    let (d1, d2, d3) = edge_distances(g, p);
    let best = if d2.0 * d1.1 < d1.0 * d2.1 { c2 } else { c1 };
    let bd = if d2.0 * d1.1 < d1.0 * d2.1 { d2 } else { d1 };
    if d3.0 * bd.1 < bd.0 * d3.1 { c3 } else { best }
}

/// The squared distance (as an exact rational) from `p` to its projection.
pub open spec fn projected_dist(g: ColorGamut2, p: ColorCoordinate) -> (int, int) {
    let (d1, d2, d3) = edge_distances(g, p);
    let bd = if d2.0 * d1.1 < d1.0 * d2.1 { d2 } else { d1 };
    if d3.0 * bd.1 < bd.0 * d3.1 { d3 } else { bd }
}

/// The point a conversion works on: the input itself when it is reachable,
/// its projection onto the gamut boundary otherwise.
pub open spec fn used_point(p: ColorCoordinate, g: ColorGamut2) -> RatPoint {
    if point_in_gamut(p, g) {
        rat_of(p)
    } else {
        projected_point(g, p)
    }
}

/// Squared distance from `p` to the closest point of segment `a`-`b`,
/// computed without leaving the integers: the pair is an exact rational.
fn segment_distance_sq(a: ColorCoordinate, b: ColorCoordinate, p: ColorCoordinate) -> (r: (
    i64,
    i64,
))
    requires
        a.wf(),
        b.wf(),
        p.wf(),
    ensures
        (r.0 as int, r.1 as int) == seg_dist_sq(a, b, p),
        1 <= r.1 <= MAX_SEG_DEN,
        -80000000000000000 <= r.0 <= 80000000000000000,
{
    let abx = b.x - a.x;
    let aby = b.y - a.y;
    let apx = p.x - a.x;
    let apy = p.y - a.y;
    proof {
        lemma_mul_range(abx as int, abx as int, 10000, 10000);
        lemma_mul_range(aby as int, aby as int, 10000, 10000);
        lemma_mul_range(apx as int, apx as int, 10000, 10000);
        lemma_mul_range(apy as int, apy as int, 10000, 10000);
        lemma_mul_range(apx as int, abx as int, 10000, 10000);
        lemma_mul_range(apy as int, aby as int, 10000, 10000);
    }
    let ab2 = abx * abx + aby * aby;
    let apab = apx * abx + apy * aby;
    let ap2 = apx * apx + apy * apy;
    if apab <= 0 {
        (ap2, 1)
    } else if apab >= ab2 {
        let bpx = p.x - b.x;
        let bpy = p.y - b.y;
        proof {
            lemma_mul_range(bpx as int, bpx as int, 10000, 10000);
            lemma_mul_range(bpy as int, bpy as int, 10000, 10000);
        }
        (bpx * bpx + bpy * bpy, 1)
    } else {
        proof {
            lemma_mul_range(ap2 as int, ab2 as int, 200000000, 200000000);
            lemma_mul_range(apab as int, apab as int, 200000000, 200000000);
        }
        (ap2 * ab2 - apab * apab, ab2)
    }
}

/// Color is unreproducible: find the closest point to `p` on each edge of the
/// gamut triangle and keep the closest of the three (earlier edges win ties).
pub fn get_closest_point_to_point(gamut: ColorGamut2, xy_point: ColorCoordinate) -> (q: RatPoint)
    requires
        gamut.wf(),
        xy_point.wf(),
    ensures
        q == projected_point(gamut, xy_point),
        q.wf(),
        rat_in_gamut(q, gamut),
{
    let p_ab = get_closest_point_to_line(gamut.red, gamut.green, xy_point);
    let p_bc = get_closest_point_to_line(gamut.green, gamut.blue, xy_point);
    let p_ca = get_closest_point_to_line(gamut.blue, gamut.red, xy_point);
    let d_ab = segment_distance_sq(gamut.red, gamut.green, xy_point);
    let d_bc = segment_distance_sq(gamut.green, gamut.blue, xy_point);
    let d_ca = segment_distance_sq(gamut.blue, gamut.red, xy_point);
    proof {
        lemma_mul_range(d_ab.0 as int, d_bc.1 as int, 80000000000000000, 200000000);
        lemma_mul_range(d_bc.0 as int, d_ab.1 as int, 80000000000000000, 200000000);
        lemma_mul_range(d_ca.0 as int, d_ab.1 as int, 80000000000000000, 200000000);
        lemma_mul_range(d_ca.0 as int, d_bc.1 as int, 80000000000000000, 200000000);
        lemma_mul_range(d_ab.0 as int, d_ca.1 as int, 80000000000000000, 200000000);
        lemma_mul_range(d_bc.0 as int, d_ca.1 as int, 80000000000000000, 200000000);
        lemma_closest_on_edge_in_gamut(gamut, gamut.red, gamut.green, xy_point);
        lemma_closest_on_edge_in_gamut(gamut, gamut.green, gamut.blue, xy_point);
        lemma_closest_on_edge_in_gamut(gamut, gamut.blue, gamut.red, xy_point);
    }
    let mut lowest = d_ab;
    let mut closest_point = p_ab;
    if (d_bc.0 as i128) * (d_ab.1 as i128) < (d_ab.0 as i128) * (d_bc.1 as i128) {
        lowest = d_bc;
        closest_point = p_bc;
    }
    if (d_ca.0 as i128) * (lowest.1 as i128) < (lowest.0 as i128) * (d_ca.1 as i128) {
        lowest = d_ca;
        closest_point = p_ca;
    }
    closest_point
}

/// The projection's distance is smallest among the three edge candidates'
/// distances: selecting by pairwise strict comparison really picks a minimum.
pub proof fn lemma_projection_is_closest(g: ColorGamut2, p: ColorCoordinate)
    ensures
        ({
            let (d1, d2, d3) = edge_distances(g, p);
            let bd = projected_dist(g, p);
            &&& rat_le(bd.0, bd.1, d1.0, d1.1)
            &&& rat_le(bd.0, bd.1, d2.0, d2.1)
            &&& rat_le(bd.0, bd.1, d3.0, d3.1)
        }),
{
    let (d1, d2, d3) = edge_distances(g, p);
    let bd12 = if d2.0 * d1.1 < d1.0 * d2.1 { d2 } else { d1 };
    let bd = projected_dist(g, p);
    lemma_seg_dist_den_pos(g.red, g.green, p);
    lemma_seg_dist_den_pos(g.green, g.blue, p);
    lemma_seg_dist_den_pos(g.blue, g.red, p);
    if bd == d3 {
        lemma_rat_le_trans(d3.0, d3.1, bd12.0, bd12.1, d1.0, d1.1);
        lemma_rat_le_trans(d3.0, d3.1, bd12.0, bd12.1, d2.0, d2.1);
    } else {
        lemma_rat_le_trans(bd12.0, bd12.1, bd12.0, bd12.1, d3.0, d3.1);
    }
}

/// The projection of any point lands on the gamut boundary: it passes the
/// reachability test, whatever edge won.
pub proof fn lemma_projected_point_in_gamut(g: ColorGamut2, p: ColorCoordinate)
    requires
        g.wf(),
        p.wf(),
    ensures
        rat_in_gamut(projected_point(g, p), g),
        projected_point(g, p).wf(),
{
    lemma_closest_on_edge_in_gamut(g, g.red, g.green, p);
    lemma_closest_on_edge_in_gamut(g, g.blue, g.red, p);
    lemma_closest_on_edge_in_gamut(g, g.green, g.blue, p);
}

/// Containment invariant: the coordinate a conversion actually uses — the
/// input when reachable, its projection otherwise — always passes the
/// reachability test, lying on or inside the triangle.
pub proof fn lemma_used_point_in_gamut(p: ColorCoordinate, g: ColorGamut2)
    requires
        p.wf(),
        g.wf(),
    ensures
        rat_in_gamut(used_point(p, g), g),
        used_point(p, g).wf(),
{
    if point_in_gamut(p, g) {
    } else {
        lemma_projected_point_in_gamut(g, p);
    }
}

/// The rational pair `seg_dist_sq` returns really is the squared distance
/// from `p` to the candidate point `closest_on_segment` yields: written with
/// the candidate's rational coordinates over `q.den`, the squared distance
/// is `num/den`.
pub proof fn lemma_seg_dist_is_point_dist(
    a: ColorCoordinate,
    b: ColorCoordinate,
    p: ColorCoordinate,
)
    requires
        a.wf(),
        b.wf(),
        p.wf(),
    ensures
        ({
            let q = closest_on_segment(a, b, p);
            let nd = seg_dist_sq(a, b, p);
            nd.0 * (q.den * q.den) == ((p.x * q.den - q.nx) * (p.x * q.den - q.nx) + (p.y * q.den
                - q.ny) * (p.y * q.den - q.ny)) * nd.1
        }),
{
    let q = closest_on_segment(a, b, p);
    let nd = seg_dist_sq(a, b, p);
    let abx: int = b.x - a.x;
    let aby: int = b.y - a.y;
    let ab2: int = abx * abx + aby * aby;
    let apx: int = p.x - a.x;
    let apy: int = p.y - a.y;
    let ap2: int = apx * apx + apy * apy;
    let apab: int = apx * abx + apy * aby;
    if apab <= 0 {
        assert(nd.0 * (q.den * q.den) == ((p.x * q.den - q.nx) * (p.x * q.den - q.nx) + (p.y
            * q.den - q.ny) * (p.y * q.den - q.ny)) * nd.1) by (nonlinear_arith)
            requires
                q.den == 1,
                q.nx == a.x,
                q.ny == a.y,
                nd.0 == (p.x - a.x) * (p.x - a.x) + (p.y - a.y) * (p.y - a.y),
                nd.1 == 1,
        ;
    } else if apab >= ab2 {
        assert(nd.0 * (q.den * q.den) == ((p.x * q.den - q.nx) * (p.x * q.den - q.nx) + (p.y
            * q.den - q.ny) * (p.y * q.den - q.ny)) * nd.1) by (nonlinear_arith)
            requires
                q.den == 1,
                q.nx == b.x,
                q.ny == b.y,
                nd.0 == (p.x - b.x) * (p.x - b.x) + (p.y - b.y) * (p.y - b.y),
                nd.1 == 1,
        ;
    } else {
        lemma_mul_range(abx, abx, 10000, 10000);
        lemma_mul_range(aby, aby, 10000, 10000);
        lemma_mul_range(apx, abx, 10000, 10000);
        lemma_mul_range(apy, aby, 10000, 10000);
        lemma_mul_range(a.x as int, ab2, 10000, 200000000);
        lemma_mul_range(abx, apab, 10000, 200000000);
        lemma_mul_range(a.y as int, ab2, 10000, 200000000);
        lemma_mul_range(aby, apab, 10000, 200000000);
        assert(q.nx == a.x * ab2 + abx * apab);
        assert(q.ny == a.y * ab2 + aby * apab);
        let c = apx * aby - apy * abx;
        let ax: int = p.x * ab2 - q.nx;
        let ay: int = p.y * ab2 - q.ny;
        assert(ax == apx * ab2 - abx * apab) by (nonlinear_arith)
            requires
                ax == p.x * ab2 - (a.x * ab2 + abx * apab),
                apx == p.x - a.x,
        ;
        assert(ay == apy * ab2 - aby * apab) by (nonlinear_arith)
            requires
                ay == p.y * ab2 - (a.y * ab2 + aby * apab),
                apy == p.y - a.y,
        ;
        assert(apx * ab2 - abx * apab == aby * c) by (nonlinear_arith)
            requires
                ab2 == abx * abx + aby * aby,
                apab == apx * abx + apy * aby,
                c == apx * aby - apy * abx,
        ;
        assert(apy * ab2 - aby * apab == -(abx * c)) by (nonlinear_arith)
            requires
                ab2 == abx * abx + aby * aby,
                apab == apx * abx + apy * aby,
                c == apx * aby - apy * abx,
        ;
        let m1 = apx * abx;
        let m2 = apy * aby;
        let m3 = apx * aby;
        let m4 = apy * abx;
        assert(m1 * m2 == m3 * m4) by (nonlinear_arith)
            requires
                m1 == apx * abx,
                m2 == apy * aby,
                m3 == apx * aby,
                m4 == apy * abx,
        ;
        assert(apab * apab == m1 * m1 + 2 * (m1 * m2) + m2 * m2) by (nonlinear_arith)
            requires
                apab == m1 + m2,
        ;
        assert(c * c == m3 * m3 - 2 * (m3 * m4) + m4 * m4) by (nonlinear_arith)
            requires
                c == m3 - m4,
        ;
        let sx = apx * apx;
        let sy = apy * apy;
        assert(ap2 * ab2 == sx * ab2 + sy * ab2) by (nonlinear_arith)
            requires
                ap2 == sx + sy,
        ;
        assert(sx * ab2 == m1 * m1 + m3 * m3) by (nonlinear_arith)
            requires
                ab2 == abx * abx + aby * aby,
                sx == apx * apx,
                m1 == apx * abx,
                m3 == apx * aby,
        ;
        assert(sy * ab2 == m4 * m4 + m2 * m2) by (nonlinear_arith)
            requires
                ab2 == abx * abx + aby * aby,
                sy == apy * apy,
                m4 == apy * abx,
                m2 == apy * aby,
        ;
        assert(ap2 * ab2 - apab * apab == c * c);
        assert((aby * c) * (aby * c) + (-(abx * c)) * (-(abx * c)) == ab2 * (c * c))
            by (nonlinear_arith)
            requires
                ab2 == abx * abx + aby * aby,
        ;
        assert(nd.0 * (ab2 * ab2) == (ax * ax + ay * ay) * ab2) by (nonlinear_arith)
            requires
                nd.0 == c * c,
                ax * ax + ay * ay == ab2 * (c * c),
        ;
        assert(q.den == ab2 && nd.1 == ab2);
        assert(p.x * q.den - q.nx == ax && p.y * q.den - q.ny == ay);
    }
}

proof fn lemma_seg_dist_den_pos(a: ColorCoordinate, b: ColorCoordinate, p: ColorCoordinate)
    ensures
        seg_dist_sq(a, b, p).1 >= 1,
{
}

/// True squared distance from a plain point to a rational point, as the
/// exact rational `num / (q.den * q.den)`.
pub open spec fn rat_dist_sq(p: ColorCoordinate, q: RatPoint) -> (int, int) {
    (
        (p.x * q.den - q.nx) * (p.x * q.den - q.nx) + (p.y * q.den - q.ny) * (p.y * q.den - q.ny),
        q.den * q.den,
    )
}

/// The point and distance folds walk the same comparisons, so the projected
/// point and the projected distance belong to the same edge.
proof fn lemma_projected_pair(g: ColorGamut2, p: ColorCoordinate)
    ensures
        ({
            let (c1, c2, c3) = edge_candidates(g, p);
            let (d1, d2, d3) = edge_distances(g, p);
            let pr = projected_point(g, p);
            let bd = projected_dist(g, p);
            ||| (pr == c1 && bd == d1)
            ||| (pr == c2 && bd == d2)
            ||| (pr == c3 && bd == d3)
        }),
{
}

/// From `nw/dw <= ni/di` and the identities tying each `n/d` to `e/s`,
/// conclude `ew/sw <= ei/si` (all denominators positive).
proof fn lemma_rat_le_transfer(
    nw: int,
    dw: int,
    ni: int,
    di: int,
    sw: int,
    si: int,
    ew: int,
    ei: int,
)
    requires
        dw >= 1,
        di >= 1,
        sw >= 1,
        si >= 1,
        nw * sw == ew * dw,
        ni * si == ei * di,
        nw * di <= ni * dw,
    ensures
        ew * si <= ei * sw,
{
    let k = dw * di;
    assert(k >= 1) by (nonlinear_arith)
        requires
            dw >= 1,
            di >= 1,
            k == dw * di,
    ;
    assert((ew * si) * k == (nw * di) * (sw * si)) by (nonlinear_arith)
        requires
            nw * sw == ew * dw,
            k == dw * di,
    ;
    assert((ei * sw) * k == (ni * dw) * (sw * si)) by (nonlinear_arith)
        requires
            ni * si == ei * di,
            k == dw * di,
    ;
    assert((nw * di) * (sw * si) <= (ni * dw) * (sw * si)) by (nonlinear_arith)
        requires
            nw * di <= ni * dw,
            sw >= 1,
            si >= 1,
    ;
    assert(ew * si <= ei * sw) by (nonlinear_arith)
        requires
            (ew * si) * k <= (ei * sw) * k,
            k >= 1,
    ;
}

/// The projection really minimizes the distance to `p`: measured as a true
/// squared distance, the projected point is at least as close as each of the
/// three edges' closest points.
pub proof fn lemma_projection_minimizes_distance(g: ColorGamut2, p: ColorCoordinate)
    requires
        g.wf(),
        p.wf(),
    ensures
        ({
            let (c1, c2, c3) = edge_candidates(g, p);
            let pr = projected_point(g, p);
            let dpr = rat_dist_sq(p, pr);
            &&& rat_le(dpr.0, dpr.1, rat_dist_sq(p, c1).0, rat_dist_sq(p, c1).1)
            &&& rat_le(dpr.0, dpr.1, rat_dist_sq(p, c2).0, rat_dist_sq(p, c2).1)
            &&& rat_le(dpr.0, dpr.1, rat_dist_sq(p, c3).0, rat_dist_sq(p, c3).1)
        }),
{
    let (c1, c2, c3) = edge_candidates(g, p);
    let (d1, d2, d3) = edge_distances(g, p);
    let pr = projected_point(g, p);
    let bd = projected_dist(g, p);
    lemma_projection_is_closest(g, p);
    lemma_projected_pair(g, p);
    lemma_seg_dist_den_pos(g.red, g.green, p);
    lemma_seg_dist_den_pos(g.green, g.blue, p);
    lemma_seg_dist_den_pos(g.blue, g.red, p);
    lemma_seg_dist_is_point_dist(g.red, g.green, p);
    lemma_seg_dist_is_point_dist(g.green, g.blue, p);
    lemma_seg_dist_is_point_dist(g.blue, g.red, p);
    lemma_closest_on_edge_in_gamut(g, g.red, g.green, p);
    lemma_closest_on_edge_in_gamut(g, g.green, g.blue, p);
    lemma_closest_on_edge_in_gamut(g, g.blue, g.red, p);
    let s1 = rat_dist_sq(p, c1).1;
    let s2 = rat_dist_sq(p, c2).1;
    let s3 = rat_dist_sq(p, c3).1;
    assert(s1 >= 1 && s2 >= 1 && s3 >= 1) by (nonlinear_arith)
        requires
            c1.den >= 1,
            c2.den >= 1,
            c3.den >= 1,
            s1 == c1.den * c1.den,
            s2 == c2.den * c2.den,
            s3 == c3.den * c3.den,
    ;
    if pr == c1 && bd == d1 {
        lemma_rat_le_transfer(bd.0, bd.1, d1.0, d1.1, s1, s1, rat_dist_sq(p, pr).0, rat_dist_sq(
            p, c1).0);
        lemma_rat_le_transfer(bd.0, bd.1, d2.0, d2.1, s1, s2, rat_dist_sq(p, pr).0, rat_dist_sq(
            p, c2).0);
        lemma_rat_le_transfer(bd.0, bd.1, d3.0, d3.1, s1, s3, rat_dist_sq(p, pr).0, rat_dist_sq(
            p, c3).0);
    } else if pr == c2 && bd == d2 {
        lemma_rat_le_transfer(bd.0, bd.1, d1.0, d1.1, s2, s1, rat_dist_sq(p, pr).0, rat_dist_sq(
            p, c1).0);
        lemma_rat_le_transfer(bd.0, bd.1, d2.0, d2.1, s2, s2, rat_dist_sq(p, pr).0, rat_dist_sq(
            p, c2).0);
        lemma_rat_le_transfer(bd.0, bd.1, d3.0, d3.1, s2, s3, rat_dist_sq(p, pr).0, rat_dist_sq(
            p, c3).0);
    } else {
        lemma_rat_le_transfer(bd.0, bd.1, d1.0, d1.1, s3, s1, rat_dist_sq(p, pr).0, rat_dist_sq(
            p, c1).0);
        lemma_rat_le_transfer(bd.0, bd.1, d2.0, d2.1, s3, s2, rat_dist_sq(p, pr).0, rat_dist_sq(
            p, c2).0);
        lemma_rat_le_transfer(bd.0, bd.1, d3.0, d3.1, s3, s3, rat_dist_sq(p, pr).0, rat_dist_sq(
            p, c3).0);
    }
}

} // verus!
