use vstd::prelude::*;
use crate::geometry::Vec2;

verus! {

/// Twice the signed area of triangle (a, b, c).
pub open spec fn doubled_area(a: Vec2<i32>, b: Vec2<i32>, c: Vec2<i32>) -> int {
    (c.x - a.x) * (b.y - a.y) - (b.x - a.x) * (c.y - a.y)
}

/// The barycentric weight of vertex `c` at point (x, y), times `doubled_area`.
pub open spec fn weight_c(a: Vec2<i32>, b: Vec2<i32>, c: Vec2<i32>, x: int, y: int) -> int {
    (b.x - a.x) * (a.y - y) - (a.x - x) * (b.y - a.y)
}

/// The barycentric weight of vertex `b` at point (x, y), times `doubled_area`.
pub open spec fn weight_b(a: Vec2<i32>, b: Vec2<i32>, c: Vec2<i32>, x: int, y: int) -> int {
    (a.x - x) * (c.y - a.y) - (c.x - a.x) * (a.y - y)
}

/// Pixel (x, y) lies inside triangle (a, b, c) or on its edges: the triangle
/// is not degenerate and all three barycentric weights of the point, the
/// scaled weights above divided by `doubled_area`, are at least zero.
pub open spec fn in_triangle(a: Vec2<i32>, b: Vec2<i32>, c: Vec2<i32>, x: int, y: int) -> bool {
    let d = doubled_area(a, b, c);
    let u = weight_c(a, b, c, x, y);
    let v = weight_b(a, b, c, x, y);
    &&& d != 0
    &&& (d - u - v) * d >= 0
    &&& v * d >= 0
    &&& u * d >= 0
}

pub open spec fn min3(p: int, q: int, r: int) -> int {
    if p <= q && p <= r { p } else if q <= r { q } else { r }
}

pub open spec fn max3(p: int, q: int, r: int) -> int {
    if p >= q && p >= r { p } else if q >= r { q } else { r }
}

/// A weighted mean with weights of one sign lies between the smallest and
/// the largest of its points.
proof fn lemma_weighted_between(d: int, w0: int, w1: int, w2: int, p0: int, p1: int, p2: int, q: int)
    requires
        d != 0,
        w0 + w1 + w2 == d,
        w0 * d >= 0,
        w1 * d >= 0,
        w2 * d >= 0,
        d * q == w0 * p0 + w1 * p1 + w2 * p2,
    ensures
        min3(p0, p1, p2) <= q <= max3(p0, p1, p2),
{
    let lo = min3(p0, p1, p2);
    let hi = max3(p0, p1, p2);
    assert(d * (q - lo) == d * q - d * lo) by (nonlinear_arith);
    assert(d * lo == w0 * lo + w1 * lo + w2 * lo) by (nonlinear_arith)
        requires
            w0 + w1 + w2 == d,
    ;
    assert(w0 * (p0 - lo) == w0 * p0 - w0 * lo) by (nonlinear_arith);
    assert(w1 * (p1 - lo) == w1 * p1 - w1 * lo) by (nonlinear_arith);
    assert(w2 * (p2 - lo) == w2 * p2 - w2 * lo) by (nonlinear_arith);
    assert(d * (hi - q) == d * hi - d * q) by (nonlinear_arith);
    assert(d * hi == w0 * hi + w1 * hi + w2 * hi) by (nonlinear_arith)
        requires
            w0 + w1 + w2 == d,
    ;
    assert(w0 * (hi - p0) == w0 * hi - w0 * p0) by (nonlinear_arith);
    assert(w1 * (hi - p1) == w1 * hi - w1 * p1) by (nonlinear_arith);
    assert(w2 * (hi - p2) == w2 * hi - w2 * p2) by (nonlinear_arith);
    if d > 0 {
        assert(w0 >= 0 && w1 >= 0 && w2 >= 0) by (nonlinear_arith)
            requires
                d > 0,
                w0 * d >= 0,
                w1 * d >= 0,
                w2 * d >= 0,
        ;
        assert(d * (q - lo) >= 0 && d * (hi - q) >= 0) by (nonlinear_arith)
            requires
                w0 >= 0 && w1 >= 0 && w2 >= 0,
                p0 - lo >= 0 && p1 - lo >= 0 && p2 - lo >= 0,
                hi - p0 >= 0 && hi - p1 >= 0 && hi - p2 >= 0,
                d * (q - lo) == w0 * (p0 - lo) + w1 * (p1 - lo) + w2 * (p2 - lo),
                d * (hi - q) == w0 * (hi - p0) + w1 * (hi - p1) + w2 * (hi - p2),
        ;
        assert(q - lo >= 0 && hi - q >= 0) by (nonlinear_arith)
            requires
                d > 0,
                d * (q - lo) >= 0 && d * (hi - q) >= 0,
        ;
    } else {
        assert(w0 <= 0 && w1 <= 0 && w2 <= 0) by (nonlinear_arith)
            requires
                d < 0,
                w0 * d >= 0,
                w1 * d >= 0,
                w2 * d >= 0,
        ;
        assert(d * (q - lo) <= 0 && d * (hi - q) <= 0) by (nonlinear_arith)
            requires
                w0 <= 0 && w1 <= 0 && w2 <= 0,
                p0 - lo >= 0 && p1 - lo >= 0 && p2 - lo >= 0,
                hi - p0 >= 0 && hi - p1 >= 0 && hi - p2 >= 0,
                d * (q - lo) == w0 * (p0 - lo) + w1 * (p1 - lo) + w2 * (p2 - lo),
                d * (hi - q) == w0 * (hi - p0) + w1 * (hi - p1) + w2 * (hi - p2),
        ;
        assert(q - lo >= 0 && hi - q >= 0) by (nonlinear_arith)
            requires
                d < 0,
                d * (q - lo) <= 0 && d * (hi - q) <= 0,
        ;
    }
}

proof fn lemma_cross_identity(p: int, q: int, b1: int, b2: int, c1: int, c2: int)
    ensures
        (c1 * b2 - b1 * c2) * p + (p * c2 - c1 * q) * b1 + (b1 * q - p * b2) * c1 == 0,
        (c1 * b2 - b1 * c2) * q + (p * c2 - c1 * q) * b2 + (b1 * q - p * b2) * c2 == 0,
{
    assert((c1 * b2 - b1 * c2) * p == c1 * (b2 * p) - b1 * (c2 * p)) by (nonlinear_arith);
    assert((p * c2 - c1 * q) * b1 == b1 * (c2 * p) - c1 * (b1 * q)) by (nonlinear_arith);
    assert((b1 * q - p * b2) * c1 == c1 * (b1 * q) - c1 * (b2 * p)) by (nonlinear_arith);
    assert((c1 * b2 - b1 * c2) * q == c1 * (b2 * q) - b1 * (c2 * q)) by (nonlinear_arith);
    assert((p * c2 - c1 * q) * b2 == p * (b2 * c2) - c1 * (b2 * q)) by (nonlinear_arith);
    assert((b1 * q - p * b2) * c2 == b1 * (c2 * q) - p * (b2 * c2)) by (nonlinear_arith);
}

proof fn lemma_recenter(d: int, u: int, v: int, a: int, b: int, c: int, x: int)
    requires
        d * (a - x) + v * (b - a) + u * (c - a) == 0,
    ensures
        d * x == (d - u - v) * a + v * b + u * c,
{
    assert(d * x == (d - u - v) * a + v * b + u * c) by (nonlinear_arith)
        requires
            d * (a - x) + v * (b - a) + u * (c - a) == 0,
    ;
}

/// A pixel inside a triangle lies within the box spanned by its vertices.
pub proof fn lemma_triangle_in_box(a: Vec2<i32>, b: Vec2<i32>, c: Vec2<i32>, x: int, y: int)
    requires
        in_triangle(a, b, c, x, y),
    ensures
        min3(a.x as int, b.x as int, c.x as int) <= x <= max3(a.x as int, b.x as int, c.x as int),
        min3(a.y as int, b.y as int, c.y as int) <= y <= max3(a.y as int, b.y as int, c.y as int),
{
    let d = doubled_area(a, b, c);
    let u = weight_c(a, b, c, x, y);
    let v = weight_b(a, b, c, x, y);
    let (ax, ay, bx, by, cx, cy) = (a.x as int, a.y as int, b.x as int, b.y as int, c.x as int, c.y as int);
    lemma_cross_identity(ax - x, ay - y, bx - ax, by - ay, cx - ax, cy - ay);
    lemma_recenter(d, u, v, ax, bx, cx, x);
    lemma_recenter(d, u, v, ay, by, cy, y);
    lemma_weighted_between(d, d - u - v, v, u, ax, bx, cx, x);
    lemma_weighted_between(d, d - u - v, v, u, ay, by, cy, y);
}

/// `n / d` is at least zero.
fn nonneg_ratio(n: i128, d: i128) -> (r: bool)
    requires
        d != 0,
    ensures
        r == (n * d >= 0),
{
    proof {
        assert((n * d >= 0) == (n == 0 || (n > 0) == (d > 0))) by (nonlinear_arith)
            requires
                d != 0,
        ;
    }
    n == 0 || (n > 0) == (d > 0)
}

proof fn lemma_product_bound(p: int, q: int)
    requires
        -0x1_0000_0000 <= p <= 0x1_0000_0000,
        -0x1_0000_0000 <= q <= 0x1_0000_0000,
    ensures
        -0x1_0000_0000_0000_0000 <= p * q <= 0x1_0000_0000_0000_0000,
{
    assert(-0x1_0000_0000_0000_0000 <= p * q <= 0x1_0000_0000_0000_0000) by (nonlinear_arith)
        requires
            -0x1_0000_0000 <= p <= 0x1_0000_0000,
            -0x1_0000_0000 <= q <= 0x1_0000_0000,
    ;
}

/// Whether point (x, y) is inside triangle (a, b, c) or on its edges, by
/// its barycentric coordinates.
pub(crate) fn barycentric(a: &Vec2<i32>, b: &Vec2<i32>, c: &Vec2<i32>, x: i32, y: i32) -> (r: bool)
    ensures
        r == in_triangle(*a, *b, *c, x as int, y as int),
{
    let (ax, ay, bx, by, cx, cy) = (a.x as i128, a.y as i128, b.x as i128, b.y as i128, c.x as i128, c.y as i128);
    let (px, py) = (x as i128, y as i128);
    proof {
        lemma_product_bound((cx - ax) as int, (by - ay) as int);
        lemma_product_bound((bx - ax) as int, (cy - ay) as int);
        lemma_product_bound((bx - ax) as int, (ay - py) as int);
        lemma_product_bound((ax - px) as int, (by - ay) as int);
        lemma_product_bound((ax - px) as int, (cy - ay) as int);
        lemma_product_bound((cx - ax) as int, (ay - py) as int);
    }
    let d = (cx - ax) * (by - ay) - (bx - ax) * (cy - ay);
    let u = (bx - ax) * (ay - py) - (ax - px) * (by - ay);
    let v = (ax - px) * (cy - ay) - (cx - ax) * (ay - py);
    if d == 0 {
        // degenerate: no point is inside
        return false;
    }
    nonneg_ratio(d - u - v, d) && nonneg_ratio(v, d) && nonneg_ratio(u, d)
}

} // verus!
