use vstd::prelude::*;
use vstd::arithmetic::div_mod::{lemma_fundamental_div_mod, lemma_fundamental_div_mod_converse};

verus! {

/// Pixel (x, y) lies in the axis-aligned rectangle with opposite corners
/// (x1, y1) and (x2, y2), edges included.
pub open spec fn in_rect(x1: int, y1: int, x2: int, y2: int, x: int, y: int) -> bool {
    &&& (x1 <= x <= x2 || x2 <= x <= x1)
    &&& (y1 <= y <= y2 || y2 <= y <= y1)
}

/// Distance of `v` from zero.
pub open spec fn abs(v: int) -> int {
    if v < 0 { -v } else { v }
}

/// Steps taken along the minor axis after `k` steps along the major axis, on
/// a segment that runs `run` steps along the major axis and `rise` steps
/// (at most `run`) along the minor one: `k * rise / run` rounded to the
/// nearest integer, halves rounded down.
pub open spec fn minor_steps(run: int, rise: int, k: int) -> int {
    if run == 0 { 0 } else { (2 * k * rise + run - 1) / (2 * run) }
}

/// Pixel (x, y) is drawn by the segment from (x1, y1) to (x2, y2).
///
/// The major axis is the one along which the segment extends further (x on a
/// tie). The segment is walked along it from its lower end, one pixel per
/// step, both ends included, and the minor coordinate of each pixel is the
/// start's moved by `minor_steps` towards the end's.
pub open spec fn on_line(x1: int, y1: int, x2: int, y2: int, x: int, y: int) -> bool {
    let steep = abs(x2 - x1) < abs(y2 - y1);
    let (a1, b1, a2, b2) = if steep { (y1, x1, y2, x2) } else { (x1, y1, x2, y2) };
    let (a, b) = if steep { (y, x) } else { (x, y) };
    let (sa, sb, ea, eb) = if a1 > a2 { (a2, b2, a1, b1) } else { (a1, b1, a2, b2) };
    let m = minor_steps(ea - sa, abs(eb - sb), a - sa);
    &&& sa <= a <= ea
    &&& b == if eb > sb { sb + m } else { sb - m }
}

pub(crate) proof fn lemma_minor_bounds(run: int, rise: int, k: int)
    requires
        0 <= rise <= run,
        0 <= k <= run,
    ensures
        0 <= minor_steps(run, rise, k) <= rise,
        k == 0 ==> minor_steps(run, rise, k) == 0,
        run > 0 ==> 1 - run <= 2 * k * rise - 2 * run * minor_steps(run, rise, k) <= run,
{
    if run > 0 {
        if k == 0 {
            assert(2 * k * rise == 0) by (nonlinear_arith)
                requires
                    k == 0,
            ;
            lemma_fundamental_div_mod_converse(run - 1, 2 * run, 0, run - 1);
        }
        let n = 2 * k * rise + run - 1;
        lemma_fundamental_div_mod(n, 2 * run);
        let m = n / (2 * run);
        let r = n % (2 * run);
        assert(0 <= m <= rise) by (nonlinear_arith)
            requires
                n == 2 * run * m + r,
                0 <= r < 2 * run,
                n == 2 * k * rise + run - 1,
                0 <= rise <= run,
                0 <= k <= run,
                0 < run,
        ;
    }
}

pub(crate) proof fn lemma_minor_step(run: int, rise: int, k: int)
    requires
        0 <= rise <= run,
        0 <= k,
    ensures
        ({
            let m = minor_steps(run, rise, k);
            let e = 2 * k * rise - 2 * run * m + 2 * rise;
            &&& minor_steps(run, rise, k + 1) == if e > run { m + 1 } else { m }
            &&& 2 * (k + 1) * rise - 2 * run * minor_steps(run, rise, k + 1) == if e > run {
                e - 2 * run
            } else {
                e
            }
        }),
{
    assert(2 * (k + 1) * rise == 2 * k * rise + 2 * rise) by (nonlinear_arith);
    if run == 0 {
        assert(2 * k * rise == 0 && 2 * (k + 1) * rise == 0) by (nonlinear_arith)
            requires
                rise == 0,
        ;
    } else {
        let n = 2 * k * rise + run - 1;
        lemma_fundamental_div_mod(n, 2 * run);
        let m = n / (2 * run);
        let r = n % (2 * run);
        assert(n == 2 * run * m + r);
        assert((m + 1) * (2 * run) == 2 * run * m + 2 * run) by (nonlinear_arith);
        assert(m * (2 * run) == 2 * run * m) by (nonlinear_arith);
        assert(2 * run * (m + 1) == 2 * run * m + 2 * run) by (nonlinear_arith);
        assert(2 * (k + 1) * rise + run - 1 == n + 2 * rise);
        if r + 2 * rise >= 2 * run {
            lemma_fundamental_div_mod_converse(n + 2 * rise, 2 * run, m + 1, r + 2 * rise - 2 * run);
        } else {
            lemma_fundamental_div_mod_converse(n + 2 * rise, 2 * run, m, r + 2 * rise);
        }
    }
}

/// Pixel (x, y) is drawn by one of the four edges of the rectangle with
/// opposite corners (x1, y1) and (x2, y2).
pub open spec fn on_rect_edge(x1: int, y1: int, x2: int, y2: int, x: int, y: int) -> bool {
    ||| on_line(x1, y1, x2, y1, x, y)
    ||| on_line(x2, y1, x2, y2, x, y)
    ||| on_line(x2, y2, x1, y2, x, y)
    ||| on_line(x1, y2, x1, y1, x, y)
}

/// Distance of `v` from zero.
pub(crate) fn magnitude(v: i64) -> (r: i64)
    requires
        v > i64::MIN,
    ensures
        r == abs(v as int),
{
    if v < 0 { -v } else { v }
}

} // verus!
