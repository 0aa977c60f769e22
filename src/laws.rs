use vstd::prelude::*;
use crate::color::Col;
use crate::geometry::Vec2;
use crate::paint::{lemma_byte_of_pixel, lemma_paint_agree, paint};
use crate::segment::{in_rect, on_line};
use crate::surface::Renderer;
use crate::triangle::{doubled_area, in_triangle};

verus! {

/// Writing a pixel off the surface leaves every byte as it was.
pub proof fn lemma_off_surface_write_is_noop(r: Renderer, x: int, y: int, c: Col)
    requires
        r.wf(),
        !r.in_bounds(x, y),
    ensures
        r.painted(|px: int, py: int| px == x && py == y, c) == r@,
{
    lemma_paint_agree(r@, r.width as int, r.height as int, |px: int, py: int| px == x && py == y,
        |px: int, py: int| false, c);
    assert(r.painted(|px: int, py: int| false, c) =~= r@);
}

/// After a fill with `c`, every pixel on the surface reads back as `c`.
pub proof fn lemma_fill_reads_back(r: Renderer, c: Col, x: int, y: int)
    requires
        r.wf(),
        r.in_bounds(x, y),
    ensures
        ({
            let filled = r.painted(|px: int, py: int| true, c);
            let i = r.index_of(x, y);
            Col(filled[i], filled[i + 1], filled[i + 2], filled[i + 3]) == c
        }),
{
    let w = r.width as int;
    lemma_byte_of_pixel(w, x, y, 0);
    lemma_byte_of_pixel(w, x, y, 1);
    lemma_byte_of_pixel(w, x, y, 2);
    lemma_byte_of_pixel(w, x, y, 3);
    assert(0 <= (y * w + x) * 4 && (y * w + x) * 4 + 4 <= w * (r.height as int) * 4) by (nonlinear_arith)
        requires
            0 <= x < w,
            0 <= y < r.height,
    ;
}

/// Filling twice with the same colour gives the same bytes as filling once.
pub proof fn lemma_fill_idempotent(bytes: Seq<u8>, width: int, c: Col)
    ensures
        paint(paint(bytes, width, |x: int, y: int| true, c), width, |x: int, y: int| true, c)
            == paint(bytes, width, |x: int, y: int| true, c),
{
    assert(paint(paint(bytes, width, |x: int, y: int| true, c), width, |x: int, y: int| true, c)
        =~= paint(bytes, width, |x: int, y: int| true, c));
}

/// A segment draws the same pixels whichever end it starts from.
pub proof fn lemma_line_reversible(x1: int, y1: int, x2: int, y2: int, x: int, y: int)
    ensures
        on_line(x1, y1, x2, y2, x, y) == on_line(x2, y2, x1, y1, x, y),
{
}

/// Drawing a segment from either end leaves the same bytes.
pub proof fn lemma_line_reversible_surface(r: Renderer, a: Vec2<i32>, b: Vec2<i32>, c: Col)
    ensures
        r.painted(|x: int, y: int| on_line(a.x as int, a.y as int, b.x as int, b.y as int, x, y), c)
            == r.painted(|x: int, y: int| on_line(b.x as int, b.y as int, a.x as int, a.y as int, x, y), c),
{
    assert forall|x: int, y: int|
        on_line(a.x as int, a.y as int, b.x as int, b.y as int, x, y)
            == #[trigger] on_line(b.x as int, b.y as int, a.x as int, a.y as int, x, y) by {
        lemma_line_reversible(a.x as int, a.y as int, b.x as int, b.y as int, x, y);
    }
    assert(r.painted(|x: int, y: int| on_line(a.x as int, a.y as int, b.x as int, b.y as int, x, y), c)
        =~= r.painted(|x: int, y: int| on_line(b.x as int, b.y as int, a.x as int, a.y as int, x, y), c));
}

/// Filling a rectangle gives the same bytes whichever corner comes first.
pub proof fn lemma_rect_fill_symmetric(r: Renderer, p1: Vec2<i32>, p2: Vec2<i32>, c: Col)
    ensures
        r.painted(|x: int, y: int| in_rect(p1.x as int, p1.y as int, p2.x as int, p2.y as int, x, y), c)
            == r.painted(|x: int, y: int| in_rect(p2.x as int, p2.y as int, p1.x as int, p1.y as int, x, y), c),
{
    assert(r.painted(|x: int, y: int| in_rect(p1.x as int, p1.y as int, p2.x as int, p2.y as int, x, y), c)
        =~= r.painted(|x: int, y: int| in_rect(p2.x as int, p2.y as int, p1.x as int, p1.y as int, x, y), c));
}

/// A triangle with two equal vertices covers no pixel.
pub proof fn lemma_degenerate_triangle_empty(a: Vec2<i32>, b: Vec2<i32>, c: Vec2<i32>, x: int, y: int)
    requires
        a == b || b == c || c == a,
    ensures
        !in_triangle(a, b, c, x, y),
{
    let (ax, ay, bx, by, cx, cy) = (a.x as int, a.y as int, b.x as int, b.y as int, c.x as int, c.y as int);
    assert(doubled_area(a, b, c) == 0) by (nonlinear_arith)
        requires
            (ax == bx && ay == by) || (bx == cx && by == cy) || (cx == ax && cy == ay),
            doubled_area(a, b, c) == (cx - ax) * (by - ay) - (bx - ax) * (cy - ay),
    ;
}

} // verus!
