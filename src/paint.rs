use vstd::prelude::*;
use vstd::arithmetic::div_mod::{lemma_fundamental_div_mod, lemma_fundamental_div_mod_converse};
use crate::color::{channel, Col};

verus! {

/// The column of the pixel that byte `i` of a `width`-wide buffer belongs to.
pub open spec fn column_of(width: int, i: int) -> int {
    (i / 4) % width
}

/// The row of the pixel that byte `i` of a `width`-wide buffer belongs to.
pub open spec fn row_of(width: int, i: int) -> int {
    (i / 4) / width
}

/// `bytes`, read as a `width`-wide surface, with every pixel of `shape` set to `c`.
pub open spec fn paint(bytes: Seq<u8>, width: int, shape: spec_fn(int, int) -> bool, c: Col) -> Seq<u8> {
    Seq::new(
        bytes.len(),
        |i: int|
            if shape(column_of(width, i), row_of(width, i)) {
                channel(c, i % 4)
            } else {
                bytes[i]
            },
    )
}

/// `bytes` with channel `k` of every pixel set to `v`.
pub open spec fn with_channel(bytes: Seq<u8>, k: int, v: u8) -> Seq<u8> {
    Seq::new(bytes.len(), |i: int| if i % 4 == k { v } else { bytes[i] })
}

/// Byte `k` of pixel (x, y) lies in that pixel.
pub proof fn lemma_byte_of_pixel(width: int, x: int, y: int, k: int)
    requires
        0 < width,
        0 <= x < width,
        0 <= y,
        0 <= k < 4,
    ensures
        column_of(width, (y * width + x) * 4 + k) == x,
        row_of(width, (y * width + x) * 4 + k) == y,
        ((y * width + x) * 4 + k) % 4 == k,
{
    let i = (y * width + x) * 4 + k;
    assert(i == (y * width + x) * 4 + k);
    lemma_fundamental_div_mod_converse(i, 4, y * width + x, k);
    lemma_fundamental_div_mod_converse(y * width + x, width, y, x);
}

/// Every byte of a `width` x `height` buffer lies in one in-bounds pixel.
pub proof fn lemma_pixel_of_byte(width: int, height: int, i: int)
    requires
        0 < width,
        0 < height,
        0 <= i < width * height * 4,
    ensures
        0 <= column_of(width, i) < width,
        0 <= row_of(width, i) < height,
        0 <= i % 4 < 4,
        i == (row_of(width, i) * width + column_of(width, i)) * 4 + i % 4,
{
    lemma_fundamental_div_mod(i, 4);
    let q = i / 4;
    assert(0 <= q < width * height) by (nonlinear_arith)
        requires
            i == 4 * q + i % 4,
            0 <= i % 4 < 4,
            0 <= i < width * height * 4,
    ;
    lemma_fundamental_div_mod(q, width);
    let row = q / width;
    let col = q % width;
    assert(0 <= row < height) by (nonlinear_arith)
        requires
            q == width * row + col,
            0 <= col < width,
            0 <= q < width * height,
            0 < width,
    ;
}

/// Painting a shape and then one pixel paints the shape with that pixel added.
pub proof fn lemma_paint_point(
    bytes: Seq<u8>,
    width: int,
    shape: spec_fn(int, int) -> bool,
    grown: spec_fn(int, int) -> bool,
    c: Col,
    x: int,
    y: int,
)
    requires
        forall|px: int, py: int| #[trigger] grown(px, py) == (shape(px, py) || (px == x && py == y)),
    ensures
        paint(paint(bytes, width, shape, c), width, |px: int, py: int| px == x && py == y, c)
            == paint(bytes, width, grown, c),
{
    assert(paint(paint(bytes, width, shape, c), width, |px: int, py: int| px == x && py == y, c)
        =~= paint(bytes, width, grown, c));
}

/// Painting one shape and then another paints their union.
pub proof fn lemma_paint_union(
    bytes: Seq<u8>,
    width: int,
    s: spec_fn(int, int) -> bool,
    t: spec_fn(int, int) -> bool,
    c: Col,
)
    ensures
        paint(paint(bytes, width, s, c), width, t, c) == paint(bytes, width, |x: int, y: int| s(x, y) || t(x, y), c),
{
    assert(paint(paint(bytes, width, s, c), width, t, c) =~= paint(bytes, width, |x: int, y: int| s(x, y) || t(x, y), c));
}

/// Two shapes that agree on every pixel of a `width` x `height` surface paint
/// it alike.
pub proof fn lemma_paint_agree(
    bytes: Seq<u8>,
    width: int,
    height: int,
    s: spec_fn(int, int) -> bool,
    t: spec_fn(int, int) -> bool,
    c: Col,
)
    requires
        0 < width,
        0 < height,
        bytes.len() == width * height * 4,
        forall|x: int, y: int| 0 <= x < width && 0 <= y < height ==> #[trigger] s(x, y) == t(x, y),
    ensures
        paint(bytes, width, s, c) == paint(bytes, width, t, c),
{
    assert forall|i: int| 0 <= i < bytes.len() implies #[trigger] paint(bytes, width, s, c)[i]
        == paint(bytes, width, t, c)[i] by {
        lemma_pixel_of_byte(width, height, i);
    }
    assert(paint(bytes, width, s, c) =~= paint(bytes, width, t, c));
}

} // verus!
