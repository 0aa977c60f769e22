//! A small software rasterizer: an RGBA pixel surface with verified drawing
//! primitives (pixels, lines, triangles, rectangles and whole-surface fills).
mod buffer;
mod color;
mod geometry;
pub mod laws;
mod paint;
mod ppm;
mod segment;
mod surface;
mod triangle;

use vstd::prelude::*;
use crate::color::{pack_word, unpack_word};
use crate::geometry::vec2i_spec;
use crate::segment::{in_rect, on_line, on_rect_edge};
use crate::triangle::in_triangle;

pub use buffer::{alloc_u8, fill_u8};
pub use color::Col;
pub use geometry::{vec2i, vec3i, Vec2, Vec3};
pub use ppm::dump_ppm;
pub use surface::Renderer;

verus! {

// Entry points for a host that speaks in plain integers: coordinates as
// `i32` and colours packed into one `i32` (see `pack_word`).

/// A `width` x `height` surface of opaque black.
pub fn new(width: i32, height: i32) -> (r: Box<Renderer>)
    requires
        0 < width,
        0 < height,
        width * height * 4 <= i32::MAX,
    ensures
        r.wf(),
        r.width == width,
        r.height == height,
        r@ == Seq::new((width * height * 4) as nat, |i: int| if i % 4 == 3 { 255u8 } else { 0u8 }),
{
    let mut renderer = Renderer::new(width, height);
    renderer.fill_channel(3, 255);
    proof {
        assert(renderer@ =~= Seq::new((width * height * 4) as nat, |i: int| if i % 4 == 3 { 255u8 } else { 0u8 }));
    }
    Box::new(renderer)
}

/// The number of bytes in the surface's buffer.
pub fn data_size(renderer: &mut Renderer) -> (n: i32)
    requires
        old(renderer).wf(),
    ensures
        *final(renderer) == *old(renderer),
        n == old(renderer).size,
{
    renderer.size as i32
}

/// The surface's bytes, row-major, four per pixel in R, G, B, A order.
pub fn data_ptr(renderer: &Renderer) -> (bytes: &[u8])
    ensures
        bytes@ == renderer@,
{
    renderer.data.as_slice()
}

/// Draws the segment from (x1, y1) to (x2, y2) in a packed colour.
pub fn line(renderer: &mut Renderer, x1: i32, y1: i32, x2: i32, y2: i32, color: i32)
    requires
        old(renderer).wf(),
    ensures
        old(renderer).same_frame(final(renderer)),
        final(renderer)@ == old(renderer).painted(
            |x: int, y: int| on_line(x1 as int, y1 as int, x2 as int, y2 as int, x, y),
            unpack_word(color as u32),
        ),
{
    renderer.line(&vec2i(x1, y1), &vec2i(x2, y2), &Col::from_i32(color));
}

/// Sets every pixel to a packed colour.
pub fn fill(renderer: &mut Renderer, color: i32)
    requires
        old(renderer).wf(),
    ensures
        old(renderer).same_frame(final(renderer)),
        final(renderer)@ == old(renderer).painted(|x: int, y: int| true, unpack_word(color as u32)),
{
    renderer.fill(&Col::from_i32(color));
}

/// The packed colour of pixel (x, y); opaque black off the surface.
pub fn peek(renderer: &mut Renderer, x: i32, y: i32) -> (v: i32)
    requires
        old(renderer).wf(),
    ensures
        *final(renderer) == *old(renderer),
        v as u32 == pack_word(
            if old(renderer).in_bounds(x as int, y as int) {
                old(renderer).pixel(x as int, y as int)
            } else {
                Col(0, 0, 0, 255)
            },
        ),
{
    let mut c = match renderer.get_pixel(x, y) {
        Some(c) => c,
        None => Col::default(),
    };
    c.to_i32()
}

/// Fills the triangle with the three given vertices in a packed colour.
pub fn tri(renderer: &mut Renderer, x1: i32, y1: i32, x2: i32, y2: i32, x3: i32, y3: i32, color: i32)
    requires
        old(renderer).wf(),
    ensures
        old(renderer).same_frame(final(renderer)),
        final(renderer)@ == old(renderer).painted(
            |x: int, y: int| in_triangle(vec2i_spec(x1, y1), vec2i_spec(x2, y2), vec2i_spec(x3, y3), x, y),
            unpack_word(color as u32),
        ),
{
    let color = Col::from_i32(color);
    renderer.triangle_barycentric(&vec2i(x1, y1), &vec2i(x2, y2), &vec2i(x3, y3), &color);
}

/// Draws the edges of the triangle with the three given vertices.
pub fn tri_wf(renderer: &mut Renderer, x1: i32, y1: i32, x2: i32, y2: i32, x3: i32, y3: i32, color: i32)
    requires
        old(renderer).wf(),
    ensures
        old(renderer).same_frame(final(renderer)),
        final(renderer)@ == old(renderer).painted(
            |x: int, y: int|
                on_line(x1 as int, y1 as int, x2 as int, y2 as int, x, y)
                || on_line(x2 as int, y2 as int, x3 as int, y3 as int, x, y)
                || on_line(x3 as int, y3 as int, x1 as int, y1 as int, x, y),
            unpack_word(color as u32),
        ),
{
    let color = Col::from_i32(color);
    renderer.triangle_wireframe(&vec2i(x1, y1), &vec2i(x2, y2), &vec2i(x3, y3), &color);
}

/// Fills the rectangle with opposite corners (x1, y1) and (x2, y2).
pub fn rect(renderer: &mut Renderer, x1: i32, y1: i32, x2: i32, y2: i32, color: i32)
    requires
        old(renderer).wf(),
    ensures
        old(renderer).same_frame(final(renderer)),
        final(renderer)@ == old(renderer).painted(
            |x: int, y: int| in_rect(x1 as int, y1 as int, x2 as int, y2 as int, x, y),
            unpack_word(color as u32),
        ),
{
    let color = Col::from_i32(color);
    renderer.rect_fill(&vec2i(x1, y1), &vec2i(x2, y2), &color);
}

/// Draws the edges of the rectangle with opposite corners (x1, y1) and (x2, y2).
pub fn rect_wf(renderer: &mut Renderer, x1: i32, y1: i32, x2: i32, y2: i32, color: i32)
    requires
        old(renderer).wf(),
    ensures
        old(renderer).same_frame(final(renderer)),
        final(renderer)@ == old(renderer).painted(
            |x: int, y: int| on_rect_edge(x1 as int, y1 as int, x2 as int, y2 as int, x, y),
            unpack_word(color as u32),
        ),
{
    let color = Col::from_i32(color);
    renderer.rect_wireframe(&vec2i(x1, y1), &vec2i(x2, y2), &color);
}

} // verus!
