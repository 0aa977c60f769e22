use vstd::prelude::*;
use vstd::arithmetic::div_mod::lemma_fundamental_div_mod_converse;
use crate::buffer::alloc_u8;
use crate::color::{channel, Col};
use crate::geometry::{vec2i, Vec2};
use crate::paint::{lemma_byte_of_pixel, lemma_paint_agree, lemma_paint_point, lemma_paint_union, lemma_pixel_of_byte, paint, with_channel};
use crate::segment::{abs, in_rect, lemma_minor_bounds, lemma_minor_step, magnitude, minor_steps, on_line, on_rect_edge};
use crate::triangle::{barycentric, in_triangle, lemma_triangle_in_box};

verus! {

/// Bytes per pixel: red, green, blue, alpha.
pub const CHANNELS: i32 = 4;

/// A `width` x `height` RGBA surface, stored row-major from the top-left
/// corner, four bytes per pixel.
pub struct Renderer {
    pub width: i32,
    pub height: i32,
    pub size: usize,
    pub data: Vec<u8>,
}

impl View for Renderer {
    type V = Seq<u8>;

    /// The pixel bytes.
    open spec fn view(&self) -> Seq<u8> {
        self.data@
    }
}

impl Renderer {
    /// Dimensions are positive, the byte count fits an `i32`, and the buffer
    /// holds four bytes for each pixel.
    pub open spec fn wf(&self) -> bool {
        &&& 0 < self.width
        &&& 0 < self.height
        &&& self.width * self.height * 4 <= i32::MAX
        &&& self.size == self.width * self.height * 4
        &&& self@.len() == self.size
    }

    pub open spec fn in_bounds(&self, x: int, y: int) -> bool {
        0 <= x < self.width && 0 <= y < self.height
    }

    /// Index of the red byte of pixel (x, y).
    pub open spec fn index_of(&self, x: int, y: int) -> int {
        (y * self.width + x) * 4
    }

    /// The colour of pixel (x, y).
    pub open spec fn pixel(&self, x: int, y: int) -> Col {
        let i = self.index_of(x, y);
        Col(self@[i], self@[i + 1], self@[i + 2], self@[i + 3])
    }

    /// The buffer after every pixel of `shape` is set to `c`.
    pub open spec fn painted(&self, shape: spec_fn(int, int) -> bool, c: Col) -> Seq<u8> {
        paint(self@, self.width as int, shape, c)
    }

    /// `other` has the same dimensions as `self`.
    pub open spec fn same_frame(&self, other: &Renderer) -> bool {
        &&& other.wf()
        &&& other.width == self.width
        &&& other.height == self.height
        &&& other.size == self.size
    }

    /// A `width` x `height` surface of opaque black.
    pub fn new(width: i32, height: i32) -> (r: Renderer)
        requires
            0 < width,
            0 < height,
            width * height * 4 <= i32::MAX,
        ensures
            r.wf(),
            r.width == width,
            r.height == height,
            r@ == Seq::new((width * height * 4) as nat, |i: int| if i % 4 == 3 { 255u8 } else { 0u8 }),
    {
        assert(0 <= width * height <= width * height * 4) by (nonlinear_arith)
            requires
                0 < width,
                0 < height,
        ;
        let size = (width * height * CHANNELS) as usize;
        let mut r = Renderer { width, height, size, data: alloc_u8(size) };
        r.fill_channel(3, 255);
        assert(r@ =~= Seq::new((width * height * 4) as nat, |i: int| if i % 4 == 3 { 255u8 } else { 0u8 }));
        r
    }

    fn bounds(&self, x: i32, y: i32) -> (b: bool)
        ensures
            b == self.in_bounds(x as int, y as int),
    {
        x > -1 && y > -1 && x < self.width && y < self.height
    }

    fn pixel_index(&self, x: i32, y: i32) -> (r: Option<usize>)
        requires
            self.wf(),
        ensures
            self.in_bounds(x as int, y as int) ==> r == Some(self.index_of(x as int, y as int) as usize),
            self.in_bounds(x as int, y as int) ==> self.index_of(x as int, y as int) + 4 <= self@.len(),
            !self.in_bounds(x as int, y as int) ==> r.is_none(),
    {
        if self.bounds(x, y) {
            assert(0 <= (y * self.width + x) * 4 && (y * self.width + x) * 4 + 4 <= self.width * self.height * 4)
                by (nonlinear_arith)
                requires
                    0 <= x < self.width,
                    0 <= y < self.height,
            ;
            Some(((y * self.width + x) * CHANNELS) as usize)
        } else {
            None
        }
    }

    /// The colour of pixel (x, y), or `None` off the surface.
    pub fn get_pixel(&self, x: i32, y: i32) -> (r: Option<Col>)
        requires
            self.wf(),
        ensures
            r == if self.in_bounds(x as int, y as int) {
                Some(self.pixel(x as int, y as int))
            } else {
                None::<Col>
            },
    {
        match self.pixel_index(x, y) {
            Some(i) => Some(Col::new(self.data[i], self.data[i + 1], self.data[i + 2], self.data[i + 3])),
            None => None,
        }
    }

    /// Sets pixel (x, y) to `color`; does nothing off the surface.
    pub fn set_pixel(&mut self, x: i32, y: i32, color: &Col)
        requires
            old(self).wf(),
        ensures
            old(self).same_frame(final(self)),
            final(self)@ == old(self).painted(|px: int, py: int| px == x && py == y, *color),
    {
        let ghost w = self.width as int;
        let ghost h = self.height as int;
        match self.pixel_index(x, y) {
            Some(i) => {
                self.data[i] = color.0;
                self.data[i + 1] = color.1;
                self.data[i + 2] = color.2;
                self.data[i + 3] = color.3;
                assert forall|j: int| 0 <= j < self@.len() implies self@[j] == old(self).painted(
                    |px: int, py: int| px == x && py == y,
                    *color,
                )[j] by {
                    lemma_pixel_of_byte(w, h, j);
                    if i <= j < i + 4 {
                        lemma_byte_of_pixel(w, x as int, y as int, j - i);
                    }
                }
            },
            None => {
                assert forall|j: int| 0 <= j < self@.len() implies self@[j] == old(self).painted(
                    |px: int, py: int| px == x && py == y,
                    *color,
                )[j] by {
                    lemma_pixel_of_byte(w, h, j);
                }
            },
        }
        assert(self@ =~= old(self).painted(|px: int, py: int| px == x && py == y, *color));
    }

    /// Sets channel `channel` (0 red, 1 green, 2 blue, 3 alpha) of every pixel
    /// to `val`; does nothing for any other channel number.
    pub fn fill_channel(&mut self, channel: i32, val: u8)
        requires
            old(self).wf(),
        ensures
            old(self).same_frame(final(self)),
            final(self)@ == if 0 <= channel < 4 {
                with_channel(old(self)@, channel as int, val)
            } else {
                old(self)@
            },
    {
        if channel < 0 || channel >= CHANNELS {
            return;
        }
        let n = self.data.len();
        let mut i: usize = 0;
        while i < n
            invariant
                old(self).wf(),
                old(self).same_frame(self),
                n == self@.len(),
                n % 4 == 0,
                i % 4 == 0,
                i <= n,
                0 <= channel < 4,
                forall|j: int| 0 <= j < i ==> self@[j] == with_channel(old(self)@, channel as int, val)[j],
                forall|j: int| i <= j < n ==> self@[j] == old(self)@[j],
            decreases n - i,
        {
            self.data[i + channel as usize] = val;
            assert forall|j: int| i <= j < i + 4 implies #[trigger] (j % 4) == j - i by {
                lemma_fundamental_div_mod_converse(j, 4, i as int / 4, j - i);
            }
            i = i + 4;
        }
        assert(self@ =~= with_channel(old(self)@, channel as int, val));
    }

    /// Sets every pixel to `color`.
    pub fn fill(&mut self, color: &Col)
        requires
            old(self).wf(),
        ensures
            old(self).same_frame(final(self)),
            final(self)@ == old(self).painted(|px: int, py: int| true, *color),
    {
        let n = self.data.len();
        let mut i: usize = 0;
        while i < n
            invariant
                old(self).wf(),
                old(self).same_frame(self),
                n == self@.len(),
                n % 4 == 0,
                i % 4 == 0,
                i <= n,
                forall|j: int| 0 <= j < i ==> self@[j] == channel(*color, j % 4),
                forall|j: int| i <= j < n ==> self@[j] == old(self)@[j],
            decreases n - i,
        {
            self.data[i] = color.0;
            self.data[i + 1] = color.1;
            self.data[i + 2] = color.2;
            self.data[i + 3] = color.3;
            assert forall|j: int| i <= j < i + 4 implies #[trigger] (j % 4) == j - i by {
                lemma_fundamental_div_mod_converse(j, 4, i as int / 4, j - i);
            }
            i = i + 4;
        }
        assert(self@ =~= old(self).painted(|px: int, py: int| true, *color));
    }
    /// Draws the segment from `pt1` to `pt2`, both ends included (see
    /// `on_line`); pixels off the surface are skipped.
    pub fn line(&mut self, pt1: &Vec2<i32>, pt2: &Vec2<i32>, color: &Col)
        requires
            old(self).wf(),
        ensures
            old(self).same_frame(final(self)),
            final(self)@ == old(self).painted(
                |x: int, y: int| on_line(pt1.x as int, pt1.y as int, pt2.x as int, pt2.y as int, x, y),
                *color,
            ),
    {
        let ghost shape = |x: int, y: int|
            on_line(pt1.x as int, pt1.y as int, pt2.x as int, pt2.y as int, x, y);
        let steep: bool = magnitude(pt2.x as i64 - pt1.x as i64) < magnitude(pt2.y as i64 - pt1.y as i64);

        // if steep transpose x and y.
        let (x1, y1, x2, y2) = if steep {
            (pt1.y as i64, pt1.x as i64, pt2.y as i64, pt2.x as i64)
        } else {
            (pt1.x as i64, pt1.y as i64, pt2.x as i64, pt2.y as i64)
        };

        // if backwards swap point 1 for point 2.
        let (x1, y1, x2, y2) = if x1 > x2 {
            (x2, y2, x1, y1)
        } else {
            (x1, y1, x2, y2)
        };

        let dx = x2 - x1;
        let dy = y2 - y1;
        let derror2 = magnitude(dy) * 2;
        let ghost rise = abs(dy as int);
        let mut error2: i64 = 0;
        let mut y = y1;
        let mut x = x1;
        let ghost w = self.width as int;
        let ghost h = self.height as int;
        proof {
            lemma_minor_bounds(dx as int, rise, 0);
            assert(2 * (x - x1) * rise == 0) by (nonlinear_arith)
                requires
                    x == x1,
            ;
            lemma_paint_agree(old(self)@, w, h,
                |px: int, py: int| false,
                |px: int, py: int| shape(px, py) && (if steep { py } else { px }) < x1,
                *color);
            assert(old(self).painted(|px: int, py: int| false, *color) =~= old(self)@);
        }
        while x <= x2
            invariant
                old(self).wf(),
                old(self).same_frame(self),
                w == self.width,
                h == self.height,
                x1 <= x <= x2 + 1,
                dx == x2 - x1,
                rise == abs(dy as int),
                rise <= dx,
                derror2 == 2 * rise,
                x1 >= i32::MIN && x2 <= i32::MAX,
                y1 >= i32::MIN && y1 <= i32::MAX && y2 >= i32::MIN && y2 <= i32::MAX,
                dy == y2 - y1,
                y == if y2 > y1 { y1 + minor_steps(dx as int, rise, x - x1) } else { y1 - minor_steps(dx as int, rise, x - x1) },
                error2 == 2 * (x - x1) * rise - 2 * dx * minor_steps(dx as int, rise, x - x1),
                forall|px: int, py: int| #[trigger] shape(px, py) == ({
                    let (a, b) = if steep { (py, px) } else { (px, py) };
                    &&& x1 <= a <= x2
                    &&& b == if y2 > y1 { y1 + minor_steps(dx as int, rise, a - x1) } else { y1 - minor_steps(dx as int, rise, a - x1) }
                }),
                self@ == old(self).painted(
                    |px: int, py: int| shape(px, py) && (if steep { py } else { px }) < x,
                    *color,
                ),
            decreases x2 - x + 1,
        {
            proof {
                lemma_minor_bounds(dx as int, rise, x - x1);
            }
            if steep {
                self.set_pixel(y as i32, x as i32, color);
            } else {
                self.set_pixel(x as i32, y as i32, color);
            }
            proof {
                let (qx, qy) = if steep { (y as int, x as int) } else { (x as int, y as int) };
                lemma_paint_point(
                    old(self)@,
                    w,
                    |px: int, py: int| shape(px, py) && (if steep { py } else { px }) < x,
                    |px: int, py: int| shape(px, py) && (if steep { py } else { px }) < x + 1,
                    *color,
                    qx,
                    qy,
                );
                lemma_minor_step(dx as int, rise, x - x1);
            }

            error2 = error2 + derror2;
            if error2 > dx {
                y = y + if y2 > y1 { 1 } else { -1 };
                error2 = error2 - dx * 2;
            }
            x = x + 1;
        }
        proof {
            lemma_paint_agree(old(self)@, w, h,
                |px: int, py: int| shape(px, py) && (if steep { py } else { px }) < x,
                shape,
                *color);
        }
    }

    /// Fills triangle (`pt1`, `pt2`, `pt3`), edges included (see
    /// `in_triangle`); a degenerate triangle fills nothing.
    pub fn triangle_barycentric(&mut self, pt1: &Vec2<i32>, pt2: &Vec2<i32>, pt3: &Vec2<i32>, color: &Col)
        requires
            old(self).wf(),
        ensures
            old(self).same_frame(final(self)),
            final(self)@ == old(self).painted(|x: int, y: int| in_triangle(*pt1, *pt2, *pt3, x, y), *color),
    {
        // Bounding box of the vertices, clamped to the surface.
        let mut min_x = self.width - 1;
        let mut min_y = self.height - 1;
        let mut max_x: i32 = 0;
        let mut max_y: i32 = 0;
        if pt1.x < min_x { min_x = pt1.x }
        if pt2.x < min_x { min_x = pt2.x }
        if pt3.x < min_x { min_x = pt3.x }
        if pt1.y < min_y { min_y = pt1.y }
        if pt2.y < min_y { min_y = pt2.y }
        if pt3.y < min_y { min_y = pt3.y }
        if pt1.x > max_x { max_x = pt1.x }
        if pt2.x > max_x { max_x = pt2.x }
        if pt3.x > max_x { max_x = pt3.x }
        if pt1.y > max_y { max_y = pt1.y }
        if pt2.y > max_y { max_y = pt2.y }
        if pt3.y > max_y { max_y = pt3.y }
        if max_x >= self.width { max_x = self.width - 1 }
        if max_y >= self.height { max_y = self.height - 1 }
        if min_x < 0 { min_x = 0 }
        if min_y < 0 { min_y = 0 }
        let ghost w = self.width as int;
        let ghost h = self.height as int;
        let ghost shape = |px: int, py: int| in_triangle(*pt1, *pt2, *pt3, px, py);
        proof {
            assert forall|px: int, py: int| 0 <= px < w && 0 <= py < h && #[trigger] shape(px, py)
                implies min_x <= px <= max_x && min_y <= py <= max_y by {
                lemma_triangle_in_box(*pt1, *pt2, *pt3, px, py);
            }
        }
        let mut y = min_y;
        while y <= max_y
            invariant
                old(self).wf(),
                old(self).same_frame(self),
                w == self.width,
                h == self.height,
                min_y <= y,
                max_y < self.height,
                max_x < self.width,
                forall|px: int, py: int| #[trigger] shape(px, py) == in_triangle(*pt1, *pt2, *pt3, px, py),
                self@ == old(self).painted(
                    |px: int, py: int| (min_x <= px <= max_x && min_y <= py <= max_y) && shape(px, py) && py < y,
                    *color,
                ),
            decreases max_y - y + 1,
        {
            let mut x = min_x;
            proof {
                lemma_paint_agree(
                    old(self)@,
                    w,
                    h,
                    |px: int, py: int| (min_x <= px <= max_x && min_y <= py <= max_y) && shape(px, py) && py < y,
                    |px: int, py: int| (min_x <= px <= max_x && min_y <= py <= max_y) && shape(px, py) && (py < y || (py == y && px < x)),
                    *color,
                );
            }
            while x <= max_x
                invariant
                    old(self).wf(),
                    old(self).same_frame(self),
                    w == self.width,
                    h == self.height,
                    min_y <= y <= max_y,
                    min_x <= x,
                    max_y < self.height,
                    max_x < self.width,
                    forall|px: int, py: int| #[trigger] shape(px, py) == in_triangle(*pt1, *pt2, *pt3, px, py),
                    self@ == old(self).painted(
                        |px: int, py: int| (min_x <= px <= max_x && min_y <= py <= max_y) && shape(px, py) && (py < y || (py == y && px < x)),
                        *color,
                    ),
                decreases max_x - x + 1,
            {
                if barycentric(pt1, pt2, pt3, x, y) {
                    self.set_pixel(x, y, color);
                    proof {
                        lemma_paint_point(
                            old(self)@,
                            w,
                            |px: int, py: int| (min_x <= px <= max_x && min_y <= py <= max_y) && shape(px, py) && (py < y || (py == y && px < x)),
                            |px: int, py: int| (min_x <= px <= max_x && min_y <= py <= max_y) && shape(px, py) && (py < y || (py == y && px < x + 1)),
                            *color,
                            x as int,
                            y as int,
                        );
                    }
                } else {
                    proof {
                        lemma_paint_agree(
                            old(self)@,
                            w,
                            h,
                            |px: int, py: int| (min_x <= px <= max_x && min_y <= py <= max_y) && shape(px, py) && (py < y || (py == y && px < x)),
                            |px: int, py: int| (min_x <= px <= max_x && min_y <= py <= max_y) && shape(px, py) && (py < y || (py == y && px < x + 1)),
                            *color,
                        );
                    }
                }
                x = x + 1;
            }
            proof {
                lemma_paint_agree(
                    old(self)@,
                    w,
                    h,
                    |px: int, py: int| (min_x <= px <= max_x && min_y <= py <= max_y) && shape(px, py) && (py < y || (py == y && px < x)),
                    |px: int, py: int| (min_x <= px <= max_x && min_y <= py <= max_y) && shape(px, py) && py < y + 1,
                    *color,
                );
            }
            y = y + 1;
        }
        proof {
            lemma_paint_agree(
                old(self)@,
                w,
                h,
                |px: int, py: int| (min_x <= px <= max_x && min_y <= py <= max_y) && shape(px, py) && py < y,
                |x: int, y: int| in_triangle(*pt1, *pt2, *pt3, x, y),
                *color,
            );
        }
    }

    /// Draws the three edges of triangle (`pt1`, `pt2`, `pt3`).
    pub fn triangle_wireframe(&mut self, pt1: &Vec2<i32>, pt2: &Vec2<i32>, pt3: &Vec2<i32>, color: &Col)
        requires
            old(self).wf(),
        ensures
            old(self).same_frame(final(self)),
            final(self)@ == old(self).painted(
                |x: int, y: int|
                    on_line(pt1.x as int, pt1.y as int, pt2.x as int, pt2.y as int, x, y)
                    || on_line(pt2.x as int, pt2.y as int, pt3.x as int, pt3.y as int, x, y)
                    || on_line(pt3.x as int, pt3.y as int, pt1.x as int, pt1.y as int, x, y),
                *color,
            ),
    {
        let ghost w = self.width as int;
        let ghost l1 = |x: int, y: int| on_line(pt1.x as int, pt1.y as int, pt2.x as int, pt2.y as int, x, y);
        let ghost l2 = |x: int, y: int| on_line(pt2.x as int, pt2.y as int, pt3.x as int, pt3.y as int, x, y);
        let ghost l3 = |x: int, y: int| on_line(pt3.x as int, pt3.y as int, pt1.x as int, pt1.y as int, x, y);
        self.line(pt1, pt2, color);
        self.line(pt2, pt3, color);
        self.line(pt3, pt1, color);
        proof {
            lemma_paint_union(old(self)@, w, l1, l2, *color);
            lemma_paint_union(old(self)@, w, |x: int, y: int| l1(x, y) || l2(x, y), l3, *color);
            assert(self@ =~= old(self).painted(
                |x: int, y: int|
                    on_line(pt1.x as int, pt1.y as int, pt2.x as int, pt2.y as int, x, y)
                    || on_line(pt2.x as int, pt2.y as int, pt3.x as int, pt3.y as int, x, y)
                    || on_line(pt3.x as int, pt3.y as int, pt1.x as int, pt1.y as int, x, y),
                *color,
            ));
        }
    }

    /// Sets every pixel of the rectangle with opposite corners `pt1` and
    /// `pt2`, edges included, to `color`.
    pub fn rect_fill(&mut self, pt1: &Vec2<i32>, pt2: &Vec2<i32>, color: &Col)
        requires
            old(self).wf(),
        ensures
            old(self).same_frame(final(self)),
            final(self)@ == old(self).painted(
                |x: int, y: int| in_rect(pt1.x as int, pt1.y as int, pt2.x as int, pt2.y as int, x, y),
                *color,
            ),
    {
        let (x_min, x_max) = if pt1.x < pt2.x { (pt1.x, pt2.x) } else { (pt2.x, pt1.x) };
        let (y_min, y_max) = if pt1.y < pt2.y { (pt1.y, pt2.y) } else { (pt2.y, pt1.y) };
        // Only the part on the surface is visited.
        let x_lo = if x_min < 0 { 0 } else { x_min };
        let x_hi = if x_max >= self.width { self.width - 1 } else { x_max };
        let y_lo = if y_min < 0 { 0 } else { y_min };
        let y_hi = if y_max >= self.height { self.height - 1 } else { y_max };
        let ghost w = self.width as int;
        let ghost h = self.height as int;
        let mut y = y_lo;
        while y <= y_hi
            invariant
                old(self).wf(),
                old(self).same_frame(self),
                w == self.width,
                h == self.height,
                y_lo <= y,
                y_hi < self.height,
                x_hi < self.width,
                self@ == old(self).painted(|px: int, py: int| (x_lo <= px <= x_hi && y_lo <= py <= y_hi) && py < y, *color),
            decreases y_hi - y + 1,
        {
            let mut x = x_lo;
            proof {
                lemma_paint_agree(
                    old(self)@,
                    w,
                    h,
                    |px: int, py: int| (x_lo <= px <= x_hi && y_lo <= py <= y_hi) && py < y,
                    |px: int, py: int| (x_lo <= px <= x_hi && y_lo <= py <= y_hi) && (py < y || (py == y && px < x)),
                    *color,
                );
            }
            while x <= x_hi
                invariant
                    old(self).wf(),
                    old(self).same_frame(self),
                    w == self.width,
                    h == self.height,
                    y_lo <= y <= y_hi,
                    x_lo <= x,
                    y_hi < self.height,
                    x_hi < self.width,
                    self@ == old(self).painted(
                        |px: int, py: int| (x_lo <= px <= x_hi && y_lo <= py <= y_hi) && (py < y || (py == y && px < x)),
                        *color,
                    ),
                decreases x_hi - x + 1,
            {
                self.set_pixel(x, y, color);
                proof {
                    lemma_paint_point(
                        old(self)@,
                        w,
                        |px: int, py: int| (x_lo <= px <= x_hi && y_lo <= py <= y_hi) && (py < y || (py == y && px < x)),
                        |px: int, py: int| (x_lo <= px <= x_hi && y_lo <= py <= y_hi) && (py < y || (py == y && px < x + 1)),
                        *color,
                        x as int,
                        y as int,
                    );
                }
                x = x + 1;
            }
            proof {
                lemma_paint_agree(
                    old(self)@,
                    w,
                    h,
                    |px: int, py: int| (x_lo <= px <= x_hi && y_lo <= py <= y_hi) && (py < y || (py == y && px < x)),
                    |px: int, py: int| (x_lo <= px <= x_hi && y_lo <= py <= y_hi) && py < y + 1,
                    *color,
                );
            }
            y = y + 1;
        }
        proof {
            lemma_paint_agree(
                old(self)@,
                w,
                h,
                |px: int, py: int| (x_lo <= px <= x_hi && y_lo <= py <= y_hi) && py < y,
                |x: int, y: int| in_rect(pt1.x as int, pt1.y as int, pt2.x as int, pt2.y as int, x, y),
                *color,
            );
        }
    }
    /// Draws the four edges of the rectangle with opposite corners `pt1` and
    /// `pt2`: from (x1, y1) to (x2, y1) to (x2, y2) to (x1, y2) and back.
    pub fn rect_wireframe(&mut self, pt1: &Vec2<i32>, pt2: &Vec2<i32>, color: &Col)
        requires
            old(self).wf(),
        ensures
            old(self).same_frame(final(self)),
            final(self)@ == old(self).painted(
                |x: int, y: int| on_rect_edge(pt1.x as int, pt1.y as int, pt2.x as int, pt2.y as int, x, y),
                *color,
            ),
    {
        let ghost (x1, y1, x2, y2) = (pt1.x as int, pt1.y as int, pt2.x as int, pt2.y as int);
        let ghost w = self.width as int;
        let ghost l1 = |x: int, y: int| on_line(x1, y1, x2, y1, x, y);
        let ghost l2 = |x: int, y: int| on_line(x2, y1, x2, y2, x, y);
        let ghost l3 = |x: int, y: int| on_line(x2, y2, x1, y2, x, y);
        let ghost l4 = |x: int, y: int| on_line(x1, y2, x1, y1, x, y);
        self.line(&vec2i(pt1.x, pt1.y), &vec2i(pt2.x, pt1.y), color);
        self.line(&vec2i(pt2.x, pt1.y), &vec2i(pt2.x, pt2.y), color);
        self.line(&vec2i(pt2.x, pt2.y), &vec2i(pt1.x, pt2.y), color);
        self.line(&vec2i(pt1.x, pt2.y), &vec2i(pt1.x, pt1.y), color);
        proof {
            lemma_paint_union(old(self)@, w, l1, l2, *color);
            lemma_paint_union(old(self)@, w, |x: int, y: int| l1(x, y) || l2(x, y), l3, *color);
            lemma_paint_union(old(self)@, w, |x: int, y: int| (l1(x, y) || l2(x, y)) || l3(x, y), l4, *color);
            assert(self@ =~= old(self).painted(
                |x: int, y: int| on_rect_edge(x1, y1, x2, y2, x, y),
                *color,
            ));
        }
    }
}

} // verus!
