use render_lib::{
    alloc_u8, data_ptr, data_size, dump_ppm, fill, fill_u8, new, peek, rect, rect_wf, tri, tri_wf, vec2i,
    vec3i, Col, Renderer,
};

fn pack(r: u8, g: u8, b: u8, a: u8) -> i32 {
    Col::new(r, g, b, a).to_i32()
}

fn painted(r: &Renderer, c: &Col) -> Vec<(i32, i32)> {
    let mut v = Vec::new();
    for y in 0..r.height {
        for x in 0..r.width {
            if r.get_pixel(x, y).unwrap() == *c {
                v.push((x, y));
            }
        }
    }
    v
}

#[test]
fn pack_places_channels_high_to_low() {
    assert_eq!(pack(1, 2, 3, 4), 0x01020304);
    assert_eq!(pack(255, 0, 0, 255), 0xff0000ffu32 as i32);
    assert_eq!(pack(0, 0, 0, 255), 255);
}

#[test]
fn unpack_reads_channels() {
    assert_eq!(Col::from_i32(0x01020304), Col(1, 2, 3, 4));
    assert_eq!(Col::from_i32(-1), Col(255, 255, 255, 255));
    assert_eq!(Col::from_i32(0), Col(0, 0, 0, 0));
}

#[test]
fn pack_unpack_round_trip() {
    for &(r, g, b, a) in &[(0u8, 0u8, 0u8, 0u8), (255, 255, 255, 255), (128, 1, 200, 7), (12, 34, 56, 78)] {
        let v = pack(r, g, b, a);
        assert_eq!(Col::from_i32(v), Col(r, g, b, a));
    }
}

#[test]
fn default_colour_is_opaque_black() {
    assert_eq!(Col::default(), Col(0, 0, 0, 255));
}

#[test]
fn new_surface_is_opaque_black() {
    let mut r = new(3, 2);
    assert_eq!(data_size(&mut r), 24);
    assert_eq!(r.size, 24);
    let bytes = data_ptr(&r);
    assert_eq!(bytes.len(), 24);
    for (i, b) in bytes.iter().enumerate() {
        assert_eq!(*b, if i % 4 == 3 { 255 } else { 0 });
    }
    let plain = Renderer::new(3, 2);
    assert_eq!(data_ptr(&plain), bytes);
}

#[test]
fn out_of_bounds_reads_give_nothing() {
    let r = Renderer::new(4, 3);
    assert_eq!(r.get_pixel(-1, 0), None);
    assert_eq!(r.get_pixel(0, -1), None);
    assert_eq!(r.get_pixel(4, 0), None);
    assert_eq!(r.get_pixel(0, 3), None);
    assert_eq!(r.get_pixel(3, 2), Some(Col(0, 0, 0, 255)));
}

#[test]
fn out_of_bounds_writes_are_dropped() {
    let mut r = Renderer::new(4, 3);
    let before = data_ptr(&r).to_vec();
    let c = Col(9, 8, 7, 6);
    r.set_pixel(-1, 0, &c);
    r.set_pixel(4, 0, &c);
    r.set_pixel(0, 3, &c);
    r.set_pixel(0, -1, &c);
    assert_eq!(data_ptr(&r).to_vec(), before);
    r.set_pixel(1, 2, &c);
    assert_eq!(r.get_pixel(1, 2), Some(c));
    assert_eq!(&data_ptr(&r)[(2 * 4 + 1) * 4..(2 * 4 + 1) * 4 + 4], &[9, 8, 7, 6]);
}

#[test]
fn peek_off_surface_is_opaque_black() {
    let mut r = new(2, 2);
    assert_eq!(peek(&mut r, 5, 5), pack(0, 0, 0, 255));
    fill(&mut r, pack(1, 2, 3, 4));
    assert_eq!(peek(&mut r, 1, 1), pack(1, 2, 3, 4));
}

#[test]
fn fill_sets_every_pixel_and_is_idempotent() {
    let mut r = Renderer::new(5, 3);
    let c = Col(10, 20, 30, 40);
    r.fill(&c);
    for y in 0..3 {
        for x in 0..5 {
            assert_eq!(r.get_pixel(x, y), Some(c));
        }
    }
    let once = data_ptr(&r).to_vec();
    r.fill(&c);
    assert_eq!(data_ptr(&r).to_vec(), once);
}

#[test]
fn fill_channel_accepts_all_four_channels() {
    let mut r = Renderer::new(2, 2);
    r.fill_channel(3, 7);
    assert_eq!(r.get_pixel(1, 1), Some(Col(0, 0, 0, 7)));
    r.fill_channel(0, 9);
    assert_eq!(r.get_pixel(0, 1), Some(Col(9, 0, 0, 7)));
    let before = data_ptr(&r).to_vec();
    r.fill_channel(4, 1);
    r.fill_channel(-1, 1);
    assert_eq!(data_ptr(&r).to_vec(), before);
}

#[test]
fn horizontal_line_covers_both_ends() {
    let mut r = Renderer::new(8, 3);
    let c = Col(255, 255, 255, 255);
    r.line(&vec2i(0, 0), &vec2i(5, 0), &c);
    assert_eq!(painted(&r, &c), vec![(0, 0), (1, 0), (2, 0), (3, 0), (4, 0), (5, 0)]);
}

#[test]
fn single_point_line_draws_one_pixel() {
    let mut r = Renderer::new(4, 4);
    let c = Col(1, 1, 1, 1);
    r.line(&vec2i(2, 3), &vec2i(2, 3), &c);
    assert_eq!(painted(&r, &c), vec![(2, 3)]);
}

#[test]
fn diagonal_and_steep_lines() {
    let c = Col(5, 5, 5, 5);
    let mut r = Renderer::new(6, 6);
    r.line(&vec2i(0, 0), &vec2i(3, 3), &c);
    assert_eq!(painted(&r, &c), vec![(0, 0), (1, 1), (2, 2), (3, 3)]);
    let mut s = Renderer::new(6, 6);
    s.line(&vec2i(1, 0), &vec2i(2, 4), &c);
    assert_eq!(painted(&s, &c), vec![(1, 0), (1, 1), (1, 2), (2, 3), (2, 4)]);
}

#[test]
fn line_is_the_same_from_either_end() {
    let c = Col(7, 7, 7, 7);
    let pairs = [((0, 0), (5, 2)), ((1, 5), (4, 0)), ((-3, 2), (9, 4)), ((2, 2), (2, 7)), ((6, 1), (0, 3))];
    for &((ax, ay), (bx, by)) in &pairs {
        let mut r1 = Renderer::new(8, 8);
        let mut r2 = Renderer::new(8, 8);
        r1.line(&vec2i(ax, ay), &vec2i(bx, by), &c);
        r2.line(&vec2i(bx, by), &vec2i(ax, ay), &c);
        assert_eq!(data_ptr(&r1), data_ptr(&r2));
    }
}

#[test]
fn line_off_surface_is_clipped() {
    let mut r = Renderer::new(4, 4);
    let c = Col(3, 3, 3, 3);
    r.line(&vec2i(-2, 1), &vec2i(6, 1), &c);
    assert_eq!(painted(&r, &c), vec![(0, 1), (1, 1), (2, 1), (3, 1)]);
}

#[test]
fn rect_fill_is_order_independent() {
    let c = Col(1, 2, 3, 4);
    let mut r1 = Renderer::new(6, 6);
    let mut r2 = Renderer::new(6, 6);
    r1.rect_fill(&vec2i(1, 4), &vec2i(3, 2), &c);
    r2.rect_fill(&vec2i(3, 2), &vec2i(1, 4), &c);
    assert_eq!(data_ptr(&r1), data_ptr(&r2));
    assert_eq!(painted(&r1, &c).len(), 9);
    assert_eq!(r1.get_pixel(1, 2), Some(c));
    assert_eq!(r1.get_pixel(3, 4), Some(c));
    assert_eq!(r1.get_pixel(0, 2), Some(Col(0, 0, 0, 255)));
}

#[test]
fn rect_fill_clips_to_surface() {
    let c = Col(1, 2, 3, 4);
    let mut r = Renderer::new(3, 3);
    r.rect_fill(&vec2i(-5, 1), &vec2i(100, 100), &c);
    assert_eq!(painted(&r, &c), vec![(0, 1), (1, 1), (2, 1), (0, 2), (1, 2), (2, 2)]);
}

#[test]
fn triangle_contains_inner_point_only() {
    let c = Col(0, 255, 0, 255);
    let mut r = Renderer::new(12, 12);
    r.triangle_barycentric(&vec2i(0, 0), &vec2i(10, 0), &vec2i(0, 10), &c);
    assert_eq!(r.get_pixel(1, 1), Some(c));
    assert_eq!(r.get_pixel(9, 9), Some(Col(0, 0, 0, 255)));
    assert_eq!(r.get_pixel(0, 0), Some(c));
    assert_eq!(r.get_pixel(10, 0), Some(c));
    assert_eq!(r.get_pixel(5, 5), Some(c));
    assert_eq!(r.get_pixel(6, 5), Some(Col(0, 0, 0, 255)));
    assert_eq!(painted(&r, &c).len(), 66);
}

#[test]
fn triangle_orientation_does_not_matter() {
    let c = Col(0, 255, 0, 255);
    let mut r1 = Renderer::new(12, 12);
    let mut r2 = Renderer::new(12, 12);
    r1.triangle_barycentric(&vec2i(0, 0), &vec2i(10, 0), &vec2i(0, 10), &c);
    r2.triangle_barycentric(&vec2i(0, 10), &vec2i(10, 0), &vec2i(0, 0), &c);
    assert_eq!(data_ptr(&r1), data_ptr(&r2));
}

#[test]
fn degenerate_triangle_fills_nothing() {
    let c = Col(0, 255, 0, 255);
    let mut r = Renderer::new(8, 8);
    r.triangle_barycentric(&vec2i(1, 1), &vec2i(1, 1), &vec2i(6, 4), &c);
    r.triangle_barycentric(&vec2i(0, 0), &vec2i(3, 3), &vec2i(6, 6), &c);
    assert!(painted(&r, &c).is_empty());
}

#[test]
fn triangle_wireframe_joins_vertices() {
    let c = Col(9, 9, 9, 9);
    let mut r = Renderer::new(8, 8);
    r.triangle_wireframe(&vec2i(0, 0), &vec2i(4, 0), &vec2i(0, 4), &c);
    for &(x, y) in &[(0, 0), (4, 0), (0, 4), (2, 0), (0, 2), (2, 2)] {
        assert_eq!(r.get_pixel(x, y), Some(c));
    }
    assert_eq!(r.get_pixel(1, 1), Some(Col(0, 0, 0, 255)));
}

#[test]
fn rect_wireframe_draws_border_only() {
    let c = Col(4, 4, 4, 4);
    let mut r = Renderer::new(6, 6);
    r.rect_wireframe(&vec2i(4, 3), &vec2i(1, 1), &c);
    let border = painted(&r, &c);
    assert_eq!(border.len(), 10);
    assert!(!border.contains(&(2, 2)));
    assert!(border.contains(&(1, 1)) && border.contains(&(4, 3)) && border.contains(&(1, 3)));
}

#[test]
fn exported_entry_points_draw() {
    let mut r = new(6, 6);
    let c = pack(200, 100, 50, 255);
    render_lib::line(&mut r, 0, 0, 5, 0, c);
    assert_eq!(peek(&mut r, 5, 0), c);
    rect(&mut r, 1, 1, 2, 2, c);
    assert_eq!(peek(&mut r, 2, 2), c);
    tri(&mut r, 0, 3, 5, 3, 0, 5, c);
    assert_eq!(peek(&mut r, 1, 4), c);
    tri_wf(&mut r, 3, 5, 5, 5, 5, 4, c);
    assert_eq!(peek(&mut r, 4, 5), c);
    rect_wf(&mut r, 4, 1, 5, 2, c);
    assert_eq!(peek(&mut r, 5, 1), c);
    assert_eq!(peek(&mut r, 0, 2), pack(0, 0, 0, 255));
}

#[test]
fn red_square_end_to_end() {
    let mut r = new(4, 4);
    fill(&mut r, pack(255, 0, 0, 255));
    for y in 0..4 {
        for x in 0..4 {
            assert_eq!(r.get_pixel(x, y), Some(Col(255, 0, 0, 255)));
            assert_eq!(Col::from_i32(peek(&mut r, x, y)), Col(255, 0, 0, 255));
        }
    }
    let text = String::from_utf8(dump_ppm(&r)).unwrap();
    let lines: Vec<&str> = text.lines().collect();
    assert_eq!(lines[0], "P3");
    assert!(lines[1].starts_with('#'));
    assert_eq!(lines[2], "4 4");
    assert_eq!(lines[3], "255");
    assert_eq!(lines.len(), 4 + 16);
    for l in &lines[4..] {
        assert_eq!(*l, "255 0 0");
    }
}

#[test]
fn ppm_writes_decimal_channels() {
    let mut r = Renderer::new(2, 1);
    r.set_pixel(1, 0, &Col(7, 42, 100, 255));
    let text = String::from_utf8(dump_ppm(&r)).unwrap();
    assert_eq!(text, "P3\n# PPM export from Rust\n2 1\n255\n0 0 0\n7 42 100\n");
}

#[test]
fn alloc_and_fill_bytes() {
    let mut buf = alloc_u8(6);
    assert_eq!(buf, vec![0u8; 6]);
    fill_u8(&mut buf, 4, 9);
    assert_eq!(buf, vec![9, 9, 9, 9, 0, 0]);
}

#[test]
fn vector_constructors() {
    let p = vec2i(3, -4);
    assert_eq!((p.x, p.y), (3, -4));
    let q = vec3i(1, 2, 3);
    assert_eq!((q.x, q.y, q.z), (1, 2, 3));
}
