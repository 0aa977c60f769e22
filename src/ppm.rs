use vstd::prelude::*;
use crate::color::Col;
use crate::surface::Renderer;

verus! {

/// The ASCII decimal digits of `n`, most significant first.
pub open spec fn decimal(n: nat) -> Seq<u8>
    decreases n,
{
    if n < 10 {
        seq![(48 + n) as u8]
    } else {
        decimal(n / 10).push((48 + n % 10) as u8)
    }
}

/// The header of a plain-text portable pixmap: the magic number, a comment
/// line, the dimensions and the largest channel value.
pub open spec fn ppm_header(width: nat, height: nat) -> Seq<u8> {
    ppm_magic() + decimal(width) + seq![32u8] + decimal(height) + seq![10u8] + ppm_depth()
}

pub open spec fn ppm_magic() -> Seq<u8> {
    seq![80u8, 51u8, 10u8, 35u8, 32u8, 80u8, 80u8, 77u8, 32u8, 101u8, 120u8, 112u8, 111u8, 114u8, 116u8, 32u8, 102u8, 114u8, 111u8, 109u8, 32u8, 82u8, 117u8, 115u8, 116u8, 10u8]
}

pub open spec fn ppm_depth() -> Seq<u8> {
    seq![50u8, 53u8, 53u8, 10u8]
}

/// One line per pixel for the first `n` pixels of `bytes`: red, green and
/// blue in decimal, separated by spaces (alpha is left out).
pub open spec fn ppm_pixels(bytes: Seq<u8>, n: nat) -> Seq<u8>
    decreases n,
{
    if n == 0 {
        seq![]
    } else {
        let i = (n - 1) * 4;
        ppm_pixels(bytes, (n - 1) as nat) + decimal(bytes[i] as nat) + seq![32u8] + decimal(bytes[i + 1] as nat)
            + seq![32u8] + decimal(bytes[i + 2] as nat) + seq![10u8]
    }
}

fn push_all(out: &mut Vec<u8>, text: &Vec<u8>)
    ensures
        final(out)@ == old(out)@ + text@,
{
    let mut i: usize = 0;
    while i < text.len()
        invariant
            i <= text@.len(),
            out@ == old(out)@ + text@.subrange(0, i as int),
        decreases text@.len() - i,
    {
        out.push(text[i]);
        i = i + 1;
        assert(text@.subrange(0, i as int) =~= text@.subrange(0, i - 1 as int).push(text@[i - 1]));
    }
    assert(text@.subrange(0, i as int) =~= text@);
}

fn push_decimal(out: &mut Vec<u8>, n: u32)
    ensures
        final(out)@ == old(out)@ + decimal(n as nat),
    decreases n,
{
    if n >= 10 {
        push_decimal(out, n / 10);
    }
    out.push((48 + n % 10) as u8);
    assert(decimal(n as nat) =~= if n < 10 { seq![(48 + n) as u8] } else { decimal((n / 10) as nat).push((48 + n % 10) as u8) });
}

/// The surface as a plain-text portable pixmap (`ppm_header`, then
/// `ppm_pixels` for every pixel, row by row).
pub fn dump_ppm(renderer: &Renderer) -> (text: Vec<u8>)
    requires
        renderer.wf(),
    ensures
        text@ == ppm_header(renderer.width as nat, renderer.height as nat)
            + ppm_pixels(renderer@, (renderer.width * renderer.height) as nat),
{
    let mut out: Vec<u8> = Vec::new();
    push_all(&mut out, &vec![80u8, 51u8, 10u8, 35u8, 32u8, 80u8, 80u8, 77u8, 32u8, 101u8, 120u8, 112u8, 111u8, 114u8, 116u8, 32u8, 102u8, 114u8, 111u8, 109u8, 32u8, 82u8, 117u8, 115u8, 116u8, 10u8]);
    push_decimal(&mut out, renderer.width as u32);
    out.push(32u8);
    push_decimal(&mut out, renderer.height as u32);
    out.push(10u8);
    push_all(&mut out, &vec![50u8, 53u8, 53u8, 10u8]);
    let ghost header = out@;
    proof {
        assert(header =~= ppm_header(renderer.width as nat, renderer.height as nat));
        assert(out@ =~= header + ppm_pixels(renderer@, 0));
    }
    let ghost w = renderer.width as int;
    let mut y: i32 = 0;
    while y < renderer.height
        invariant
            renderer.wf(),
            w == renderer.width,
            0 <= y <= renderer.height,
            out@ == header + ppm_pixels(renderer@, (y * w) as nat),
        decreases renderer.height - y,
    {
        let mut x: i32 = 0;
        while x < renderer.width
            invariant
                renderer.wf(),
                w == renderer.width,
                0 <= y < renderer.height,
                0 <= x <= renderer.width,
                out@ == header + ppm_pixels(renderer@, (y * w + x) as nat),
            decreases renderer.width - x,
        {
            let col = match renderer.get_pixel(x, y) {
                Some(val) => val,
                None => Col::new(0, 0, 0, 255),
            };
            push_decimal(&mut out, col.0 as u32);
            out.push(32u8);
            push_decimal(&mut out, col.1 as u32);
            out.push(32u8);
            push_decimal(&mut out, col.2 as u32);
            out.push(10u8);
            proof {
                let k = y * w + x;
                assert(0 <= y * w + x) by (nonlinear_arith)
                    requires
                        0 <= y,
                        0 <= x,
                        0 < w,
                ;
                let i = ((k + 1) as nat - 1) * 4;
                assert(i == renderer.index_of(x as int, y as int));
                assert(out@ =~= header + ppm_pixels(renderer@, (k + 1) as nat));
            }
            x = x + 1;
        }
        proof {
            assert(y * w + w == (y + 1) * w) by (nonlinear_arith);
        }
        y = y + 1;
    }
    proof {
        assert(y * w == renderer.width * renderer.height) by (nonlinear_arith)
            requires
                y == renderer.height,
                w == renderer.width,
        ;
    }
    out
}

} // verus!
