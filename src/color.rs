use vstd::prelude::*;

verus! {

/// A colour as four 8-bit channels: red, green, blue and alpha.
#[derive(Debug, Clone, Copy, PartialEq, Eq, Structural)]
pub struct Col(pub u8, pub u8, pub u8, pub u8);

/// The 32-bit word of a colour: red in bits 24..32, green in 16..24,
/// blue in 8..16 and alpha in 0..8.
pub open spec fn pack_word(c: Col) -> u32 {
    ((c.0 as u32) << 24u32) | ((c.1 as u32) << 16u32) | ((c.2 as u32) << 8u32) | (c.3 as u32)
}

/// The colour whose channels are the four bytes of a word, red first.
pub open spec fn unpack_word(w: u32) -> Col {
    Col((w >> 24u32) as u8, (w >> 16u32) as u8, (w >> 8u32) as u8, w as u8)
}

/// Channel `k` (0 = red, 1 = green, 2 = blue, 3 = alpha) of a colour.
pub open spec fn channel(c: Col, k: int) -> u8 {
    if k == 0 {
        c.0
    } else if k == 1 {
        c.1
    } else if k == 2 {
        c.2
    } else {
        c.3
    }
}

/// Unpacking a packed colour gives back its four channels.
pub proof fn lemma_round_trip(r: u8, g: u8, b: u8, a: u8)
    ensures
        unpack_word(pack_word(Col(r, g, b, a))) == Col(r, g, b, a),
{
    assert(((((r as u32) << 24u32) | ((g as u32) << 16u32) | ((b as u32) << 8u32) | (a as u32))
        >> 24u32) as u8 == r) by (bit_vector);
    assert(((((r as u32) << 24u32) | ((g as u32) << 16u32) | ((b as u32) << 8u32) | (a as u32))
        >> 16u32) as u8 == g) by (bit_vector);
    assert(((((r as u32) << 24u32) | ((g as u32) << 16u32) | ((b as u32) << 8u32) | (a as u32))
        >> 8u32) as u8 == b) by (bit_vector);
    assert((((r as u32) << 24u32) | ((g as u32) << 16u32) | ((b as u32) << 8u32) | (a as u32))
        as u8 == a) by (bit_vector);
}

/// Packing the colour of a word gives back the word.
pub proof fn lemma_unpack_then_pack(w: u32)
    ensures
        pack_word(unpack_word(w)) == w,
{
    assert(((((w >> 24u32) as u8) as u32) << 24u32) | ((((w >> 16u32) as u8) as u32) << 16u32)
        | ((((w >> 8u32) as u8) as u32) << 8u32) | ((w as u8) as u32) == w) by (bit_vector);
}

impl Col {
    fn i32_to_rgba(val: i32) -> (r: (u8, u8, u8, u8))
        ensures
            Col(r.0, r.1, r.2, r.3) == unpack_word(val as u32),
    {
        let w = val as u32;
        let r = ((w >> 24u32) & 0xffu32) as u8;
        let g = ((w >> 16u32) & 0xffu32) as u8;
        let b = ((w >> 8u32) & 0xffu32) as u8;
        let a = (w & 0xffu32) as u8;
        assert(((w >> 24u32) & 0xffu32) as u8 == (w >> 24u32) as u8) by (bit_vector);
        assert(((w >> 16u32) & 0xffu32) as u8 == (w >> 16u32) as u8) by (bit_vector);
        assert(((w >> 8u32) & 0xffu32) as u8 == (w >> 8u32) as u8) by (bit_vector);
        assert((w & 0xffu32) as u8 == w as u8) by (bit_vector);
        (r, g, b, a)
    }

    fn rgba_to_i32(r: u8, g: u8, b: u8, a: u8) -> (v: i32)
        ensures
            v as u32 == pack_word(Col(r, g, b, a)),
    {
        let w = ((r as u32) << 24u32) | ((g as u32) << 16u32) | ((b as u32) << 8u32) | (a as u32);
        assert(w as i32 as u32 == w) by (bit_vector);
        w as i32
    }

    pub fn new(r: u8, g: u8, b: u8, a: u8) -> (c: Col)
        ensures
            c == Col(r, g, b, a),
    {
        Col(r, g, b, a)
    }

    /// The colour packed in a 32-bit word (see `pack_word`).
    pub fn from_i32(val: i32) -> (c: Col)
        ensures
            c == unpack_word(val as u32),
    {
        let (r, g, b, a) = Self::i32_to_rgba(val);
        Col(r, g, b, a)
    }

    /// This colour packed into a 32-bit word (see `pack_word`).
    pub fn to_i32(&mut self) -> (v: i32)
        ensures
            *final(self) == *old(self),
            v as u32 == pack_word(*old(self)),
    {
        Self::rgba_to_i32(self.0, self.1, self.2, self.3)
    }
}

impl Default for Col {
    /// Opaque black.
    fn default() -> (c: Col)
        ensures
            c == Col(0, 0, 0, 255),
    {
        Col(0, 0, 0, 255)
    }
}

} // verus!
