use vstd::prelude::*;

verus! {

/// A zero-filled byte buffer of `size` bytes, handed to the caller to own.
pub fn alloc_u8(size: usize) -> (buf: Vec<u8>)
    ensures
        buf@ == Seq::new(size as nat, |i: int| 0u8),
{
    let mut buf: Vec<u8> = Vec::with_capacity(size);
    let mut n: usize = 0;
    while n < size
        invariant
            n <= size,
            buf@ == Seq::new(n as nat, |i: int| 0u8),
        decreases size - n,
    {
        buf.push(0u8);
        n = n + 1;
    }
    buf
}

/// Sets the first `sz` bytes of `buf` to `val`.
pub fn fill_u8(buf: &mut [u8], sz: usize, val: u8)
    requires
        sz <= old(buf)@.len(),
    ensures
        final(buf)@.len() == old(buf)@.len(),
        forall|i: int| 0 <= i < sz ==> final(buf)@[i] == val,
        forall|i: int| sz <= i < old(buf)@.len() ==> final(buf)@[i] == old(buf)@[i],
{
    let mut n: usize = 0;
    while n < sz
        invariant
            n <= sz,
            sz <= buf@.len(),
            buf@.len() == old(buf)@.len(),
            forall|i: int| 0 <= i < n ==> buf@[i] == val,
            forall|i: int| n <= i < old(buf)@.len() ==> buf@[i] == old(buf)@[i],
        decreases sz - n,
    {
        buf[n] = val;
        n = n + 1;
    }
}

} // verus!
