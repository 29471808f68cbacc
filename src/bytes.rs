//! Little-endian integer fields of the ZIP wire format.
use vstd::prelude::*;

verus! {

/// The 16-bit little-endian value stored at `b[i]`, `b[i + 1]`.
pub open spec fn le16(b: Seq<u8>, i: int) -> u16 {
    (b[i] as int + b[i + 1] as int * 256) as u16
}

/// The 32-bit little-endian value stored at `b[i]` .. `b[i + 3]`.
pub open spec fn le32(b: Seq<u8>, i: int) -> u32 {
    (b[i] as int + b[i + 1] as int * 256 + b[i + 2] as int * 65536 + b[i + 3] as int
        * 16777216) as u32
}

/// Reads the 16-bit little-endian field at offset `i`.
pub fn read_u16(b: &Vec<u8>, i: usize) -> (r: u16)
    requires
        i + 2 <= b.len(),
    ensures
        r == le16(b@, i as int),
{
    (b[i] as u16) + (b[i + 1] as u16) * 256
}

/// Reads the 32-bit little-endian field at offset `i`.
pub fn read_u32(b: &Vec<u8>, i: usize) -> (r: u32)
    requires
        i + 4 <= b.len(),
    ensures
        r == le32(b@, i as int),
{
    (b[i] as u32) + (b[i + 1] as u32) * 256 + (b[i + 2] as u32) * 65536 + (b[i + 3] as u32)
        * 16777216
}

/// Copies `len` bytes starting at `start`.
pub fn copy_range(b: &Vec<u8>, start: usize, len: usize) -> (r: Vec<u8>)
    requires
        start + len <= b.len(),
    ensures
        r@ == b@.subrange(start as int, start + len),
{
    let mut r: Vec<u8> = Vec::with_capacity(len);
    let mut i: usize = 0;
    while i < len
        invariant
            start + len <= b.len(),
            i <= len,
            r@ == b@.subrange(start as int, start + i),
        decreases len - i,
    {
        r.push(b[start + i]);
        i += 1;
        assert(r@ =~= b@.subrange(start as int, start + i));
    }
    r
}

} // verus!
