//! Little-endian reads on a byte slice with an explicit cursor position,
//! and the little-endian encodings they invert.
use vstd::prelude::*;

verus! {

/// The unsigned little-endian value of the `width` bytes of `b` at `i`
/// (`width` is 1, 2, 3 or 4).
pub open spec fn le_value(b: Seq<u8>, i: int, width: nat) -> int {
    if width == 1 {
        b[i] as int
    } else if width == 2 {
        b[i] as int + 256 * b[i + 1] as int
    } else if width == 3 {
        b[i] as int + 256 * b[i + 1] as int + 65536 * b[i + 2] as int
    } else {
        b[i] as int + 256 * b[i + 1] as int + 65536 * b[i + 2] as int + 16777216 * b[i + 3] as int
    }
}

/// The two little-endian bytes of `x`.
pub open spec fn le16_bytes(x: u16) -> Seq<u8> {
    seq![(x % 256) as u8, (x / 256) as u8]
}

/// The four little-endian bytes of `x`.
pub open spec fn le32_bytes(x: u32) -> Seq<u8> {
    seq![(x % 256) as u8, (x / 256 % 256) as u8, (x / 65536 % 256) as u8, (x / 16777216) as u8]
}

/// Reads `width` (1, 2 or 4) bytes at `*pos` as an unsigned little-endian
/// number. On a short read nothing is consumed.
pub fn read_le(buf: &[u8], pos: &mut usize, width: usize) -> (r: Option<u32>)
    requires
        width == 1 || width == 2 || width == 4,
    ensures
        *old(pos) + width <= buf@.len() ==> r == Some(le_value(buf@, *old(pos) as int, width as nat) as u32)
            && *final(pos) == *old(pos) + width,
        *old(pos) + width > buf@.len() ==> r is None && *final(pos) == *old(pos),
        r matches Some(v) ==> v as int == le_value(buf@, *old(pos) as int, width as nat),
{
    let p = *pos;
    if p > buf.len() || buf.len() - p < width {
        return None;
    }
    let v: u32 = if width == 1 {
        buf[p] as u32
    } else if width == 2 {
        buf[p] as u32 + 256 * buf[p + 1] as u32
    } else {
        buf[p] as u32 + 256 * buf[p + 1] as u32 + 65536 * buf[p + 2] as u32 + 16777216 * buf[p + 3] as u32
    };
    *pos = p + width;
    Some(v)
}

/// Reads one byte.
pub fn read_u8(buf: &[u8], pos: &mut usize) -> (r: Option<u8>)
    ensures
        *old(pos) < buf@.len() ==> r == Some(buf@[*old(pos) as int]) && *final(pos) == *old(pos) + 1,
        *old(pos) >= buf@.len() ==> r is None && *final(pos) == *old(pos),
{
    let p = *pos;
    if p >= buf.len() {
        return None;
    }
    *pos = p + 1;
    Some(buf[p])
}

/// Reads a little-endian `u16`.
pub fn read_u16_le(buf: &[u8], pos: &mut usize) -> (r: Option<u16>)
    ensures
        *old(pos) + 2 <= buf@.len() ==> r == Some(le_value(buf@, *old(pos) as int, 2) as u16)
            && *final(pos) == *old(pos) + 2,
        *old(pos) + 2 > buf@.len() ==> r is None && *final(pos) == *old(pos),
{
    match read_le(buf, pos, 2) {
        Some(v) => Some(v as u16),
        None => None,
    }
}

/// Reads a little-endian `u32`.
pub fn read_u32_le(buf: &[u8], pos: &mut usize) -> (r: Option<u32>)
    ensures
        *old(pos) + 4 <= buf@.len() ==> r == Some(le_value(buf@, *old(pos) as int, 4) as u32)
            && *final(pos) == *old(pos) + 4,
        *old(pos) + 4 > buf@.len() ==> r is None && *final(pos) == *old(pos),
{
    read_le(buf, pos, 4)
}

/// Appends the little-endian bytes of `x`.
pub fn push_u16_le(out: &mut Vec<u8>, x: u16)
    ensures
        final(out)@ == old(out)@ + le16_bytes(x),
{
    out.push((x % 256) as u8);
    out.push((x / 256) as u8);
    assert(final(out)@ =~= old(out)@ + le16_bytes(x));
}

/// Appends the little-endian bytes of `x`.
pub fn push_u32_le(out: &mut Vec<u8>, x: u32)
    ensures
        final(out)@ == old(out)@ + le32_bytes(x),
{
    out.push((x % 256) as u8);
    out.push((x / 256 % 256) as u8);
    out.push((x / 65536 % 256) as u8);
    out.push((x / 16777216) as u8);
    assert(final(out)@ =~= old(out)@ + le32_bytes(x));
}

/// Reading back what `push_u32_le` wrote gives the same number.
pub proof fn lemma_le32_round_trip(x: u32)
    ensures
        le_value(le32_bytes(x), 0, 4) == x as int,
{
    let b = le32_bytes(x);
    assert(b[0] as int == x % 256);
    assert(b[1] as int == x / 256 % 256);
    assert(b[2] as int == x / 65536 % 256);
    assert(b[3] as int == x / 16777216);
    assert(x as int == x % 256 + 256 * (x / 256 % 256) + 65536 * (x / 65536 % 256) + 16777216 * (x / 16777216))
        by (nonlinear_arith);
}

} // verus!
