use vstd::prelude::*;

verus! {

/// The unsigned 16-bit little-endian value stored at `s[i..i+2]`.
pub open spec fn le_u16(s: Seq<u8>, i: int) -> int {
    s[i] as int + 256 * s[i + 1] as int
}

/// The unsigned 32-bit little-endian value stored at `s[i..i+4]`.
pub open spec fn le_u32(s: Seq<u8>, i: int) -> int {
    s[i] as int + 256 * s[i + 1] as int + 65536 * s[i + 2] as int + 16777216 * s[i + 3] as int
}

/// The two's complement 32-bit little-endian value stored at `s[i..i+4]`.
pub open spec fn le_i32(s: Seq<u8>, i: int) -> int {
    let u = le_u32(s, i);
    if u < 0x8000_0000 {
        u
    } else {
        u - 0x1_0000_0000
    }
}

/// Reads one byte at `pos`.
pub fn read_u8(buf: &[u8], pos: usize) -> (r: Option<u8>)
    ensures
        r.is_some() <==> pos < buf@.len(),
        r.is_some() ==> r.unwrap() == buf@[pos as int],
{
    if pos < buf.len() {
        Some(buf[pos])
    } else {
        None
    }
}

/// Reads a little-endian `u16` at `pos`.
pub fn read_u16(buf: &[u8], pos: usize) -> (r: Option<u16>)
    ensures
        r.is_some() <==> pos + 2 <= buf@.len(),
        r.is_some() ==> r.unwrap() as int == le_u16(buf@, pos as int),
{
    if pos < buf.len() && buf.len() - pos >= 2 {
        Some(buf[pos] as u16 + 256 * buf[pos + 1] as u16)
    } else {
        None
    }
}

/// Reads a little-endian `u32` at `pos`.
pub fn read_u32(buf: &[u8], pos: usize) -> (r: Option<u32>)
    ensures
        r.is_some() <==> pos + 4 <= buf@.len(),
        r.is_some() ==> r.unwrap() as int == le_u32(buf@, pos as int),
{
    if pos < buf.len() && buf.len() - pos >= 4 {
        Some(
            buf[pos] as u32 + 256 * buf[pos + 1] as u32 + 65536 * buf[pos + 2] as u32
                + 16777216 * buf[pos + 3] as u32,
        )
    } else {
        None
    }
}

/// Reads a little-endian two's complement `i32` at `pos`.
pub fn read_i32(buf: &[u8], pos: usize) -> (r: Option<i32>)
    ensures
        r.is_some() <==> pos + 4 <= buf@.len(),
        r.is_some() ==> r.unwrap() as int == le_i32(buf@, pos as int),
{
    match read_u32(buf, pos) {
        Some(u) => {
            if u < 0x8000_0000 {
                Some(u as i32)
            } else {
                Some(((u - 0x8000_0000) as i32) - 0x4000_0000 - 0x4000_0000)
            }
        },
        None => None,
    }
}

/// Copies `n` bytes starting at `pos`.
pub fn read_bytes(buf: &[u8], pos: usize, n: usize) -> (r: Option<Vec<u8>>)
    ensures
        r.is_some() <==> pos + n <= buf@.len(),
        r.is_some() ==> r.unwrap()@ == buf@.subrange(pos as int, pos + n),
{
    if pos > buf.len() || buf.len() - pos < n {
        return None;
    }
    let len = buf.len();
    let mut out: Vec<u8> = Vec::with_capacity(n);
    let mut i: usize = 0;
    while i < n
        invariant
            len == buf@.len(),
            pos + n <= len,
            i <= n,
            out@ == buf@.subrange(pos as int, pos + i),
        decreases n - i,
    {
        out.push(buf[pos + i]);
        proof {
            assert(buf@.subrange(pos as int, pos + i + 1) == buf@.subrange(pos as int, pos + i).push(
                buf@[pos + i],
            ));
        }
        i = i + 1;
    }
    Some(out)
}

} // verus!
