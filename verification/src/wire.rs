//! Little-endian byte encoding helpers shared by the companion protocol, the
//! flash directory records and the TCP framing.
use vstd::prelude::*;

verus! {

/// The two little-endian bytes of a `u16`.
pub open spec fn le16(x: u16) -> Seq<u8> {
    seq![(x % 256) as u8, (x / 256) as u8]
}

/// The four little-endian bytes of a `u32`.
pub open spec fn le32(x: u32) -> Seq<u8> {
    seq![
        (x % 256) as u8,
        ((x / 256) % 256) as u8,
        ((x / 65536) % 256) as u8,
        (x / 16777216) as u8,
    ]
}

/// The `u16` whose little-endian bytes are `b[0], b[1]`.
pub open spec fn u16_of_le(b: Seq<u8>) -> u16 {
    (b[0] + 256 * b[1]) as u16
}

/// The `u32` whose little-endian bytes are `b[0..4]`.
pub open spec fn u32_of_le(b: Seq<u8>) -> u32 {
    (b[0] + 256 * b[1] + 65536 * b[2] + 16777216 * b[3]) as u32
}

/// `n` zero bytes.
pub open spec fn zeros(n: nat) -> Seq<u8> {
    Seq::new(n, |i: int| 0u8)
}

/// Decoding the encoding of a `u32` gives it back.
pub proof fn lemma_le32_roundtrip(x: u32)
    ensures
        le32(x).len() == 4,
        u32_of_le(le32(x)) == x,
{
    let v = x as int;
    assert(v % 256 + 256 * ((v / 256) % 256) + 65536 * ((v / 65536) % 256) + 16777216 * (v
        / 16777216) == v) by (nonlinear_arith)
        requires
            0 <= v < 0x1_0000_0000,
    ;
}

/// Encoding the decoding of four bytes gives them back.
pub proof fn lemma_le32_of_bytes(b: Seq<u8>)
    requires
        b.len() == 4,
    ensures
        le32(u32_of_le(b)) =~= b,
{
    let b0 = b[0] as int;
    let b1 = b[1] as int;
    let b2 = b[2] as int;
    let b3 = b[3] as int;
    let v = b0 + 256 * b1 + 65536 * b2 + 16777216 * b3;
    assert(v % 256 == b0 && (v / 256) % 256 == b1 && (v / 65536) % 256 == b2 && v / 16777216
        == b3) by (nonlinear_arith)
        requires
            0 <= b0 < 256,
            0 <= b1 < 256,
            0 <= b2 < 256,
            0 <= b3 < 256,
            v == b0 + 256 * b1 + 65536 * b2 + 16777216 * b3,
    ;
}

/// Decoding the encoding of a `u16` gives it back.
pub proof fn lemma_le16_roundtrip(x: u16)
    ensures
        le16(x).len() == 2,
        u16_of_le(le16(x)) == x,
{
    let v = x as int;
    assert(v % 256 + 256 * (v / 256) == v) by (nonlinear_arith)
        requires
            0 <= v < 0x1_0000,
    ;
}

/// Appends the little-endian bytes of `x`.
pub fn push_u16_le(out: &mut Vec<u8>, x: u16)
    ensures
        final(out)@ == old(out)@ + le16(x),
{
    out.push((x % 256) as u8);
    out.push((x / 256) as u8);
    assert(out@ =~= old(out)@ + le16(x));
}

/// Appends the little-endian bytes of `x`.
pub fn push_u32_le(out: &mut Vec<u8>, x: u32)
    ensures
        final(out)@ == old(out)@ + le32(x),
{
    out.push((x % 256) as u8);
    out.push(((x / 256) % 256) as u8);
    out.push(((x / 65536) % 256) as u8);
    out.push((x / 16777216) as u8);
    assert(out@ =~= old(out)@ + le32(x));
}

/// Appends every byte of `src`, in order.
pub fn push_slice(out: &mut Vec<u8>, src: &[u8])
    ensures
        final(out)@ == old(out)@ + src@,
{
    let ghost start = out@;
    let mut i: usize = 0;
    while i < src.len()
        invariant
            i <= src@.len(),
            out@ == start + src@.subrange(0, i as int),
        decreases src@.len() - i,
    {
        out.push(src[i]);
        i = i + 1;
        assert(out@ =~= start + src@.subrange(0, i as int));
    }
    assert(src@.subrange(0, src@.len() as int) =~= src@);
}

/// Appends `n` zero bytes.
pub fn push_zeros(out: &mut Vec<u8>, n: usize)
    ensures
        final(out)@ == old(out)@ + zeros(n as nat),
{
    let ghost start = out@;
    let mut i: usize = 0;
    while i < n
        invariant
            i <= n,
            out@ == start + zeros(i as nat),
        decreases n - i,
    {
        out.push(0u8);
        i = i + 1;
        assert(out@ =~= start + zeros(i as nat));
    }
}

/// Reads the little-endian `u16` stored at `pos`.
pub fn read_u16_le(buf: &[u8], pos: usize) -> (r: u16)
    requires
        pos + 2 <= buf@.len(),
    ensures
        r == u16_of_le(buf@.subrange(pos as int, pos + 2)),
{
    (buf[pos] as u16) + 256 * (buf[pos + 1] as u16)
}

/// Reads the little-endian `u32` stored at `pos`.
pub fn read_u32_le(buf: &[u8], pos: usize) -> (r: u32)
    requires
        pos + 4 <= buf@.len(),
    ensures
        r == u32_of_le(buf@.subrange(pos as int, pos + 4)),
{
    (buf[pos] as u32) + 256 * (buf[pos + 1] as u32) + 65536 * (buf[pos + 2] as u32) + 16777216 * (
    buf[pos + 3] as u32)
}

/// Copies `N` bytes starting at `pos` into an array.
pub fn read_array<const N: usize>(buf: &[u8], pos: usize) -> (r: [u8; N])
    requires
        pos + N <= buf@.len(),
    ensures
        r@ == buf@.subrange(pos as int, pos + N),
{
    let mut out: [u8; N] = [0u8; N];
    let mut i: usize = 0;
    while i < N
        invariant
            i <= N,
            pos + N <= buf.len(),
            buf.len() == buf@.len(),
            out@.len() == N,
            forall|j: int| 0 <= j < i ==> out@[j] == buf@[pos + j],
        decreases N - i,
    {
        out[i] = buf[pos + i];
        i = i + 1;
    }
    assert(out@ =~= buf@.subrange(pos as int, pos + N));
    out
}

/// Copies `buf[start..end]` into a new vector.
pub fn copy_range(buf: &[u8], start: usize, end: usize) -> (r: Vec<u8>)
    requires
        start <= end <= buf@.len(),
    ensures
        r@ == buf@.subrange(start as int, end as int),
{
    let mut out: Vec<u8> = Vec::new();
    let mut i: usize = start;
    while i < end
        invariant
            start <= i <= end,
            end <= buf@.len(),
            out@ == buf@.subrange(start as int, i as int),
        decreases end - i,
    {
        out.push(buf[i]);
        i = i + 1;
        assert(out@ =~= buf@.subrange(start as int, i as int));
    }
    out
}

/// Overwrites the start of `buffer` with `bytes`, leaving the rest as it was.
pub fn write_prefix(buffer: &mut [u8], bytes: &[u8])
    requires
        bytes@.len() <= old(buffer)@.len(),
    ensures
        final(buffer)@ == bytes@ + old(buffer)@.subrange(bytes@.len() as int, old(buffer)@.len() as int),
{
    let ghost start = buffer@;
    let mut i: usize = 0;
    while i < bytes.len()
        invariant
            i <= bytes@.len(),
            bytes@.len() <= start.len(),
            buffer@.len() == start.len(),
            forall|j: int| 0 <= j < i ==> buffer@[j] == bytes@[j],
            forall|j: int| i <= j < start.len() ==> buffer@[j] == start[j],
        decreases bytes@.len() - i,
    {
        buffer[i] = bytes[i];
        i = i + 1;
    }
    assert(buffer@ =~= bytes@ + start.subrange(bytes@.len() as int, start.len() as int));
}

} // verus!
