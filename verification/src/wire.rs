//! Big-endian integers as they stand in a DNS message.

use vstd::prelude::*;

verus! {

/// The two bytes of `v`, most significant first.
pub open spec fn be16(v: u16) -> Seq<u8> {
    seq![(v / 256) as u8, (v % 256) as u8]
}

/// The four bytes of `v`, most significant first.
pub open spec fn be32(v: u32) -> Seq<u8> {
    seq![
        (v / 0x100_0000) as u8,
        ((v / 0x1_0000) % 256) as u8,
        ((v / 0x100) % 256) as u8,
        (v % 256) as u8,
    ]
}

/// The 16-bit value whose big-endian bytes stand at `pos` and `pos + 1` of `buf`.
pub open spec fn u16_at(buf: Seq<u8>, pos: int) -> u16 {
    (buf[pos] as int * 256 + buf[pos + 1] as int) as u16
}

/// The 32-bit value whose big-endian bytes stand at `pos` to `pos + 3` of `buf`.
pub open spec fn u32_at(buf: Seq<u8>, pos: int) -> u32 {
    (buf[pos] as int * 0x100_0000 + buf[pos + 1] as int * 0x1_0000 + buf[pos + 2] as int * 0x100
        + buf[pos + 3] as int) as u32
}

/// Appends the big-endian bytes of `v` to `out`.
pub(crate) fn push_u16(out: &mut Vec<u8>, v: u16)
    ensures
        final(out)@ == old(out)@ + be16(v),
{
    out.push((v / 256) as u8);
    out.push((v % 256) as u8);
}

/// Appends the big-endian bytes of `v` to `out`.
pub(crate) fn push_u32(out: &mut Vec<u8>, v: u32)
    ensures
        final(out)@ == old(out)@ + be32(v),
{
    out.push((v / 0x100_0000) as u8);
    out.push(((v / 0x1_0000) % 256) as u8);
    out.push(((v / 0x100) % 256) as u8);
    out.push((v % 256) as u8);
}

/// Reads the big-endian 16-bit value at `pos`.
pub(crate) fn read_u16(buf: &[u8], pos: usize) -> (v: u16)
    requires
        pos + 2 <= buf@.len(),
    ensures
        v == u16_at(buf@, pos as int),
{
    let hi: u16 = buf[pos] as u16;
    let lo: u16 = buf[pos + 1] as u16;
    hi * 256 + lo
}

/// Reads the big-endian 32-bit value at `pos`.
pub(crate) fn read_u32(buf: &[u8], pos: usize) -> (v: u32)
    requires
        pos + 4 <= buf@.len(),
    ensures
        v == u32_at(buf@, pos as int),
{
    let b0: u32 = buf[pos] as u32;
    let b1: u32 = buf[pos + 1] as u32;
    let b2: u32 = buf[pos + 2] as u32;
    let b3: u32 = buf[pos + 3] as u32;
    b0 * 0x100_0000 + b1 * 0x1_0000 + b2 * 0x100 + b3
}

/// Appends `bytes` to `out`.
pub(crate) fn push_bytes(out: &mut Vec<u8>, bytes: &Vec<u8>)
    ensures
        final(out)@ == old(out)@ + bytes@,
{
    let mut j: usize = 0;
    assert(bytes@.take(0) =~= Seq::<u8>::empty());
    assert(out@ + Seq::<u8>::empty() =~= out@);
    while j < bytes.len()
        invariant
            j <= bytes.len(),
            out@ == old(out)@ + bytes@.take(j as int),
        decreases bytes.len() - j,
    {
        out.push(bytes[j]);
        assert(bytes@.take(j as int + 1) =~= bytes@.take(j as int).push(bytes@[j as int]));
        assert(out@ =~= old(out)@ + bytes@.take(j as int + 1));
        j += 1;
    }
    assert(bytes@.take(j as int) =~= bytes@);
}

/// A copy of the `len` bytes of `buf` from `from` on.
pub(crate) fn copy_range(buf: &[u8], from: usize, len: usize) -> (out: Vec<u8>)
    requires
        from + len <= buf@.len(),
    ensures
        out@ == buf@.subrange(from as int, from + len),
{
    let mut out: Vec<u8> = Vec::new();
    let mut j: usize = 0;
    let total: usize = buf.len();
    let ghost whole = buf@.subrange(from as int, from + len);
    while j < len
        invariant
            j <= len,
            from + len <= total,
            total == buf@.len(),
            whole == buf@.subrange(from as int, from + len),
            out@ == whole.take(j as int),
        decreases len - j,
    {
        out.push(buf[from + j]);
        assert(whole.take(j as int + 1) =~= whole.take(j as int).push(whole[j as int]));
        j += 1;
    }
    assert(whole.take(j as int) =~= whole);
    out
}

/// Reading back what `be16` wrote gives the value written.
pub proof fn lemma_be16_round_trip(buf: Seq<u8>, pos: int, v: u16)
    requires
        0 <= pos,
        pos + 2 <= buf.len(),
        buf.subrange(pos, pos + 2) == be16(v),
    ensures
        u16_at(buf, pos) == v,
{
    assert(buf[pos] == buf.subrange(pos, pos + 2)[0]);
    assert(buf[pos + 1] == buf.subrange(pos, pos + 2)[1]);
}

/// Reading back what `be32` wrote gives the value written.
pub proof fn lemma_be32_round_trip(buf: Seq<u8>, pos: int, v: u32)
    requires
        0 <= pos,
        pos + 4 <= buf.len(),
        buf.subrange(pos, pos + 4) == be32(v),
    ensures
        u32_at(buf, pos) == v,
{
    assert(buf[pos] == buf.subrange(pos, pos + 4)[0]);
    assert(buf[pos + 1] == buf.subrange(pos, pos + 4)[1]);
    assert(buf[pos + 2] == buf.subrange(pos, pos + 4)[2]);
    assert(buf[pos + 3] == buf.subrange(pos, pos + 4)[3]);
}

} // verus!
