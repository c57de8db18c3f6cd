//! Little-endian encoding of the fixed-width integers the archive format is
//! built from.
//!
//! Every multi-byte quantity in an archive — offsets, augments, and the
//! primitive values themselves — is stored as four little-endian bytes.
//! Signed offsets are stored through their two's-complement 32-bit pattern.

use vstd::prelude::*;

verus! {

/// The four little-endian bytes of a 32-bit unsigned value.
pub open spec fn le_bytes(v: u32) -> Seq<u8> {
    seq![
        (v & 0xff) as u8,
        ((v >> 8) & 0xff) as u8,
        ((v >> 16) & 0xff) as u8,
        ((v >> 24) & 0xff) as u8,
    ]
}

/// The 32-bit unsigned value encoded by four little-endian bytes.
pub open spec fn le_value(b0: u8, b1: u8, b2: u8, b3: u8) -> u32 {
    (b0 as u32) | (((b1 as u32) << 8) | (((b2 as u32) << 16) | ((b3 as u32) << 24)))
}

/// The 32-bit unsigned value stored at `pos` in `b`.
pub open spec fn u32_at(b: Seq<u8>, pos: int) -> u32
    recommends
        0 <= pos,
        pos + 4 <= b.len(),
{
    le_value(b[pos], b[pos + 1], b[pos + 2], b[pos + 3])
}

/// Decoding the four bytes of an encoding yields the encoded value.
pub proof fn lemma_le_roundtrip(v: u32)
    ensures
        le_value(
            (v & 0xff) as u8,
            ((v >> 8) & 0xff) as u8,
            ((v >> 16) & 0xff) as u8,
            ((v >> 24) & 0xff) as u8,
        ) == v,
{
    assert(((v & 0xff) as u8 as u32) | ((((v >> 8) & 0xff) as u8 as u32) << 8) | ((((v >> 16)
        & 0xff) as u8 as u32) << 16) | ((((v >> 24) & 0xff) as u8 as u32) << 24) == v)
        by (bit_vector);
    assert(((v & 0xff) as u8 as u32) | (((((v >> 8) & 0xff) as u8 as u32) << 8) | (((((v >> 16)
        & 0xff) as u8 as u32) << 16) | ((((v >> 24) & 0xff) as u8 as u32) << 24)))
        == ((v & 0xff) as u8 as u32) | ((((v >> 8) & 0xff) as u8 as u32) << 8) | ((((v >> 16)
        & 0xff) as u8 as u32) << 16) | ((((v >> 24) & 0xff) as u8 as u32) << 24)) by (bit_vector);
}

/// A value whose encoding stands at `pos` is the value read from `pos`.
pub proof fn lemma_u32_at_of_le_bytes(b: Seq<u8>, pos: int, v: u32)
    requires
        0 <= pos,
        pos + 4 <= b.len(),
        b.subrange(pos, pos + 4) == le_bytes(v),
    ensures
        u32_at(b, pos) == v,
{
    assert(b[pos] == le_bytes(v)[0]);
    assert(b[pos + 1] == le_bytes(v)[1]);
    assert(b[pos + 2] == le_bytes(v)[2]);
    assert(b[pos + 3] == le_bytes(v)[3]);
    lemma_le_roundtrip(v);
}

/// Encoding the value stored at `pos` gives back exactly the stored bytes.
pub proof fn lemma_le_bytes_at(b: Seq<u8>, pos: int)
    requires
        0 <= pos,
        pos + 4 <= b.len(),
    ensures
        le_bytes(u32_at(b, pos)) == b.subrange(pos, pos + 4),
{
    let b0 = b[pos];
    let b1 = b[pos + 1];
    let b2 = b[pos + 2];
    let b3 = b[pos + 3];
    assert((((b0 as u32) | (((b1 as u32) << 8) | (((b2 as u32) << 16) | ((b3 as u32) << 24))))
        & 0xff) as u8 == b0) by (bit_vector);
    assert(((((b0 as u32) | (((b1 as u32) << 8) | (((b2 as u32) << 16) | ((b3 as u32) << 24))))
        >> 8) & 0xff) as u8 == b1) by (bit_vector);
    assert(((((b0 as u32) | (((b1 as u32) << 8) | (((b2 as u32) << 16) | ((b3 as u32) << 24))))
        >> 16) & 0xff) as u8 == b2) by (bit_vector);
    assert(((((b0 as u32) | (((b1 as u32) << 8) | (((b2 as u32) << 16) | ((b3 as u32) << 24))))
        >> 24) & 0xff) as u8 == b3) by (bit_vector);
    assert(le_bytes(u32_at(b, pos)) =~= b.subrange(pos, pos + 4));
}

/// Equal encodings come from equal values.
pub proof fn lemma_le_bytes_injective(u1: u32, u2: u32)
    requires
        le_bytes(u1) == le_bytes(u2),
    ensures
        u1 == u2,
{
    lemma_le_roundtrip(u1);
    lemma_le_roundtrip(u2);
    assert(le_bytes(u1)[0] == le_bytes(u2)[0]);
    assert(le_bytes(u1)[1] == le_bytes(u2)[1]);
    assert(le_bytes(u1)[2] == le_bytes(u2)[2]);
    assert(le_bytes(u1)[3] == le_bytes(u2)[3]);
}

/// A prefix of a prefix is a prefix.
pub proof fn lemma_prefix_chain(a: Seq<u8>, b: Seq<u8>, c: Seq<u8>)
    requires
        a.len() <= b.len() <= c.len(),
        b.subrange(0, a.len() as int) == a,
        c.subrange(0, b.len() as int) == b,
    ensures
        c.subrange(0, a.len() as int) == a,
{
    assert forall|k: int| 0 <= k < a.len() implies c[k] == a[k] by {
        assert(b.subrange(0, a.len() as int)[k] == b[k]);
        assert(c.subrange(0, b.len() as int)[k] == c[k]);
    }
    assert(c.subrange(0, a.len() as int) =~= a);
}

/// The signed value a 32-bit pattern stands for, read as two's complement.
pub open spec fn signed32(u: u32) -> int {
    if u < 0x8000_0000 {
        u as int
    } else {
        u as int - 0x1_0000_0000
    }
}

/// The 32-bit pattern of a signed value in `[-2^31, 2^31)`.
pub open spec fn bits32(off: int) -> u32
    recommends
        -0x8000_0000 <= off < 0x8000_0000,
{
    if off >= 0 {
        off as u32
    } else {
        (off + 0x1_0000_0000) as u32
    }
}

/// Reading a stored pattern back gives the signed value it was made from.
pub proof fn lemma_signed_roundtrip(off: int)
    requires
        -0x8000_0000 <= off < 0x8000_0000,
    ensures
        signed32(bits32(off)) == off,
{
}

/// Taking the pattern of the value a pattern stands for changes nothing.
pub proof fn lemma_bits_of_signed(u: u32)
    ensures
        bits32(signed32(u)) == u,
{
}

/// Appends the four little-endian bytes of `v` to `buf`.
pub fn write_u32_le(buf: &mut Vec<u8>, v: u32)
    ensures
        final(buf)@ == old(buf)@ + le_bytes(v),
{
    buf.push((v & 0xff) as u8);
    buf.push(((v >> 8) & 0xff) as u8);
    buf.push(((v >> 16) & 0xff) as u8);
    buf.push(((v >> 24) & 0xff) as u8);
    proof {
        assert(buf@ =~= old(buf)@ + le_bytes(v));
    }
}

/// Reads the 32-bit unsigned value stored at `pos` in `buf`.
pub fn read_u32_le(buf: &Vec<u8>, pos: usize) -> (r: u32)
    requires
        pos + 4 <= buf@.len(),
    ensures
        r == u32_at(buf@, pos as int),
{
    let n = buf.len();
    let b0 = buf[pos];
    let b1 = buf[pos + 1];
    let b2 = buf[pos + 2];
    let b3 = buf[pos + 3];
    (b0 as u32) | (((b1 as u32) << 8) | (((b2 as u32) << 16) | ((b3 as u32) << 24)))
}

/// The two's-complement pattern of a signed 32-bit offset.
pub fn offset_bits(off: i32) -> (r: u32)
    ensures
        r == bits32(off as int),
{
    if off >= 0 {
        off as u32
    } else {
        ((off as i64) + 0x1_0000_0000i64) as u32
    }
}

/// The signed 32-bit offset a stored pattern stands for.
pub fn offset_of_bits(u: u32) -> (r: i32)
    ensures
        r as int == signed32(u),
{
    if u < 0x8000_0000 {
        u as i32
    } else {
        ((u as i64) - 0x1_0000_0000i64) as i32
    }
}

} // verus!
