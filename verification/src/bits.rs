//! Little-endian packing, rotation and bit counting on machine words.

use vstd::prelude::*;

verus! {

/// The halfword whose low byte is `lo` and high byte is `hi`.
pub open spec fn le16(lo: u8, hi: u8) -> u16 {
    (lo as int + 256 * (hi as int)) as u16
}

/// The word made of four bytes, least significant first.
pub open spec fn le32(b0: u8, b1: u8, b2: u8, b3: u8) -> u32 {
    (b0 as int + 0x100 * (b1 as int) + 0x10000 * (b2 as int) + 0x1000000 * (b3 as int)) as u32
}

/// Halfword at `off` of a byte sequence, little-endian.
pub open spec fn seq_le16(s: Seq<u8>, off: int) -> u16 {
    le16(s[off], s[off + 1])
}

/// Word at `off` of a byte sequence, little-endian.
pub open spec fn seq_le32(s: Seq<u8>, off: int) -> u32 {
    le32(s[off], s[off + 1], s[off + 2], s[off + 3])
}

pub fn pack16(lo: u8, hi: u8) -> (r: u16)
    ensures
        r == le16(lo, hi),
{
    let r = (lo as u16) | ((hi as u16) << 8);
    proof { crate::bitfacts::lemma_pack(lo, hi, 0, 0); }
    r
}

pub fn pack32(b0: u8, b1: u8, b2: u8, b3: u8) -> (r: u32)
    ensures
        r == le32(b0, b1, b2, b3),
{
    let r = (b0 as u32) | ((b1 as u32) << 8) | ((b2 as u32) << 16) | ((b3 as u32) << 24);
    proof { crate::bitfacts::lemma_pack(b0, b1, b2, b3); }
    r
}

/// Halfword at `off` of a byte vector.
pub fn read_le16(s: &Vec<u8>, off: usize) -> (r: u16)
    requires
        off + 1 < s.len(),
    ensures
        r == seq_le16(s@, off as int),
{
    pack16(s[off], s[off + 1])
}

/// Word at `off` of a byte vector.
pub fn read_le32(s: &Vec<u8>, off: usize) -> (r: u32)
    requires
        off + 3 < s.len(),
    ensures
        r == seq_le32(s@, off as int),
{
    pack32(s[off], s[off + 1], s[off + 2], s[off + 3])
}

/// Byte `i` (0 = least significant) of a word.
pub open spec fn byte_of(v: u32, i: int) -> u8 {
    ((v as int / pow256(i)) % 256) as u8
}

pub open spec fn pow256(i: int) -> int {
    if i <= 0 {
        1
    } else if i == 1 {
        0x100
    } else if i == 2 {
        0x10000
    } else {
        0x1000000
    }
}

pub fn byte_at(v: u32, i: u32) -> (r: u8)
    requires
        i < 4,
    ensures
        r == byte_of(v, i as int),
{
    let r = (v >> (i * 8)) as u8;
    proof { crate::bitfacts::lemma_u32_bytes(v); }
    r
}

/// A word packs back from its four bytes.
pub proof fn lemma_le32_bytes(v: u32)
    ensures
        le32(byte_of(v, 0), byte_of(v, 1), byte_of(v, 2), byte_of(v, 3)) == v,
{
    let b0 = byte_of(v, 0);
    let b1 = byte_of(v, 1);
    let b2 = byte_of(v, 2);
    let b3 = byte_of(v, 3);
    assert(b0 as int + 0x100 * (b1 as int) + 0x10000 * (b2 as int) + 0x1000000 * (b3 as int) == v)
        by (nonlinear_arith)
        requires
            b0 == (v as int / 1) % 256,
            b1 == (v as int / 0x100) % 256,
            b2 == (v as int / 0x10000) % 256,
            b3 == (v as int / 0x1000000) % 256,
            0 <= v < 0x1_0000_0000,
    ;
}

/// Rotation right by `n` modulo 32.
pub open spec fn rotr(v: u32, n: u32) -> u32 {
    let a = n % 32;
    if a == 0 {
        v
    } else {
        ((v >> a) | (v << ((32 - a) as u32))) as u32
    }
}

/// `u32::rotate_right`.
pub fn rotate_right(v: u32, n: u32) -> (r: u32)
    ensures
        r == rotr(v, n),
{
    let a = n % 32;
    if a == 0 {
        v
    } else {
        (v >> a) | (v << (32 - a))
    }
}

/// Number of set bits among the low `n` bits of `v`.
pub open spec fn popcount(v: u32, n: nat) -> nat
    decreases n,
{
    if n == 0 {
        0
    } else {
        popcount(v, (n - 1) as nat) + (if (v >> ((n - 1) as u32)) & 1 == 1 { 1nat } else { 0nat })
    }
}

proof fn lemma_popcount_le(v: u32, n: nat)
    ensures
        popcount(v, n) <= n,
    decreases n,
{
    if n > 0 {
        lemma_popcount_le(v, (n - 1) as nat);
    }
}

/// Number of set bits in a 16-bit register list.
pub fn count_ones16(v: u32) -> (r: u32)
    ensures
        r == popcount(v, 16),
        r <= 16,
{
    let mut r: u32 = 0;
    let mut i: u32 = 0;
    while i < 16
        invariant
            i <= 16,
            r == popcount(v, i as nat),
            r <= i,
        decreases 16 - i,
    {
        proof {
            lemma_popcount_le(v, i as nat);
        }
        if (v >> i) & 1 == 1 {
            r = r + 1;
        }
        i = i + 1;
    }
    r
}

} // verus!
