//! Facts about bit fields, masks and casts, proved once by bit-blasting and
//! used wherever code takes a word apart.

use vstd::prelude::*;

verus! {

/// Fields of a byte.
pub proof fn lemma_u8_bits(v: u8)
    by (bit_vector)
    ensures
        v & 7 <= 7,
        (v >> 4u8) & 7 <= 7,
        v & 0x3F <= 63,
        v >> 6u8 <= 3,
        (v >> 6u8) & 1 <= 1,
        (v >> 5u8) & 3 <= 3,
        v >> 4u8 <= 15,
        v & 0xF <= 15,
        v & 0x7F <= 0x7F,
        v & 1 <= 1,
        v & 31 <= 31,
        v & 31 == v % 32,
        v & 7 == v % 8,
        v & 1 == v % 2,
        v & 0xF == v % 16,
        v >> 4u8 == v / 16,
        v <= 1 ==> v ^ 1 <= 1,
        v <= 15 ==> v >> 1u8 <= 15 && v >> 2u8 <= 15,
        v <= 45 ==> v >> 2u8 <= 15,
{
}

/// A halfword split into its bytes.
pub proof fn lemma_u16_bytes(v: u16)
    by (bit_vector)
    ensures
        (v as u8) == v % 256,
        ((v >> 8u16) as u8) == v / 256,
        ((v >> 8u16) as u8) & 3 == (v / 256) % 4,
{
}

/// Frequency registers: an 11-bit value rebuilt from its low byte or its
/// top three bits stays 11 bits.
pub proof fn lemma_freq_bits(f: u16, val: u8)
    by (bit_vector)
    ensures
        (f & 0x700) | (val as u16) <= 2047,
        (f & 0xFF) | (((val as u16) & 7) << 8u16) <= 2047,
{
}

/// Masks and shifts of a word.
pub proof fn lemma_u32_masks(x: u32)
    by (bit_vector)
    ensures
        x & 0xF < 16,
        (x >> 8u32) & 0xF < 16,
        (x >> 12u32) & 0xF < 16,
        (x >> 16u32) & 0xF < 16,
        (x >> 21u32) & 0xF < 16,
        (x >> 3u32) & 0xF < 16,
        x & 7 < 8,
        (x >> 3u32) & 7 < 8,
        (x >> 6u32) & 7 < 8,
        (x >> 8u32) & 7 < 8,
        (x >> 5u32) & 3 < 4,
        (x >> 7u32) & 0x1F < 32,
        (x >> 6u32) & 0x1F < 32,
        x & 0xFF < 256,
        x & 0xFFF < 4096,
        x & 0x1F < 32,
        x & 0x7F <= 0x7F,
        x & 1 < 4,
        x & 3 < 4,
        (x & 1) * 8 < 32,
        (x & 3) * 8 < 32,
        x & 0x3FF < 0x400,
        x & 0x3FE < 0x3FF,
        x & 0x3FFF < 0x4000,
        x & 0x7FFF < 0x8000,
        x & 0xFFFF < 0x10000,
        x & 0x1FFFF < 0x20000,
        x & 0x3FFFF < 0x40000,
        x & 0x1F_FFFF <= 0x1F_FFFF,
        x & 0x1FF <= 0x1FF,
        x & 0x3FF <= 0x3FF,
        x & 0x3FF == x % 0x400,
        x & 0xFFFF == x % 0x10000,
        x & 1 == x % 2,
        (x >> 2u32) & 3 <= 3,
        (x >> 8u32) & 0x1F <= 31,
        (x >> 9u32) & 0x1F < 32,
        (x >> 10u32) & 3 <= 3,
        (x >> 14u32) & 3 <= 3,
        x >> 8u32 < 0x100_0000,
        x & !1u32 <= 0xFFFF_FFFE,
        x & !3u32 <= 0xFFFF_FFFC,
        ((x & !1u32) & 0x1FFFF) % 2 == 0,
        (x & 0x7FF) << 1u32 <= 0xFFE,
        x & 0x1800 == 0 || x & 0x1800 == 0x800 || x & 0x1800 == 0x1000 || x & 0x1800 == 0x1800,
        ((x & 0xFF) >= 0x80) == (x & 0x80 != 0),
        (x & 7) | ((x >> 4u32) & 8) < 16,
        x & !1u32 & !0u32 == x & !1u32,
        (x & !1u32) % 2 == 0,
        (x & !1u32) & 1 == 0,
        (x & !1u32) >> 24u32 == x >> 24u32,
        (x & !1u32) & 0x00FF_FF00 == x & 0x00FF_FF00,
        (x & !3u32) % 4 == 0,
        (x & !3u32) >> 24u32 == x >> 24u32,
        (x & !3u32) & 0x00FF_FF00 == x & 0x00FF_FF00,
        x & !1u32 & !3u32 == x & !3u32,
        x < 0x10000 ==> x >> 12u32 < 16,
        x <= 0xFFFF ==> x >> 13u32 < 8,
        x <= 255 ==> x >> 4u32 <= 15 && x & 0xF <= 15,
{
}

/// A word's low byte, and a halfword's fields.
pub proof fn lemma_u32_casts(v: u32)
    by (bit_vector)
    ensures
        (v as u8) == v % 256,
        ((v >> 8u32) as u8) == (v / 256) % 256,
        ((v >> 8u32) as u8) & 3 == (v / 256) % 4,
        v < 0x10000 ==> ((v >> 8u32) as u8) == v / 256,
        (v as u16) == v % 0x10000,
{
}

/// The bytes of a word, least significant first.
pub proof fn lemma_u32_bytes(v: u32)
    by (bit_vector)
    ensures
        (v >> 0u32) as u8 == (v / 1) % 256,
        (v >> 8u32) as u8 == (v / 0x100) % 256,
        (v >> 16u32) as u8 == (v / 0x10000) % 256,
        (v >> 24u32) as u8 == (v / 0x1000000) % 256,
{
}

/// Shifts in the PSG: a duty bit, the sweep step, the noise period.
pub proof fn lemma_psg_shifts(row: u8, pos: u8, sh: u16, k: u8, d: u32, s: u32)
    by (bit_vector)
    ensures
        (row >> pos) & 1 <= 1,
        sh >> k <= sh,
        8 <= d <= 112 && s <= 15 ==> 8 <= d << s <= 112 * 0x8000,
{
}

/// Wrapping a texture coordinate by a power-of-two mask, and scaling an
/// affine product down by 256.
pub proof fn lemma_i32_bits(sx: i32, m: i32, ux: i32)
    ensures
        0 <= m ==> 0 <= sx & m <= m,
        -0x0100_0000 <= ux <= 0x0100_0000 ==> -0x10000 <= ux >> 8 <= 0x10000,
{
    let w = sx & m;
    let q = ux >> 8;
    assert((0 <= m ==> 0 <= w <= m) && (-0x0100_0000 <= ux <= 0x0100_0000 ==> -0x10000 <= q <= 0x10000)) by (bit_vector)
        requires w == sx & m, q == ux >> 8;
}

/// The bytes of an aligned halfword or word share its region and its EEPROM
/// window, and alternate between even and odd addresses.
pub proof fn lemma_aligned(a: u32, a1: u32, k: u32)
    by (bit_vector)
    ensures
        k < 4 && a1 == a + k && (a % 4 == 0 || (k < 2 && a % 2 == 0)) ==> {
            &&& a1 >> 24u32 == a >> 24u32
            &&& a1 & 0x00FF_FF00 == a & 0x00FF_FF00
            &&& (a1 & 1 == 0) == (k % 2 == 0)
            &&& a1 & 0x3FFFF == (a & 0x3FFFF) + k
            &&& a1 & 0x7FFF == (a & 0x7FFF) + k
        },
{
}

/// Bounds in the BIOS memory calls: a fast-set count rounded up to eight
/// words, a bit-unpack mask, and an LZ77 back reference.
pub proof fn lemma_swi_bits(c21: u32, src_w: u32, b0: u32, b1: u32)
    by (bit_vector)
    ensures
        c21 <= 0x1F_FFFF ==> (((c21 + 7) as u32) & !7u32) <= 0x20_0000,
        c21 <= 0x1F_FFFF ==> (((c21 + 7) as u32) & !7u32) == (c21 + 7) / 8 * 8,
        src_w < 32 ==> 1u32 << src_w >= 1,
        b0 <= 255 && b1 <= 255 ==> b0 >> 4u32 <= 15 && ((b0 & 0xF) << 8u32 | b1) <= 0xFFF,
{
}

/// Consecutive addresses in a work RAM stay in its region, at consecutive
/// offsets, while they do not run past its end.
pub proof fn lemma_ram_offset(dst: u32, i: u32)
    by (bit_vector)
    ensures
        dst >> 24u32 == 2 && (dst & 0x3FFFF) + i < 0x40000 ==> ((dst + i) as u32) & 0x3FFFF == (dst & 0x3FFFF) + i
            && ((dst + i) as u32) >> 24u32 == 2 && dst + i < 0x1_0000_0000,
        dst >> 24u32 == 3 && (dst & 0x7FFF) + i < 0x8000 ==> ((dst + i) as u32) & 0x7FFF == (dst & 0x7FFF) + i
            && ((dst + i) as u32) >> 24u32 == 3 && dst + i < 0x1_0000_0000,
        dst >> 24u32 == 6 && (dst & 0x1FFFF) + i < 0x18000 ==> ((dst + i) as u32) & 0x1FFFF == (dst & 0x1FFFF) + i
            && ((dst + i) as u32) >> 24u32 == 6 && dst + i < 0x1_0000_0000,
{
}

/// A flash address within a bank, and the start of its 4KB sector.
pub proof fn lemma_flash_addr(a: usize)
    by (bit_vector)
    ensures
        a & 0xFFFF == a % 0x10000,
        a <= 0xFFFF ==> (a & 0xF000) == (a / 0x1000) * 0x1000 && a & 0xF000 <= 0xFFFF,
{
}

/// Setting the mode bits (and the I flag) of a CPSR.
pub proof fn lemma_mode_set(cpsr: u32, mode: u32)
    by (bit_vector)
    requires
        mode < 0x20,
    ensures
        ((cpsr & !0x3Fu32) | mode | 0x80) & 0x1F == mode,
{
}

/// Two processor modes that differ only above bit 4 with equal low bits
/// are the same mode when both are valid.
pub proof fn lemma_same_mode(old_mode: u32, new_mode: u32)
    by (bit_vector)
    ensures
        (old_mode == 0x10 || old_mode == 0x11 || old_mode == 0x12 || old_mode == 0x13 || old_mode == 0x17
            || old_mode == 0x1B || old_mode == 0x1F)
        && (new_mode == 0x10 || new_mode == 0x11 || new_mode == 0x12 || new_mode == 0x13 || new_mode == 0x17
            || new_mode == 0x1B || new_mode == 0x1F)
        && ((old_mode | new_mode) & !0xFu32) == 0x10 && (old_mode & 0xF) == (new_mode & 0xF)
        ==> old_mode == new_mode,
{
}

/// Two words joined into a doubleword.
pub proof fn lemma_u64_join(h: u32, l: u32)
    by (bit_vector)
    ensures
        ((h as u64) << 32u64) | (l as u64) == h as int * 0x1_0000_0000 + l as int,
{
}

/// Register lists: the list field of an instruction, its r15 bit, and an
/// empty list.
pub proof fn lemma_list_bits(list: u32, op: u32)
    by (bit_vector)
    ensures
        (op & 0xFFFF) & 0xFFFF == op & 0xFFFF,
        ((op & 0xFFFF) & 0x8000 != 0) == (op & 0x8000 != 0),
        ((list >> 15u32) & 1 != 0) == (list & 0x8000 != 0),
        (op & 0xFF) != 0 ==> (op & 0xFF) & 0xFFFF != 0 && (op & 0xFF) & 0xFF == op & 0xFF,
        (list >> 0u32) & 1 == 0 && (list >> 1u32) & 1 == 0 && (list >> 2u32) & 1 == 0 && (list >> 3u32) & 1 == 0
            && (list >> 4u32) & 1 == 0 && (list >> 5u32) & 1 == 0 && (list >> 6u32) & 1 == 0 && (list >> 7u32) & 1 == 0
            && (list >> 8u32) & 1 == 0 && (list >> 9u32) & 1 == 0 && (list >> 10u32) & 1 == 0 && (list >> 11u32) & 1 == 0
            && (list >> 12u32) & 1 == 0 && (list >> 13u32) & 1 == 0 && (list >> 14u32) & 1 == 0 && (list >> 15u32) & 1 == 0
            ==> list & 0xFFFF == 0,
{
}

/// Packing bytes into halfwords and words.
pub proof fn lemma_pack(b0: u8, b1: u8, b2: u8, b3: u8)
    by (bit_vector)
    ensures
        (b0 as u16) | ((b1 as u16) << 8u16) == b0 + 256 * b1,
        (b0 as u32) | ((b1 as u32) << 8u32) | ((b2 as u32) << 16u32) | ((b3 as u32) << 24u32)
            == b0 + 0x100 * b1 + 0x10000 * b2 + 0x1000000 * b3,
{
}

/// Sign extensions of words and halfwords.
pub proof fn lemma_sign_casts(v: u32)
    by (bit_vector)
    ensures
        -0x0800_0000 <= ((v << 4u32) as i32) >> 4u32 < 0x0800_0000,
        v < 0x10000 ==> (v as u16 as i16 as i32) == (if v >= 0x8000 { v - 0x10000 } else { v as int }),
        (v as i32 as i64) == (if v >= 0x8000_0000 { v - 0x1_0000_0000 } else { v as int }),
{
}

/// A 64-bit signed value reinterpreted as unsigned is its residue modulo 2^64.
pub proof fn lemma_i64_as_u64(q: i64)
    by (bit_vector)
    ensures
        (q as u64) as int == (q as int) % 0x1_0000_0000_0000_0000,
{
}

/// Interrupt flags: OR-ing bits in keeps every bit already set, and bits
/// kept along a chain of states stay kept.
pub proof fn lemma_irq_bits(x: u16, y: u16, o: u16, b: u16)
    by (bit_vector)
    ensures
        x & x == x,
        x & o == o ==> (x | b) & o == o,
        (x | b) & b == b,
        b != 0 ==> (x | b) & b != 0,
        y & x == x && x & o == o ==> y & o == o,
        y & x == x && x & b != 0 ==> y & b != 0,
{
}

/// Interrupt bits of the timers and DMA channels are nonzero.
pub proof fn lemma_irq_shift(k: u16)
    by (bit_vector)
    ensures
        k < 4 ==> (0x100u16 << k) != 0 && (8u16 << k) != 0,
{
}

/// The flag bits of a status word after setting N, Z, C, V in turn.
pub proof fn lemma_nzcv(c: u32, n: bool, z: bool, cy: bool, v: bool)
    by (bit_vector)
    ensures
        ({
            let c1 = if n { c | 0x8000_0000 } else { c & !0x8000_0000u32 };
            let c2 = if z { c1 | 0x4000_0000 } else { c1 & !0x4000_0000u32 };
            let c3 = if cy { c2 | 0x2000_0000 } else { c2 & !0x2000_0000u32 };
            let c4 = if v { c3 | 0x1000_0000 } else { c3 & !0x1000_0000u32 };
            &&& (c4 & 0x2000_0000 != 0) == cy
            &&& (c4 & 0x4000_0000 != 0) == z
        }),
        (c | 0x20) & 0x20 != 0,
        (c | 0x20) & 0x1F == c & 0x1F,
        (c & !0x20u32) & 0x20 == 0,
        (c & !0x20u32) & 0x1F == c & 0x1F,
        ((c & !0x3Fu32) | 0x12u32 | 0x80u32) & 0x1F == 0x12u32,
{
}

/// Setting or clearing one of the four condition flags leaves the mode and
/// the Thumb bit.
pub proof fn lemma_high_flags(c: u32)
    by (bit_vector)
    ensures
        (c | 0x8000_0000) & 0x3F == c & 0x3F && (c & !0x8000_0000u32) & 0x3F == c & 0x3F,
        (c | 0x4000_0000) & 0x3F == c & 0x3F && (c & !0x4000_0000u32) & 0x3F == c & 0x3F,
        (c | 0x2000_0000) & 0x3F == c & 0x3F && (c & !0x2000_0000u32) & 0x3F == c & 0x3F,
        (c | 0x1000_0000) & 0x3F == c & 0x3F && (c & !0x1000_0000u32) & 0x3F == c & 0x3F,
{
}

/// Byte values: AND never sets a bit, and complement is subtraction from all ones.
pub proof fn lemma_and_not(x: u8, y: u8, b: u32)
    by (bit_vector)
    ensures
        (x & y) & !x == 0,
        !b == 0xFFFF_FFFF - b,
{
}

} // verus!
