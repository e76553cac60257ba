//! Properties of the machine that span more than one operation: what a
//! read gives back of a write, the save media's guarantees, and the
//! arithmetic identities of the CPU and the BIOS.

use vstd::prelude::*;
use crate::bitfacts::{lemma_u32_masks, lemma_and_not, lemma_nzcv, lemma_aligned};
use crate::bits::{le32, byte_of};
use crate::store::{byte_stored, byte_written, wrote32};
use crate::alu::{add_carry, add_result, add_flags, flag, FLAG_C, FLAG_Z, with_flag, with_nz, bit};
use crate::bus::{Bus, EWRAM_SIZE, IWRAM_SIZE};
use crate::cart::{bits_value, ee_block_offset, ee_store, ee_read_value, flash_offset_of, flash_written, ee_bit_written};
use crate::mem::{peek8, read8_value, eeprom_port, load32};
use crate::save::SaveType;
use crate::store::stored8;
use crate::swi::{abs, trunc_div, trunc_rem};
use crate::ppu::{pal16_color, pal256_color, tile_color, rgb};
use crate::swi::unpack_field;
use crate::thumb::thumb_alu;
use crate::timers::{increments, frac_after, timer_cnt, cascades};
use crate::psg::{Wave, duty_level};

verus! {

/// Work RAM keeps what is written to it: a byte stored into EWRAM or IWRAM
/// reads back at that address (and at every mirror of it), and no other
/// byte of the memory map changes.
pub proof fn law_work_ram_read_after_write(old: Bus, new: Bus, addr: u32, val: u8, other: u32)
    requires
        old.wf(),
        addr >> 24 == 0x02 || addr >> 24 == 0x03,
        stored8(old, new, addr, val),
    ensures
        read8_value(new, addr) == val,
        (other >> 24 == addr >> 24) && (if addr >> 24 == 0x02 { other & 0x3FFFF == addr & 0x3FFFF }
            else { other & 0x7FFF == addr & 0x7FFF }) ==> read8_value(new, other) == val,
        !((other >> 24 == addr >> 24) && (if addr >> 24 == 0x02 { other & 0x3FFFF == addr & 0x3FFFF }
            else { other & 0x7FFF == addr & 0x7FFF })) ==> read8_value(new, other) == read8_value(old, other),
{
    lemma_u32_masks(addr);
    lemma_u32_masks(other);
    assert(!eeprom_port(old, addr) && !eeprom_port(new, addr));
    assert(eeprom_port(new, other) == eeprom_port(old, other));
}

/// A word written to work RAM reads back whole: after a word write (see
/// `Bus::write32`), a word read at the same address (see `Bus::read32`)
/// gives the word that was written.
pub proof fn law_work_ram_word_round_trip(old: Bus, new: Bus, addr: u32, val: u32)
    requires
        old.wf(),
        addr >> 24 == 0x02 || addr >> 24 == 0x03,
        wrote32(old, new, addr, val),
    ensures
        !eeprom_port(new, addr),
        load32(new, addr) == val,
{
    reveal(wrote32);
    let (m1, m2, m3) = choose|m1: Bus, m2: Bus, m3: Bus|
        #![trigger byte_written(old, m1, addr & !3u32, byte_of(val, 0)), byte_written(m2, m3, ((addr & !3u32) + 2) as u32, byte_of(val, 2))]
        byte_written(old, m1, addr & !3u32, byte_of(val, 0))
        && byte_written(m1, m2, ((addr & !3u32) + 1) as u32, byte_of(val, 1))
        && byte_written(m2, m3, ((addr & !3u32) + 2) as u32, byte_of(val, 2))
        && byte_written(m3, new, ((addr & !3u32) + 3) as u32, byte_of(val, 3));
    let a = addr & !3u32;
    lemma_u32_masks(addr);
    lemma_u32_masks(a);
    let a1 = (a + 1) as u32;
    let a2 = (a + 2) as u32;
    let a3 = (a + 3) as u32;
    lemma_aligned(a, a, 0);
    lemma_aligned(a, a1, 1);
    lemma_aligned(a, a2, 2);
    lemma_aligned(a, a3, 3);
    assert(a % 4 == 0 && a <= 0xFFFF_FFFC && a >> 24 == addr >> 24);
    assert(a1 == a + 1 && a2 == a + 2 && a3 == a + 3);
    let (b0, b1, b2, b3) = (byte_of(val, 0), byte_of(val, 1), byte_of(val, 2), byte_of(val, 3));
    if addr >> 24 == 0x02 {
        let i = (a & 0x3FFFF) as int;
        assert(i + 3 < 0x40000) by {
            lemma_u32_masks(a3);
        }
        assert(new.ewram@ == old.ewram@.update(i, b0).update(i + 1, b1).update(i + 2, b2).update(i + 3, b3));
        assert(peek8(new, a) == b0 && peek8(new, a1) == b1 && peek8(new, a2) == b2 && peek8(new, a3) == b3);
    } else {
        let i = (a & 0x7FFF) as int;
        assert(i + 3 < 0x8000) by {
            lemma_u32_masks(a3);
        }
        assert(new.iwram@ == old.iwram@.update(i, b0).update(i + 1, b1).update(i + 2, b2).update(i + 3, b3));
        assert(peek8(new, a) == b0 && peek8(new, a1) == b1 && peek8(new, a2) == b2 && peek8(new, a3) == b3);
    }
    crate::bits::lemma_le32_bytes(val);
}

/// Battery SRAM is 32KB mirrored across the whole 0x0E/0x0F region: two
/// addresses with the same low 15 bits read the same byte.
pub proof fn law_sram_mirrors(b: Bus, a1: u32, a2: u32)
    requires
        b.wf(),
        b.save_type == SaveType::Sram,
        a1 >> 24 == 0x0E || a1 >> 24 == 0x0F,
        a2 >> 24 == 0x0E || a2 >> 24 == 0x0F,
        a1 & 0x7FFF == a2 & 0x7FFF,
    ensures
        peek8(b, a1) == peek8(b, a2),
{
}

/// Flash programming can only clear bits: a programmed byte becomes the
/// old byte AND the value written, so no bit that was 0 becomes 1.
pub proof fn law_flash_program_clears_bits(old: Bus, new: Bus, addr: u32, val: u8)
    requires
        old.wf(),
        old.save_type.is_flash(),
        addr >> 24 == 0x0E || addr >> 24 == 0x0F,
        old.flash_write_byte,
        stored8(old, new, addr, val),
    ensures
        ({
            let off = flash_offset_of(old, (addr & 0xFFFF) as int);
            &&& 0 <= off < old.save@.len()
            &&& new.save@ == old.save@.update(off, old.save@[off] & val)
            &&& new.save@[off] & !old.save@[off] == 0
            &&& new.save_dirty
        }),
{
    reveal(flash_written);
    let off = flash_offset_of(old, (addr & 0xFFFF) as int);
    assert(!eeprom_port(old, addr));
    let len = old.save@.len() as int;
    assert(len > 0);
    assert(0 <= off < len) by {
        let a = (addr & 0xFFFF) as int;
        assert(0 <= a < 0x10000) by { lemma_u32_masks(addr); }
        vstd::arithmetic::div_mod::lemma_mod_bound(
            (if old.save_type == SaveType::Flash128 { old.flash_bank * 0x10000 + a } else { a % 0x10000 }), len);
    }
    let (x, y) = (old.save@[off], val);
    lemma_and_not(x, y, 0);
}

/// Eight bits, most significant first, make the byte whose bit `7 - j` is
/// the `j`-th of them.
proof fn lemma_byte_bits(s: Seq<u8>, j: int)
    requires
        s.len() == 8,
        forall|i: int| 0 <= i < 8 ==> #[trigger] s[i] <= 1,
        0 <= j < 8,
    ensures
        ((bits_value(s) as u8) >> ((7 - j) as u8)) & 1 == s[j],
{
    reveal_with_fuel(bits_value, 9);
    assert(s.drop_last() =~= s.subrange(0, 7));
    assert(s.subrange(0, 7).drop_last() =~= s.subrange(0, 6));
    assert(s.subrange(0, 6).drop_last() =~= s.subrange(0, 5));
    assert(s.subrange(0, 5).drop_last() =~= s.subrange(0, 4));
    assert(s.subrange(0, 4).drop_last() =~= s.subrange(0, 3));
    assert(s.subrange(0, 3).drop_last() =~= s.subrange(0, 2));
    assert(s.subrange(0, 2).drop_last() =~= s.subrange(0, 1));
    assert(s.subrange(0, 1).drop_last() =~= s.subrange(0, 0));
    let (b0, b1, b2, b3, b4, b5, b6, b7) = (s[0], s[1], s[2], s[3], s[4], s[5], s[6], s[7]);
    let v = bits_value(s);
    assert(v == 128 * b0 + 64 * b1 + 32 * b2 + 16 * b3 + 8 * b4 + 4 * b5 + 2 * b6 + b7);
    let vb = v as u8;
    assert(vb == (128 * b0 + 64 * b1 + 32 * b2 + 16 * b3 + 8 * b4 + 4 * b5 + 2 * b6 + b7) as u8);
    assert(((vb >> 7u8) & 1 == b0) && ((vb >> 6u8) & 1 == b1) && ((vb >> 5u8) & 1 == b2) && ((vb >> 4u8) & 1 == b3)
        && ((vb >> 3u8) & 1 == b4) && ((vb >> 2u8) & 1 == b5) && ((vb >> 1u8) & 1 == b6) && ((vb >> 0u8) & 1 == b7))
        by (bit_vector)
        requires
            b0 <= 1, b1 <= 1, b2 <= 1, b3 <= 1, b4 <= 1, b5 <= 1, b6 <= 1, b7 <= 1,
            vb == (128 * b0 + 64 * b1 + 32 * b2 + 16 * b3 + 8 * b4 + 4 * b5 + 2 * b6 + b7) as u8;
}

/// The EEPROM gives back what was written: after a write command stores a
/// block, a read of the same block clocks out, after the four dummy bits,
/// exactly the 64 data bits of the write, in order.
pub proof fn law_eeprom_read_returns_written(save: Seq<u8>, wbuf: Seq<u8>, n: int, b: Bus, k: int)
    requires
        save.len() == 512 || save.len() == 8192,
        n == 6 || n == 14,
        wbuf.len() == 2 + n + 64,
        forall|i: int| 0 <= i < wbuf.len() ==> #[trigger] wbuf[i] <= 1,
        b.save@ == ee_store(save, wbuf, n),
        b.ee_reading,
        b.ee_read_off == ee_block_offset(save.len(), bits_value(wbuf.subrange(2, 2 + n))),
        b.ee_out == 4 + k,
        0 <= k < 64,
    ensures
        ee_read_value(b) == wbuf[2 + n + k],
{
    reveal(ee_bit_written);
    let off = ee_block_offset(save.len(), bits_value(wbuf.subrange(2, 2 + n))) as int;
    let blocks = save.len() / 8;
    assert(off + 8 <= save.len()) by {
        let block = bits_value(wbuf.subrange(2, 2 + n));
        vstd::arithmetic::div_mod::lemma_mod_bound(block as int, blocks as int);
        assert((block % blocks) * 8 + 8 <= blocks * 8) by (nonlinear_arith)
            requires block % blocks < blocks, blocks > 0;
    }
    let q = k / 8;
    let j = k % 8;
    let idx = b.ee_read_off + q;
    assert(idx == off + q);
    let byte_bits = wbuf.subrange(2 + n + 8 * q, 2 + n + 8 * q + 8);
    assert(b.save@[off + q] == bits_value(byte_bits) as u8);
    assert forall|i: int| 0 <= i < 8 implies #[trigger] byte_bits[i] <= 1 by {
        assert(byte_bits[i] == wbuf[2 + n + 8 * q + i]);
    }
    lemma_byte_bits(byte_bits, j);
    assert(byte_bits[j] == wbuf[2 + n + k]);
    assert((b.ee_out - 4) as u32 == k);
}

/// The BIOS Div results recompose the numerator: quotient times
/// denominator plus remainder gives it back, the remainder is smaller than
/// the denominator in magnitude and never has the opposite sign.
pub proof fn law_div_recomposes(n: int, d: int)
    requires
        d != 0,
    ensures
        trunc_div(n, d) * d + trunc_rem(n, d) == n,
        abs(trunc_rem(n, d)) < abs(d),
        n >= 0 ==> trunc_rem(n, d) >= 0,
        n < 0 ==> trunc_rem(n, d) <= 0,
{
    let (an, ad) = (abs(n), abs(d));
    let q = an / ad;
    let r = an % ad;
    vstd::arithmetic::div_mod::lemma_fundamental_div_mod(an, ad);
    vstd::arithmetic::div_mod::lemma_mod_bound(an, ad);
    if n >= 0 && d > 0 {
    } else if n >= 0 && d < 0 {
        assert(-q * d == q * ad) by (nonlinear_arith) requires ad == -d;
    } else if n < 0 && d > 0 {
        assert(-q * d == -(q * ad)) by (nonlinear_arith) requires ad == d;
    } else {
        assert(q * d == -(q * ad)) by (nonlinear_arith) requires ad == -d;
    }
}

/// A comparison (a subtraction) sets C exactly when no borrow occurs, that
/// is when `a >= b` unsigned, and Z exactly when the operands are equal.
pub proof fn law_compare_flags(cpsr: u32, a: u32, b: u32)
    ensures
        flag(add_flags(cpsr, a, !b, 1), FLAG_C) == (a >= b),
        flag(add_flags(cpsr, a, !b, 1), FLAG_Z) == (a == b),
{
    lemma_and_not(0, 0, b);
    let r = add_result(a, !b, 1);
    assert(r == 0 <==> a == b);
    let c0 = with_nz(cpsr, r);
    let c1 = with_flag(c0, FLAG_C, add_carry(a, !b, 1));
    let v = crate::alu::add_overflow(a, !b, 1);
    let cc = add_carry(a, !b, 1);
    let z = r == 0;
    let nn = bit(r, 31);
    lemma_nzcv(cpsr, nn, z, cc, v);
}

/// A 16-color palette bank is a slice of the 256-color palette: color
/// `idx` of bank `bank` is color `bank * 16 + idx` of the whole palette.
pub proof fn law_pal16_is_pal256_slice(palette: Seq<u8>, bank: u32, idx: u32, obj: bool)
    requires
        bank < 16,
        idx < 16,
    ensures
        pal16_color(palette, bank, idx, obj) == pal256_color(palette, (bank * 16 + idx) as u32, obj),
{
    assert(bank * 32 + idx * 2 == (bank * 16 + idx) * 2);
}


/// A character's pixels in VRAM: at 4 bits per pixel each byte holds two
/// pixels, the even column in its low nibble and the odd column in its high
/// nibble; at 8 bits per pixel each byte is one pixel.
pub proof fn law_tile_pixel_nibbles(vram: Seq<u8>, char_base: int, tile: int, fx: int, fy: int)
    requires
        0 <= char_base,
        0 <= tile,
        0 <= fx < 8,
        0 <= fy < 8,
    ensures
        char_base + tile * 32 + fy * 4 + fx / 2 < 0x10000 && fx % 2 == 0
            ==> tile_color(vram, char_base, tile, fx, fy, false)
                == (vram[char_base + tile * 32 + fy * 4 + fx / 2] & 0xF) as u32,
        char_base + tile * 32 + fy * 4 + fx / 2 < 0x10000 && fx % 2 == 1
            ==> tile_color(vram, char_base, tile, fx, fy, false)
                == (vram[char_base + tile * 32 + fy * 4 + fx / 2] >> 4u8) as u32,
        char_base + tile * 64 + fy * 8 + fx < 0x10000
            ==> tile_color(vram, char_base, tile, fx, fy, true) == vram[char_base + tile * 64 + fy * 8 + fx] as u32,
{
    let off = char_base + tile * 32 + fy * 4 + fx / 2;
    let b: u8 = vram[off];
    assert(b % 16 == b & 0xF && b / 16 == b >> 4u8) by (bit_vector);
}

/// BitUnPack widens each source field: a nonzero field gets the data offset
/// added (wrapping at 32 bits); a zero field gets it only when the zero flag
/// (bit 31 of the offset word) is set, and stays 0 otherwise.
pub proof fn law_unpack_field_offset(byte: u32, bit: u32, mask: u32, off: u32, zero: bool)
    ensures
        (byte >> bit) & mask != 0 ==> unpack_field(byte, bit, mask, off, zero)
            == ((((byte >> bit) & mask) + off) % 0x1_0000_0000) as u32,
        (byte >> bit) & mask == 0 && zero ==> unpack_field(byte, bit, mask, off, zero) == off,
        (byte >> bit) & mask == 0 && !zero ==> unpack_field(byte, bit, mask, off, zero) == 0,
{
}

/// Thumb BIC (format 4, opcode 0xE) clears in Rd exactly the bits set in
/// Rs: the result shares no bit with Rs, and with Rd's bits that Rs does set
/// it makes up Rd again; N and Z come from the result, C and V are kept.
pub proof fn law_thumb_bic(a: u32, b: u32, cpsr: u32)
    ensures
        thumb_alu(0xE, a, b, cpsr).0 is Some,
        thumb_alu(0xE, a, b, cpsr).0.unwrap() & b == 0,
        thumb_alu(0xE, a, b, cpsr).0.unwrap() | (a & b) == a,
        thumb_alu(0xE, a, b, cpsr).1 == with_nz(cpsr, thumb_alu(0xE, a, b, cpsr).0.unwrap()),
{
    let r = a & !b;
    assert(r & b == 0 && r | (a & b) == a) by (bit_vector) requires r == a & !b;
}

/// A running timer that does not cascade counts once per 1, 64, 256 or 1024
/// cycles for prescaler code 0, 1, 2 or 3, the cycles left over carried to
/// the next tick.
pub proof fn law_timer_prescaler(b: Bus, t: int, cycles: u64, carry: bool)
    requires
        0 <= t < 4,
        timer_cnt(b.io@, t) & 0x80 != 0,
        !cascades(timer_cnt(b.io@, t), t),
    ensures
        timer_cnt(b.io@, t) & 3 == 0 ==> increments(b, t, cycles, carry) == b.timer_frac[t] + cycles
            && frac_after(b, t, cycles) == 0,
        timer_cnt(b.io@, t) & 3 == 1 ==> increments(b, t, cycles, carry) == (b.timer_frac[t] + cycles) / 64
            && frac_after(b, t, cycles) == (b.timer_frac[t] + cycles) % 64,
        timer_cnt(b.io@, t) & 3 == 2 ==> increments(b, t, cycles, carry) == (b.timer_frac[t] + cycles) / 256
            && frac_after(b, t, cycles) == (b.timer_frac[t] + cycles) % 256,
        timer_cnt(b.io@, t) & 3 == 3 ==> increments(b, t, cycles, carry) == (b.timer_frac[t] + cycles) / 1024
            && frac_after(b, t, cycles) == (b.timer_frac[t] + cycles) % 1024,
{
}

/// The wave channel's output level: silent unless enabled with its DAC on;
/// then the current 4-bit sample at volume code 1 (100%), half of it at
/// code 2, a quarter at code 3, three quarters with the 75% flag (code 4),
/// and nothing at code 0.
pub proof fn law_wave_volume(w: Wave)
    requires
        w.wf(),
    ensures
        !(w.enabled && w.dac) ==> w.level() == 0,
        w.enabled && w.dac && w.volume_code == 0 ==> w.level() == 0,
        w.enabled && w.dac && w.volume_code == 1 ==> w.level() == w.sample,
        w.enabled && w.dac && w.volume_code == 2 ==> w.level() == w.sample / 2,
        w.enabled && w.dac && w.volume_code == 3 ==> w.level() == w.sample / 4,
        w.enabled && w.dac && w.volume_code == 4 ==> w.level() == w.sample * 3 / 4,
{
    let s = w.sample;
    assert(s >> 1 == s / 2 && s >> 2 == s / 4 && ((s * 3) as u8) >> 2 == (s * 3) / 4) by (bit_vector)
        requires s <= 15;
}


/// What the Thumb format-4 logical operations write to Rd: AND, EOR, ORR
/// and MVN bitwise, with N and Z from the result; TST, CMP and CMN write no
/// register.
pub proof fn law_thumb_logic_results(a: u32, b: u32, cpsr: u32)
    ensures
        thumb_alu(0x0, a, b, cpsr) == (Some(a & b), with_nz(cpsr, a & b)),
        thumb_alu(0x1, a, b, cpsr) == (Some(a ^ b), with_nz(cpsr, a ^ b)),
        thumb_alu(0xC, a, b, cpsr) == (Some(a | b), with_nz(cpsr, a | b)),
        thumb_alu(0xF, a, b, cpsr) == (Some(!b), with_nz(cpsr, !b)),
        thumb_alu(0x8, a, b, cpsr).0 is None,
        thumb_alu(0xA, a, b, cpsr).0 is None,
        thumb_alu(0xB, a, b, cpsr).0 is None,
{
}

/// A BGR555 color widened to 0x00RRGGBB: red from bits 0-4, green from bits
/// 5-9 and blue from bits 10-14, each 5-bit channel shifted to the top of
/// its byte with its own top three bits repeated below.
pub proof fn law_rgb555_channels(c: u16)
    ensures
        rgb(c) >> 16u32 == ((c & 0x1F) as u32) << 3u32 | ((c & 0x1F) as u32) >> 2u32,
        (rgb(c) >> 8u32) & 0xFF == (((c >> 5u16) & 0x1F) as u32) << 3u32 | (((c >> 5u16) & 0x1F) as u32) >> 2u32,
        rgb(c) & 0xFF == (((c >> 10u16) & 0x1F) as u32) << 3u32 | (((c >> 10u16) & 0x1F) as u32) >> 2u32,
{
    let ru = (c & 0x1F) as u32;
    let gu = ((c >> 5u16) & 0x1F) as u32;
    let bu = ((c >> 10u16) & 0x1F) as u32;
    let v = rgb(c);
    assert(v >> 16u32 == ru << 3u32 | ru >> 2u32
        && (v >> 8u32) & 0xFF == gu << 3u32 | gu >> 2u32
        && v & 0xFF == bu << 3u32 | bu >> 2u32) by (bit_vector)
        requires
            ru == (c & 0x1F) as u32,
            gu == ((c >> 5u16) & 0x1F) as u32,
            bu == ((c >> 10u16) & 0x1F) as u32,
            v == (((c as int % 32) * 8 + (c as int % 32) / 4) * 0x10000
                + (((c as int / 32) % 32) * 8 + ((c as int / 32) % 32) / 4) * 0x100
                + (((c as int / 1024) % 32) * 8 + ((c as int / 1024) % 32) / 4)) as u32;
}

/// The square channels' duty cycles over the eight steps: 12.5% (high only
/// at step 7), 25% (steps 0 and 7), 50% (steps 0 and 5 to 7) and 75% (the
/// 25% pattern inverted).
pub proof fn law_square_duty(pos: u8)
    requires
        pos < 8,
    ensures
        (duty_level(0, pos) == 1) == (pos == 7),
        (duty_level(1, pos) == 1) == (pos == 0 || pos == 7),
        (duty_level(2, pos) == 1) == (pos == 0 || pos >= 5),
        duty_level(3, pos) == 1 - duty_level(1, pos),
        duty_level(0, pos) <= 1 && duty_level(1, pos) <= 1 && duty_level(2, pos) <= 1,
{
    assert((((0x80u8 >> pos) & 1) == 1) == (pos == 7) && (0x80u8 >> pos) & 1 <= 1
        && (((0x81u8 >> pos) & 1) == 1) == (pos == 0 || pos == 7) && (0x81u8 >> pos) & 1 <= 1
        && (((0xE1u8 >> pos) & 1) == 1) == (pos == 0 || pos >= 5) && (0xE1u8 >> pos) & 1 <= 1
        && (0x7Eu8 >> pos) & 1 == 1 - ((0x81u8 >> pos) & 1)) by (bit_vector)
        requires
            pos < 8;
}

} // verus!
