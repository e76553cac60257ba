//! The CPU-visible memory map: reads and writes of bytes, halfwords and
//! words, with the quirks of each region.

use vstd::prelude::*;
use crate::bitfacts::{lemma_u32_casts, lemma_u16_bytes, lemma_u32_masks, lemma_aligned};
use crate::bits::{le16, le32, seq_le16, pack16, pack32, rotr};
use crate::bus::{Bus, VISIBLE_LINES, IO_SIZE, vram_index, vram_idx};
use crate::cart::{flash_peek, ee_read_value, ee_read_next};
use crate::save::SaveType;
use crate::psg::wave_index;
use crate::io::bus_frame;

verus! {

/// What a read of I/O register byte `off` returns: live display status,
/// timer counters, PSG registers, keypad and interrupt state; other bytes
/// read back as last written, and bytes past the block as 0.
pub open spec fn io_peek(b: Bus, off: u32) -> u8 {
    if off == 0x004 {
        let vb: u8 = if b.vcount >= VISIBLE_LINES && b.vcount != 227 { 1 } else { 0 };
        let hb: u8 = if b.in_hblank { 2 } else { 0 };
        let vc: u8 = if b.vcount == b.io@[5] as u32 { 4 } else { 0 };
        (b.io@[4] & 0xF8) | vb | hb | vc
    } else if off == 0x006 {
        (b.vcount % 256) as u8
    } else if off == 0x007 {
        0
    } else if off == 0x100 || off == 0x104 || off == 0x108 || off == 0x10C {
        (b.timer_counter[(off - 0x100) / 4] % 256) as u8
    } else if off == 0x101 || off == 0x105 || off == 0x109 || off == 0x10D {
        (b.timer_counter[(off - 0x101) / 4] / 256 % 256) as u8
    } else if (0x060 <= off <= 0x081) || (0x090 <= off <= 0x09F) {
        if off == 0x80 {
            (b.psg.cnt_l % 256) as u8
        } else if off == 0x81 {
            (b.psg.cnt_l / 256) as u8
        } else if 0x90 <= off {
            b.psg.wave_ram[wave_index(b.psg.ch3.bank, off)]
        } else {
            0
        }
    } else if off == 0x130 {
        (b.keyinput % 256) as u8
    } else if off == 0x131 {
        ((b.keyinput / 256) % 4) as u8
    } else if off == 0x200 {
        (b.ie % 256) as u8
    } else if off == 0x201 {
        (b.ie / 256) as u8
    } else if off == 0x202 {
        (b.if_ % 256) as u8
    } else if off == 0x203 {
        (b.if_ / 256) as u8
    } else if off == 0x208 {
        if b.ime { 1 } else { 0 }
    } else if off == 0x209 {
        0
    } else if off < IO_SIZE {
        b.io@[off as int]
    } else {
        0
    }
}

/// Whether `addr` reaches the EEPROM's serial port.
pub open spec fn eeprom_port(b: Bus, addr: u32) -> bool {
    addr >> 24 == 0x0D && b.eeprom_at(addr)
}

/// What a side-effect-free byte read at `addr` returns: BIOS, work RAMs,
/// I/O, palette, VRAM and OAM (each mirrored across its region), the ROM
/// (0xFF past its end) in 0x08-0x0D, and the save medium in 0x0E-0x0F
/// (SRAM mirrored every 32KB, flash through its controller, nothing for
/// EEPROM carts). Unmapped addresses read 0.
pub open spec fn peek8(b: Bus, addr: u32) -> u8 {
    let region = addr >> 24;
    if region == 0x00 {
        b.bios@[(addr & 0x3FFF) as int]
    } else if region == 0x02 {
        b.ewram@[(addr & 0x3FFFF) as int]
    } else if region == 0x03 {
        b.iwram@[(addr & 0x7FFF) as int]
    } else if region == 0x04 {
        io_peek(b, addr & 0xFFFFFF)
    } else if region == 0x05 {
        b.palette@[(addr & 0x3FF) as int]
    } else if region == 0x06 {
        b.vram@[vram_index(addr)]
    } else if region == 0x07 {
        b.oam@[(addr & 0x3FF) as int]
    } else if 0x08 <= region <= 0x0D {
        let idx = (addr & 0x01FF_FFFF) as int;
        if idx < b.rom@.len() { b.rom@[idx] } else { 0xFF }
    } else if region == 0x0E || region == 0x0F {
        if b.save_type == SaveType::Sram {
            let i = (addr & 0x7FFF) as int;
            if i < b.save@.len() { b.save@[i] } else { 0xFF }
        } else if b.save_type.is_flash() {
            flash_peek(b, addr)
        } else {
            0xFF  // EEPROM carts leave this region unmapped
        }
    } else {
        0
    }
}

/// The byte a read at `addr` returns. At the EEPROM port, one data bit per
/// halfword, in bit 0 of the low byte.
pub open spec fn read8_value(b: Bus, addr: u32) -> u8 {
    if eeprom_port(b, addr) {
        if addr & 1 == 0 { ee_read_value(b) } else { 0 }
    } else {
        peek8(b, addr)
    }
}

/// The bus after a byte read at `addr`: only a read of the EEPROM port's
/// even byte has an effect, clocking the chip's serial output on.
pub open spec fn read8_next(old: Bus, new: Bus, addr: u32) -> bool {
    if eeprom_port(old, addr) && addr & 1 == 0 {
        ee_read_next(old, new)
    } else {
        new == old
    }
}

/// The halfword a read at `addr` returns: on the SRAM bus the one byte in
/// both halves; at the EEPROM port the chip's next bit; elsewhere the two
/// bytes of the aligned halfword.
pub open spec fn load16(b: Bus, addr: u32) -> u16 {
    if b.on_sram_bus(addr) {
        le16(peek8(b, addr), peek8(b, addr))
    } else if eeprom_port(b, addr) {
        ee_read_value(b) as u16
    } else {
        le16(peek8(b, addr & !1u32), peek8(b, ((addr & !1u32) + 1) as u32))
    }
}

/// The word a read at `addr` returns away from the EEPROM port: on the SRAM
/// bus the one byte in all four lanes; elsewhere the four bytes of the
/// aligned word.
pub open spec fn load32(b: Bus, addr: u32) -> u32 {
    if b.on_sram_bus(addr) {
        (peek8(b, addr) as int * 0x0101_0101) as u32
    } else {
        le32(peek8(b, addr & !3u32), peek8(b, ((addr & !3u32) + 1) as u32),
            peek8(b, ((addr & !3u32) + 2) as u32), peek8(b, ((addr & !3u32) + 3) as u32))
    }
}

/// The bus after a halfword read: only at the EEPROM port does it change,
/// clocking the chip's serial output on.
pub open spec fn read16_next(old: Bus, new: Bus, addr: u32) -> bool {
    if !old.on_sram_bus(addr) && eeprom_port(old, addr) { ee_read_next(old, new) } else { new == old }
}

/// A word read at the EEPROM port: its even halfwords each clock the
/// chip's next bit out (into bits 0 and 16), its odd bytes read 0.
#[verifier::opaque]
pub open spec fn port_word_read(old: Bus, new: Bus, r: u32) -> bool {
    exists|mid: Bus| #[trigger] ee_read_next(old, mid) && ee_read_next(mid, new)
        && r == le32(ee_read_value(old), 0, ee_read_value(mid), 0)
}

/// A word load as LDR does it, from bus `old` leaving `new`, giving `v`:
/// away from the EEPROM port the word at `addr` rotated right by the
/// address's byte offset, the bus unchanged; at the port the word the chip
/// clocks out (see [`port_word_read`]), rotated the same way.
#[verifier::opaque]
pub open spec fn ldr_word(old: Bus, new: Bus, addr: u32, v: u32) -> bool {
    if eeprom_port(old, addr) {
        exists|w: u32| #[trigger] port_word_read(old, new, w) && v == rotr(w, ((addr & 3) * 8) as u32)
    } else {
        new == old && v == rotr(load32(old, addr), ((addr & 3) * 8) as u32)
    }
}

/// A read changes at most the EEPROM's serial output state.
pub open spec fn read_frame(old: Bus, new: Bus) -> bool {
    new == (Bus { ee_out: new.ee_out, ee_reading: new.ee_reading, ..old })
}

impl Bus {
    fn io_read(&self, off: u32) -> (r: u8)
        requires
            self.wf(),
        ensures
            r == io_peek(*self, off),
    {
        if off == 0x004 {
            let vb: u8 = if self.vcount >= VISIBLE_LINES && self.vcount != 227 { 1 } else { 0 };
            let hb: u8 = if self.in_hblank { 2 } else { 0 };
            let vc: u8 = if self.vcount == self.io[5] as u32 { 4 } else { 0 };
            (self.io[4] & 0xF8) | vb | hb | vc
        } else if off == 0x006 {
            let v = self.vcount;
            let r = v as u8;
            proof { lemma_u32_casts(v); }
            r
        } else if off == 0x007 {
            0
        } else if off == 0x100 || off == 0x104 || off == 0x108 || off == 0x10C {
            let v = self.timer_counter[((off - 0x100) / 4) as usize];
            let r = v as u8;
            proof { lemma_u32_casts(v); }
            r
        } else if off == 0x101 || off == 0x105 || off == 0x109 || off == 0x10D {
            let v = self.timer_counter[((off - 0x101) / 4) as usize];
            let r = (v >> 8) as u8;
            proof { lemma_u32_casts(v); }
            r
        } else if (0x060 <= off && off <= 0x081) || (0x090 <= off && off <= 0x09F) {
            self.psg.read(off)
        } else if off == 0x130 {
            let v = self.keyinput;
            let r = v as u8;
            proof { lemma_u16_bytes(v); }
            r
        } else if off == 0x131 {
            let v = self.keyinput;
            let r = (v >> 8) as u8 & 3;
            proof { lemma_u16_bytes(v); }
            r
        } else if off == 0x200 {
            let v = self.ie;
            let r = v as u8;
            proof { lemma_u16_bytes(v); }
            r
        } else if off == 0x201 {
            let v = self.ie;
            let r = (v >> 8) as u8;
            proof { lemma_u16_bytes(v); }
            r
        } else if off == 0x202 {
            let v = self.if_;
            let r = v as u8;
            proof { lemma_u16_bytes(v); }
            r
        } else if off == 0x203 {
            let v = self.if_;
            let r = (v >> 8) as u8;
            proof { lemma_u16_bytes(v); }
            r
        } else if off == 0x208 {
            if self.ime { 1 } else { 0 }
        } else if off == 0x209 {
            0
        } else if (off as usize) < self.io.len() {
            self.io[off as usize]
        } else {
            0
        }
    }

    /// Byte read. Takes `&mut self` because reading the EEPROM region clocks
    /// the chip's serial output on, which is a side effect.
    pub fn read8(&mut self, addr: u32) -> (r: u8)
        requires
            old(self).wf(),
        ensures
            final(self).wf(),
            r == read8_value(*old(self), addr),
            read8_next(*old(self), *final(self), addr),
            bus_frame(*old(self), *final(self)),
            read_frame(*old(self), *final(self)),
    {
        let region = addr >> 24;
        proof { lemma_u32_masks(addr); }
        if region == 0x00 {
            self.bios[(addr & 0x3FFF) as usize]
        } else if region == 0x02 {
            self.ewram[(addr & 0x3FFFF) as usize]
        } else if region == 0x03 {
            self.iwram[(addr & 0x7FFF) as usize]
        } else if region == 0x04 {
            self.io_read(addr & 0xFFFFFF)
        } else if region == 0x05 {
            self.palette[(addr & 0x3FF) as usize]
        } else if region == 0x06 {
            self.vram[vram_idx(addr)]
        } else if region == 0x07 {
            self.oam[(addr & 0x3FF) as usize]
        } else if region == 0x0D && self.eeprom_selected(addr) {
            // One data bit per halfword, in bit 0 of the low byte.
            if addr & 1 == 0 {
                self.eeprom_read_bit()
            } else {
                0
            }
        } else if 0x08 <= region && region <= 0x0D {
            let idx = (addr & 0x01FF_FFFF) as usize;
            if idx < self.rom.len() { self.rom[idx] } else { 0xFF }
        } else if region == 0x0E || region == 0x0F {
            if self.save_type == SaveType::Sram {
                let i = (addr & 0x7FFF) as usize;
                if i < self.save.len() { self.save[i] } else { 0xFF }
            } else if self.save_type.is_flash() {
                self.flash_read(addr)
            } else {
                0xFF  // EEPROM carts leave this region unmapped
            }
        } else {
            0
        }
    }

    /// True when this address sits on the cartridge's 8-bit SRAM bus, where a
    /// wider access sees one byte replicated instead of consecutive bytes.
    pub open spec fn on_sram_bus(self, addr: u32) -> bool {
        self.save_type == SaveType::Sram && (addr >> 24 == 0x0E || addr >> 24 == 0x0F)
    }

    fn sram_bus(&self, addr: u32) -> (r: bool)
        ensures
            r == self.on_sram_bus(addr),
    {
        self.save_type == SaveType::Sram && (addr >> 24 == 0x0E || addr >> 24 == 0x0F)
    }
}

/// Aligned halfword and word addresses stay in the region of their first
/// byte, and at the EEPROM port exactly when it does.
proof fn lemma_aligned_same_region(b: Bus, a: u32, a1: u32, k: u32)
    requires
        k < 4,
        a1 == a + k,
        a % 4 == 0 || (k < 2 && a % 2 == 0),
    ensures
        a1 >> 24 == a >> 24,
        a1 & 0x00FF_FF00 == a & 0x00FF_FF00,
        (a1 & 1 == 0) == (k % 2 == 0),
        eeprom_port(b, a1) == eeprom_port(b, a),
{
    lemma_aligned(a, a1, k);
}

impl Bus {
    /// Halfword read (little-endian, address rounded down to even). On the
    /// SRAM bus one byte is seen in both halves; at the EEPROM port the
    /// chip's next bit comes back in bit 0.
    pub fn read16(&mut self, addr: u32) -> (r: u16)
        requires
            old(self).wf(),
        ensures
            final(self).wf(),
            old(self).on_sram_bus(addr) ==> *final(self) == *old(self)
                && r == le16(peek8(*old(self), addr), peek8(*old(self), addr)),
            !old(self).on_sram_bus(addr) && !eeprom_port(*old(self), addr) ==> *final(self) == *old(self)
                && r == le16(peek8(*old(self), addr & !1u32), peek8(*old(self), ((addr & !1u32) + 1) as u32)),
            eeprom_port(*old(self), addr) ==> r == ee_read_value(*old(self)) as u16
                && ee_read_next(*old(self), *final(self)),
            bus_frame(*old(self), *final(self)),
            r == load16(*old(self), addr),
            read16_next(*old(self), *final(self), addr),
            read_frame(*old(self), *final(self)),
    {
        if self.sram_bus(addr) {
            let b = self.read8(addr);
            return pack16(b, b);
        }
        let a = addr & !1;
        proof { lemma_u32_masks(addr); }
        proof { lemma_aligned_same_region(*self, a, (a + 1) as u32, 1); }
        let ghost b0 = *self;
        let lo = self.read8(a);
        let ghost b1 = *self;
        let hi = self.read8(a + 1);
        proof {
            if eeprom_port(b0, addr) {
                assert(b1.save_type == b0.save_type && b1.rom == b0.rom);
                assert(eeprom_port(b1, (a + 1) as u32));
            }
        }
        pack16(lo, hi)
    }

    /// Word read (little-endian, address rounded down to a multiple of 4);
    /// on the SRAM bus one byte is seen in all four lanes.
    #[verifier::spinoff_prover]
    #[verifier::rlimit(60)]
    pub fn read32(&mut self, addr: u32) -> (r: u32)
        requires
            old(self).wf(),
        ensures
            final(self).wf(),
            old(self).on_sram_bus(addr) ==> *final(self) == *old(self)
                && r == peek8(*old(self), addr) as int * 0x0101_0101,
            !old(self).on_sram_bus(addr) && !eeprom_port(*old(self), addr) ==> *final(self) == *old(self)
                && r == le32(peek8(*old(self), addr & !3u32), peek8(*old(self), ((addr & !3u32) + 1) as u32),
                    peek8(*old(self), ((addr & !3u32) + 2) as u32), peek8(*old(self), ((addr & !3u32) + 3) as u32)),
            bus_frame(*old(self), *final(self)),
            !eeprom_port(*old(self), addr) ==> r == load32(*old(self), addr) && *final(self) == *old(self),
            eeprom_port(*old(self), addr) ==> port_word_read(*old(self), *final(self), r),
            read_frame(*old(self), *final(self)),
    {
        if self.sram_bus(addr) {
            let b = self.read8(addr) as u32;
            return b * 0x0101_0101;
        }
        let a = addr & !3;
        proof { lemma_u32_masks(addr); }
        proof {
            lemma_aligned_same_region(*self, a, (a + 1) as u32, 1);
            lemma_aligned_same_region(*self, a, (a + 2) as u32, 2);
            lemma_aligned_same_region(*self, a, (a + 3) as u32, 3);
        }
        proof {
            lemma_u32_masks(a);
            assert(eeprom_port(*self, a) == eeprom_port(*self, addr));
        }
        let ghost s0 = *self;
        let b0 = self.read8(a);
        let ghost s1 = *self;
        let b1 = self.read8(a + 1);
        let ghost s2 = *self;
        let b2 = self.read8(a + 2);
        let ghost s3 = *self;
        let b3 = self.read8(a + 3);
        proof {
            if eeprom_port(s0, addr) {
                assert(ee_read_next(s0, s1));
                assert(s2 == s1);
                assert(eeprom_port(s2, (a + 2) as u32));
                assert(ee_read_next(s1, s3));
                reveal(port_word_read);
            }
        }
        pack32(b0, b1, b2, b3)
    }
}

} // verus!
