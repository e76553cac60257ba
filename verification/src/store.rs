//! The write side of the memory map. A DMA transfer is itself a sequence of
//! bus writes, and a bus write to a DMA control register starts transfers,
//! so writes and immediate DMA are one recursion; `depth` bounds how deeply
//! transfers may start further transfers.

use vstd::prelude::*;
use crate::bitfacts::lemma_u32_masks;
use crate::bits::{le16, le32, seq_le16, pack16, byte_at, byte_of};
use crate::bus::{Bus, IO_SIZE, IRQ_DMA0, DMA_NESTING, vram_index, vram_idx};
use crate::cart::{ee_bit_written, flash_written};
use crate::io::{bus_frame, io_written, starts_dma};
use crate::dma::{dma_start_steps, dma_kicked};
use crate::mem::eeprom_port;
use crate::save::SaveType;

verus! {

/// The bus after byte `val` is stored at `addr` outside the I/O block:
/// RAM regions take the byte (mirrored), the EEPROM port takes a command
/// bit from each even byte, battery SRAM takes it (and is marked dirty when
/// it changes), flash goes through its command protocol, and the BIOS, ROM
/// and unmapped space ignore it.
pub open spec fn stored8(old: Bus, new: Bus, addr: u32, val: u8) -> bool {
    let region = addr >> 24;
    if region == 0x02 {
        &&& new == (Bus { ewram: new.ewram, ..old })
        &&& new.ewram@ == old.ewram@.update((addr & 0x3FFFF) as int, val)
    } else if region == 0x03 {
        &&& new == (Bus { iwram: new.iwram, ..old })
        &&& new.iwram@ == old.iwram@.update((addr & 0x7FFF) as int, val)
    } else if region == 0x05 {
        &&& new == (Bus { palette: new.palette, ..old })
        &&& new.palette@ == old.palette@.update((addr & 0x3FF) as int, val)
    } else if region == 0x06 {
        &&& new == (Bus { vram: new.vram, ..old })
        &&& new.vram@ == old.vram@.update(vram_index(addr), val)
    } else if region == 0x07 {
        &&& new == (Bus { oam: new.oam, ..old })
        &&& new.oam@ == old.oam@.update((addr & 0x3FF) as int, val)
    } else if eeprom_port(old, addr) {
        if addr & 1 == 0 { ee_bit_written(old, new, val) } else { new == old }
    } else if region == 0x0E || region == 0x0F {
        if old.save_type == SaveType::Sram {
            let i = (addr & 0x7FFF) as int;
            &&& new == (Bus { save: new.save, save_dirty: old.save_dirty || old.save@[i] != val, ..old })
            &&& new.save@ == old.save@.update(i, val)
        } else if old.save_type.is_flash() {
            flash_written(old, new, addr, val)
        } else {
            new == old
        }
    } else {
        new == old
    }
}

/// The bus after byte `val` is stored at `addr`, I/O block included; what a
/// write that starts a DMA transfer leaves is stated by the byte writes
/// themselves (see [`Bus::write8`]).
pub open spec fn byte_stored(old: Bus, new: Bus, addr: u32, val: u8) -> bool {
    if addr >> 24 == 0x04 {
        !starts_dma(addr & 0xFFFFFF, val) ==> io_written(old, new, addr & 0xFFFFFF, val)
    } else {
        stored8(old, new, addr, val)
    }
}

/// The bus after a byte write: [`byte_stored`], but for the 16-bit video
/// memories, which see the byte in both halves of its halfword (VRAM only in
/// the background area) or, for OAM, not at all.
pub open spec fn written8(old: Bus, new: Bus, addr: u32, val: u8) -> bool {
    let region = addr >> 24;
    if region == 0x05 {
        let a = (addr & 0x3FE) as int;
        &&& new == (Bus { palette: new.palette, ..old })
        &&& new.palette@ == old.palette@.update(a, val).update(a + 1, val)
    } else if region == 0x06 {
        let idx = vram_index(addr & !1u32);
        let obj_start = if old.io@[0] & 7 >= 3 { 0x14000int } else { 0x10000int };
        if idx < obj_start {
            &&& new == (Bus { vram: new.vram, ..old })
            &&& new.vram@ == old.vram@.update(idx, val).update(idx + 1, val)
        } else {
            new == old
        }
    } else if region == 0x07 {
        new == old
    } else {
        byte_stored(old, new, addr, val)
    }
}

/// The bus after a halfword write, byte by byte as [`byte_stored`] says:
/// on the SRAM bus the one byte of the halfword that the address selects;
/// elsewhere the two bytes stored in turn at the aligned address.
#[verifier::opaque]
pub open spec fn wrote16_plain(old: Bus, new: Bus, addr: u32, val: u16) -> bool {
    if old.on_sram_bus(addr) {
        byte_stored(old, new, addr, byte_of(val as u32, (addr & 1) as int))
    } else {
        exists|mid: Bus|
            #[trigger] byte_stored(old, mid, addr & !1u32, byte_of(val as u32, 0))
            && byte_stored(mid, new, ((addr & !1u32) + 1) as u32, byte_of(val as u32, 1))
    }
}

/// The bus after a word write, byte by byte as [`byte_stored`] says: on
/// the SRAM bus the one byte of the word that the address selects;
/// elsewhere the four bytes stored in turn at the aligned address, least
/// significant first.
#[verifier::opaque]
pub open spec fn wrote32_plain(old: Bus, new: Bus, addr: u32, val: u32) -> bool {
    if old.on_sram_bus(addr) {
        byte_stored(old, new, addr, byte_of(val, (addr & 3) as int))
    } else {
        exists|m1: Bus, m2: Bus, m3: Bus|
            #![trigger byte_stored(old, m1, addr & !3u32, byte_of(val, 0)), byte_stored(m2, m3, ((addr & !3u32) + 2) as u32, byte_of(val, 2))]
            byte_stored(old, m1, addr & !3u32, byte_of(val, 0))
            && byte_stored(m1, m2, ((addr & !3u32) + 1) as u32, byte_of(val, 1))
            && byte_stored(m2, m3, ((addr & !3u32) + 2) as u32, byte_of(val, 2))
            && byte_stored(m3, new, ((addr & !3u32) + 3) as u32, byte_of(val, 3))
    }
}

/// The bus after byte `val` is stored at `addr`: [`byte_stored`], and for a
/// write that sets a DMA channel's enable bit, the transfers it starts.
pub open spec fn byte_written(old: Bus, new: Bus, addr: u32, val: u8) -> bool {
    &&& byte_stored(old, new, addr, val)
    &&& addr >> 24 == 0x04 && starts_dma(addr & 0xFFFFFF, val) ==> exists|m1: Bus, m2: Bus|
        #[trigger] dma_start_steps(old, m1, m2, new, addr & 0xFFFFFF, val)
}

/// The bus after a halfword write: as [`wrote16_plain`], each byte as
/// [`byte_written`] says.
#[verifier::opaque]
pub open spec fn wrote16(old: Bus, new: Bus, addr: u32, val: u16) -> bool {
    if old.on_sram_bus(addr) {
        byte_written(old, new, addr, byte_of(val as u32, (addr & 1) as int))
    } else {
        exists|mid: Bus|
            #[trigger] byte_written(old, mid, addr & !1u32, byte_of(val as u32, 0))
            && byte_written(mid, new, ((addr & !1u32) + 1) as u32, byte_of(val as u32, 1))
    }
}

/// The bus after a word write: as [`wrote32_plain`], each byte as
/// [`byte_written`] says.
#[verifier::opaque]
pub open spec fn wrote32(old: Bus, new: Bus, addr: u32, val: u32) -> bool {
    if old.on_sram_bus(addr) {
        byte_written(old, new, addr, byte_of(val, (addr & 3) as int))
    } else {
        exists|m1: Bus, m2: Bus, m3: Bus|
            #![trigger byte_written(old, m1, addr & !3u32, byte_of(val, 0)), byte_written(m2, m3, ((addr & !3u32) + 2) as u32, byte_of(val, 2))]
            byte_written(old, m1, addr & !3u32, byte_of(val, 0))
            && byte_written(m1, m2, ((addr & !3u32) + 1) as u32, byte_of(val, 1))
            && byte_written(m2, m3, ((addr & !3u32) + 2) as u32, byte_of(val, 2))
            && byte_written(m3, new, ((addr & !3u32) + 3) as u32, byte_of(val, 3))
    }
}

/// A byte written, with the transfers it starts when it sets a DMA enable
/// bit (see [`dma_kicked`]).
pub open spec fn byte_ran(old: Bus, new: Bus, addr: u32, val: u8) -> bool {
    byte_written(old, new, addr, val) && dma_kicked(old, new, addr, val)
}

/// A halfword written as [`wrote16`] says, each byte as [`byte_ran`] says.
#[verifier::opaque]
pub open spec fn halfword_ran(old: Bus, new: Bus, addr: u32, val: u16) -> bool {
    if old.on_sram_bus(addr) {
        byte_ran(old, new, addr, byte_of(val as u32, (addr & 1) as int))
    } else {
        exists|mid: Bus|
            #[trigger] byte_ran(old, mid, addr & !1u32, byte_of(val as u32, 0))
            && byte_ran(mid, new, ((addr & !1u32) + 1) as u32, byte_of(val as u32, 1))
    }
}

/// A word written as [`wrote32`] says, each byte as [`byte_ran`] says.
#[verifier::opaque]
pub open spec fn word_ran(old: Bus, new: Bus, addr: u32, val: u32) -> bool {
    if old.on_sram_bus(addr) {
        byte_ran(old, new, addr, byte_of(val, (addr & 3) as int))
    } else {
        exists|m1: Bus, m2: Bus, m3: Bus|
            #![trigger byte_ran(old, m1, addr & !3u32, byte_of(val, 0)), byte_ran(m2, m3, ((addr & !3u32) + 2) as u32, byte_of(val, 2))]
            byte_ran(old, m1, addr & !3u32, byte_of(val, 0))
            && byte_ran(m1, m2, ((addr & !3u32) + 1) as u32, byte_of(val, 1))
            && byte_ran(m2, m3, ((addr & !3u32) + 2) as u32, byte_of(val, 2))
            && byte_ran(m3, new, ((addr & !3u32) + 3) as u32, byte_of(val, 3))
    }
}

impl Bus {
    /// Byte store into the memory map.
    #[verifier::spinoff_prover]
    #[verifier::rlimit(100)]
    pub(crate) fn store8(&mut self, addr: u32, val: u8, depth: u32)
        requires
            old(self).wf(),
        ensures
            final(self).wf(),
            bus_frame(*old(self), *final(self)),
            byte_written(*old(self), *final(self), addr, val),
            depth > 0 ==> dma_kicked(*old(self), *final(self), addr, val),
        decreases depth, 4nat,
    {
        let region = addr >> 24;
        proof {
            lemma_u32_masks(addr);
            reveal(dma_kicked);
        }
        if region == 0x02 {
            self.ewram.set((addr & 0x3FFFF) as usize, val);
        } else if region == 0x03 {
            self.iwram.set((addr & 0x7FFF) as usize, val);
        } else if region == 0x04 {
            self.io_write(addr & 0xFFFFFF, val, depth);
        } else if region == 0x05 {
            self.palette.set((addr & 0x3FF) as usize, val);
        } else if region == 0x06 {
            self.vram.set(vram_idx(addr), val);
        } else if region == 0x07 {
            self.oam.set((addr & 0x3FF) as usize, val);
        } else if region == 0x0D && self.eeprom_selected(addr) {
            // One command bit per halfword; ignore the high byte.
            if addr & 1 == 0 {
                self.eeprom_write_bit(val);
            }
        } else if region == 0x0E || region == 0x0F {
            if self.save_type == SaveType::Sram {
                let i = (addr & 0x7FFF) as usize;
                if self.save[i] != val {
                    self.save.set(i, val);
                    self.save_dirty = true;
                } else {
                    assert(self.save@ =~= old(self).save@.update(i as int, val));
                }
            } else if self.save_type.is_flash() {
                self.flash_write(addr, val);
            }
        }
        proof {
            assert(forall|t: int| 0 <= t < 4 ==> #[trigger] self.timer_counter[t] == self.timer_counter[t]);
        }
    }

    /// Halfword store: the address is rounded down to even; on the 8-bit
    /// SRAM bus only the byte lane matching the address reaches the chip.
    pub(crate) fn store16(&mut self, addr: u32, val: u16, depth: u32)
        requires
            old(self).wf(),
        ensures
            final(self).wf(),
            bus_frame(*old(self), *final(self)),
            wrote16(*old(self), *final(self), addr, val),
            wrote16_plain(*old(self), *final(self), addr, val),
            depth > 0 ==> halfword_ran(*old(self), *final(self), addr, val),
        decreases depth, 5nat,
    {
        proof {
            lemma_u32_masks(addr);
            reveal(wrote16);
            reveal(wrote16_plain);
            reveal(halfword_ran);
        }
        if self.sram_bus_exec(addr) {
            self.store8(addr, byte_at(val as u32, addr & 1), depth);
            return;
        }
        let a = addr & !1u32;
        let ghost b0 = *self;
        self.store8(a, byte_at(val as u32, 0), depth);
        let ghost mid = *self;
        self.store8(a + 1, byte_at(val as u32, 1), depth);
        proof {
            assert(byte_stored(b0, mid, addr & !1u32, byte_of(val as u32, 0)));
            assert(byte_written(b0, mid, addr & !1u32, byte_of(val as u32, 0)));
            if depth > 0 {
                assert(byte_ran(b0, mid, addr & !1u32, byte_of(val as u32, 0)));
            }
        }
    }

    /// Word store: the address is rounded down to a multiple of 4; on the
    /// SRAM bus only the byte lane matching the address reaches the chip.
    pub(crate) fn store32(&mut self, addr: u32, val: u32, depth: u32)
        requires
            old(self).wf(),
        ensures
            final(self).wf(),
            bus_frame(*old(self), *final(self)),
            wrote32(*old(self), *final(self), addr, val),
            wrote32_plain(*old(self), *final(self), addr, val),
            depth > 0 ==> word_ran(*old(self), *final(self), addr, val),
        decreases depth, 5nat,
    {
        proof {
            lemma_u32_masks(addr);
            reveal(wrote32);
            reveal(wrote32_plain);
            reveal(word_ran);
        }
        if self.sram_bus_exec(addr) {
            self.store8(addr, byte_at(val, addr & 3), depth);
            return;
        }
        let a = addr & !3u32;
        let ghost b0 = *self;
        self.store8(a, byte_at(val, 0), depth);
        let ghost m1 = *self;
        self.store8(a + 1, byte_at(val, 1), depth);
        let ghost m2 = *self;
        self.store8(a + 2, byte_at(val, 2), depth);
        let ghost m3 = *self;
        self.store8(a + 3, byte_at(val, 3), depth);
        proof {
            assert(byte_stored(b0, m1, addr & !3u32, byte_of(val, 0))
                && byte_stored(m2, m3, ((addr & !3u32) + 2) as u32, byte_of(val, 2)));
            assert(byte_written(b0, m1, addr & !3u32, byte_of(val, 0))
                && byte_written(m2, m3, ((addr & !3u32) + 2) as u32, byte_of(val, 2)));
            if depth > 0 {
                assert(byte_ran(b0, m1, addr & !3u32, byte_of(val, 0))
                    && byte_ran(m2, m3, ((addr & !3u32) + 2) as u32, byte_of(val, 2)));
            }
        }
    }

    /// Byte write with no special case for the 16-bit video memories.
    pub fn write8_lenient(&mut self, addr: u32, val: u8)
        requires
            old(self).wf(),
        ensures
            final(self).wf(),
            bus_frame(*old(self), *final(self)),
            byte_written(*old(self), *final(self), addr, val),
            dma_kicked(*old(self), *final(self), addr, val),
    {
        self.store8(addr, val, DMA_NESTING);
    }

    /// Byte write. Byte stores to 16-bit video memory: the palette takes the
    /// byte in both halves of the halfword, VRAM does the same in the
    /// background area and ignores it in the sprite area, OAM ignores it.
    pub fn write8(&mut self, addr: u32, val: u8)
        requires
            old(self).wf(),
        ensures
            final(self).wf(),
            bus_frame(*old(self), *final(self)),
            written8(*old(self), *final(self), addr, val),
            addr >> 24 == 0x04 && starts_dma(addr & 0xFFFFFF, val) ==> exists|m1: Bus, m2: Bus|
                #[trigger] dma_start_steps(*old(self), m1, m2, *final(self), addr & 0xFFFFFF, val),
            dma_kicked(*old(self), *final(self), addr, val),
    {
        let region = addr >> 24;
        proof {
            lemma_u32_masks(addr);
            reveal(dma_kicked);
        }
        if region == 0x05 {
            let a = (addr & 0x3FE) as usize;
            self.palette.set(a, val);
            self.palette.set(a + 1, val);
        } else if region == 0x06 {
            let idx = vram_idx(addr & !1u32);
            let obj_start: usize = if self.io[0] & 7 >= 3 { 0x14000 } else { 0x10000 };
            if idx < obj_start {
                self.vram.set(idx, val);
                self.vram.set(idx + 1, val);
            }
        } else if region == 0x07 {
        } else {
            self.store8(addr, val, DMA_NESTING);
        }
    }

    /// Halfword write (little-endian, address rounded down to even).
    pub fn write16(&mut self, addr: u32, val: u16)
        requires
            old(self).wf(),
        ensures
            final(self).wf(),
            bus_frame(*old(self), *final(self)),
            wrote16(*old(self), *final(self), addr, val),
            halfword_ran(*old(self), *final(self), addr, val),
    {
        self.store16(addr, val, DMA_NESTING);
    }

    /// Word write (little-endian, address rounded down to a multiple of 4).
    pub fn write32(&mut self, addr: u32, val: u32)
        requires
            old(self).wf(),
        ensures
            final(self).wf(),
            bus_frame(*old(self), *final(self)),
            wrote32(*old(self), *final(self), addr, val),
            wrote32_plain(*old(self), *final(self), addr, val),
            word_ran(*old(self), *final(self), addr, val),
    {
        self.store32(addr, val, DMA_NESTING);
    }

    fn sram_bus_exec(&self, addr: u32) -> (r: bool)
        ensures
            r == self.on_sram_bus(addr),
    {
        self.save_type == SaveType::Sram && (addr >> 24 == 0x0E || addr >> 24 == 0x0F)
    }
}

} // verus!
