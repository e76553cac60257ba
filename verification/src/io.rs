//! Writes to the I/O register block, and the affine reference reloads and
//! DMA latching they trigger.

use vstd::prelude::*;
use crate::bits::{le16, le32, seq_le16, seq_le32};
use crate::bus::{Bus, IO_SIZE, refs_within, ref_steps};
use crate::psg::wave_index;

verus! {

/// The KEYINPUT register for the buttons set in `pressed` (in KEYINPUT bit
/// order): the register is active-low, so a button's bit is clear while it
/// is held, and only the ten button bits exist.
pub fn keyinput_for(pressed: u16) -> (r: u16)
    ensures
        r == !pressed & 0x3FF,
        r <= 0x3FF,
        forall|i: u16| i < 10 ==> ((r >> i) & 1 == 0) == ((pressed >> i) & 1 == 1),
{
    let r = !pressed & 0x3FF;
    assert(r <= 0x3FF) by (bit_vector) requires r == !pressed & 0x3FF;
    assert(forall|i: u16| i < 10 ==> ((r >> i) & 1 == 0) == ((pressed >> i) & 1 == 1)) by (bit_vector)
        requires r == !pressed & 0x3FF;
    r
}

/// A 28-bit affine reference register, sign-extended.
pub open spec fn sext28(v: u32) -> i32 {
    ((v << 4u32) as i32) >> 4u32
}

/// The affine reference points as latched from the I/O block.
pub open spec fn latched_refs(io: Seq<u8>) -> [(i32, i32); 2] {
    [
        (sext28(seq_le32(io, 0x28)), sext28(seq_le32(io, 0x2C))),
        (sext28(seq_le32(io, 0x38)), sext28(seq_le32(io, 0x3C))),
    ]
}

/// Everything the I/O block's side effects leave alone: the memories, the
/// cartridge, the display timing and the keypad.
pub open spec fn bus_frame(old: Bus, new: Bus) -> bool {
    &&& new.rom == old.rom
    &&& new.save_type.is_eeprom() == old.save_type.is_eeprom()
    &&& new.bios == old.bios
    &&& new.keyinput == old.keyinput
    &&& new.vcount == old.vcount
    &&& new.line_cycles == old.line_cycles
    &&& new.in_hblank == old.in_hblank
    &&& new.frame_ready == old.frame_ready
    &&& new.ppu == old.ppu
    &&& new.sample_timer == old.sample_timer
}

/// Whether a byte write at I/O offset `off` may start a DMA transfer (the
/// high control byte of a channel, with the enable bit set).
pub open spec fn starts_dma(off: u32, val: u8) -> bool {
    (off == 0xBB || off == 0xC7 || off == 0xD3 || off == 0xDF) && val & 0x80 != 0
}

/// A timer control byte written: starting a timer reloads its counter
/// from the reload value and restarts its prescaler.
pub open spec fn timer_ctl_written(old: Bus, new: Bus, off: u32, val: u8) -> bool {
    let o = off as int;
    let t = (off - 0x102) / 4;
    let starts = old.io@[o] & 0x80 == 0 && val & 0x80 != 0;
    &&& new == (Bus { io: new.io, timer_counter: new.timer_counter, timer_frac: new.timer_frac, ..old })
    &&& new.io@ == old.io@.update(o, val)
    &&& new.timer_counter@ == (if starts { old.timer_counter@.update(t, seq_le16(old.io@, 0x100 + 4 * t) as u32) } else { old.timer_counter@ })
    &&& new.timer_frac@ == (if starts { old.timer_frac@.update(t, 0) } else { old.timer_frac@ })
}

/// A byte written to a DirectSound FIFO (pushed unless the FIFO is full),
/// or to the high byte of SOUNDCNT_H, whose bits 3 and 7 empty FIFO A
/// and B.
pub open spec fn fifo_byte_written(old: Bus, new: Bus, off: u32, val: u8) -> bool {
    if 0x0A0 <= off <= 0x0A3 {
        &&& new == (Bus { fifo_a: new.fifo_a, ..old })
        &&& new.fifo_a@ == (if old.fifo_a@.len() < 32 { old.fifo_a@.push(val as i8) } else { old.fifo_a@ })
    } else if 0x0A4 <= off <= 0x0A7 {
        &&& new == (Bus { fifo_b: new.fifo_b, ..old })
        &&& new.fifo_b@ == (if old.fifo_b@.len() < 32 { old.fifo_b@.push(val as i8) } else { old.fifo_b@ })
    } else {
        &&& new == (Bus { io: new.io, fifo_a: new.fifo_a, fifo_b: new.fifo_b, ..old })
        &&& new.io@ == old.io@.update(0x83, val)
        &&& new.fifo_a@ == (if val & 0x08 != 0 { Seq::<i8>::empty() } else { old.fifo_a@ })
        &&& new.fifo_b@ == (if val & 0x80 != 0 { Seq::<i8>::empty() } else { old.fifo_b@ })
    }
}

/// A PSG register byte written; the bytes stay visible in the block too.
pub open spec fn sound_reg_written(old: Bus, new: Bus, off: u32, val: u8) -> bool {
    &&& new == (Bus { io: new.io, psg: new.psg, ..old })
    &&& new.io@ == old.io@.update(off as int, val)
    &&& if 0x90 <= off {
        &&& new.psg == (crate::psg::Psg { wave_ram: new.psg.wave_ram, ..old.psg })
        &&& new.psg.wave_ram@ == old.psg.wave_ram@.update(wave_index(old.psg.ch3.bank, off), val)
    } else {
        new.psg == old.psg.written(off, val)
    }
}

/// A byte written to IE, IF (write-1-to-clear) or IME.
pub open spec fn irq_reg_written(old: Bus, new: Bus, off: u32, val: u8) -> bool {
    if off == 0x202 {
        new == (Bus { if_: old.if_ & !(val as u16), ..old })
    } else if off == 0x203 {
        new == (Bus { if_: old.if_ & !((val as u16) << 8u16), ..old })
    } else if off == 0x200 {
        new == (Bus { ie: (old.ie & 0xFF00) | (val as u16), ..old })
    } else if off == 0x201 {
        new == (Bus { ie: (old.ie & 0x00FF) | (((val as u16) & 0x3F) << 8u16), ..old })
    } else {
        new == (Bus { ime: val & 1 != 0, ..old })
    }
}

/// A plain register byte written; writes to the BG2/BG3 reference points
/// reload the internal accumulators.
pub open spec fn plain_io_written(old: Bus, new: Bus, off: u32, val: u8) -> bool {
    let io2 = old.io@.update(off as int, val);
    let refs = (0x28 <= off < 0x30) || (0x38 <= off < 0x40);
    &&& new == (Bus { io: new.io, bg_ref: new.bg_ref, ..old })
    &&& new.io@ == io2
    &&& new.bg_ref == (if refs { latched_refs(io2) } else { old.bg_ref })
}

/// The bus after byte `val` is written at I/O offset `off`, for every write
/// that does not start a DMA transfer.
#[verifier::opaque]
pub open spec fn io_written(old: Bus, new: Bus, off: u32, val: u8) -> bool {
    if off == 0x006 || off == 0x007 {
        new == old  // VCOUNT is read-only
    } else if off == 0x102 || off == 0x106 || off == 0x10A || off == 0x10E {
        timer_ctl_written(old, new, off, val)
    } else if (0x0A0 <= off <= 0x0A7) || off == 0x083 {
        fifo_byte_written(old, new, off, val)
    } else if (0x060 <= off <= 0x081) || (0x090 <= off <= 0x09F) {
        sound_reg_written(old, new, off, val)
    } else if off == 0x200 || off == 0x201 || off == 0x202 || off == 0x203 || off == 0x208 {
        irq_reg_written(old, new, off, val)
    } else if off >= IO_SIZE {
        new == old
    } else {
        plain_io_written(old, new, off, val)
    }
}

fn sext28_exec(v: u32) -> (r: i32)
    ensures
        r == sext28(v),
        -0x0800_0000 <= r < 0x0800_0000,
{
    let r = ((v << 4) as i32) >> 4;
    proof { crate::bitfacts::lemma_sign_casts(v); }
    r
}

impl Bus {
    /// Latch the BG2/BG3 reference points from their registers.
    pub(crate) fn reload_affine_refs(&mut self)
        requires
            old(self).io@.len() == IO_SIZE,
        ensures
            *final(self) == (Bus { bg_ref: latched_refs(old(self).io@), ..*old(self) }),
            refs_within(final(self).bg_ref, 0x0800_0000),
    {
        let x2 = sext28_exec(self.io32(0x28));
        let y2 = sext28_exec(self.io32(0x2C));
        let x3 = sext28_exec(self.io32(0x38));
        let y3 = sext28_exec(self.io32(0x3C));
        self.bg_ref = [(x2, y2), (x3, y3)];
        assert(self.bg_ref =~= latched_refs(old(self).io@));
    }
}

} // verus!
