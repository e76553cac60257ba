//! Run-time checks of the state invariants, for state that comes from
//! outside the library (a restored snapshot): each returns exactly whether
//! the invariant holds.

use vstd::prelude::*;
use crate::bus::{
    Bus, BIOS_SIZE, EWRAM_SIZE, IWRAM_SIZE, PALETTE_SIZE, VRAM_SIZE, OAM_SIZE, IO_SIZE, CYCLES_PER_LINE,
    TOTAL_LINES, VISIBLE_LINES, addr_bits_of, refs_within, ref_steps, timers_ok, bits_only,
};
use crate::cpu::Cpu;
use crate::ppu::{Ppu, WIDTH, HEIGHT};
use crate::psg::{Psg, Square, Wave, Noise};
use crate::save::SaveType;

verus! {

impl Square {
    pub fn is_valid(&self) -> (r: bool)
        ensures
            r == self.wf(),
    {
        self.duty <= 3 && self.duty_pos <= 7 && self.freq <= 2047 && 0 <= self.timer && self.timer <= 32768
            && self.length <= 64 && self.volume <= 15 && self.env_vol <= 15 && self.env_period <= 7
            && self.env_timer <= 7 && self.sweep_period <= 7 && self.sweep_shift <= 7 && self.sweep_timer <= 8
            && self.sweep_shadow <= 2047
    }
}

impl Wave {
    pub fn is_valid(&self) -> (r: bool)
        ensures
            r == self.wf(),
    {
        self.bank <= 1 && self.freq <= 2047 && 0 <= self.timer && self.timer <= 16384 && self.length <= 256
            && self.volume_code <= 4 && self.pos <= 31 && self.sample <= 15
    }
}

impl Noise {
    pub fn is_valid(&self) -> (r: bool)
        ensures
            r == self.wf(),
    {
        self.length <= 64 && self.volume <= 15 && self.env_vol <= 15 && self.env_period <= 7 && self.env_timer <= 7
            && self.divisor_code <= 7 && self.shift <= 15 && -0x7FFF_F800 <= self.timer && self.timer <= 0x0100_0000
            && self.lfsr < 0x8000
    }
}

impl Psg {
    pub fn is_valid(&self) -> (r: bool)
        ensures
            r == self.wf(),
    {
        self.ch1.is_valid() && self.ch2.is_valid() && self.ch3.is_valid() && self.ch4.is_valid()
            && self.frame_timer < 32768 && self.frame_step <= 7
    }
}

impl Ppu {
    pub fn is_valid(&self) -> (r: bool)
        ensures
            r == self.wf(),
    {
        self.framebuffer.len() == WIDTH * HEIGHT
    }
}

fn within(v: i32, bound: i64) -> (r: bool)
    requires
        0 <= bound <= 0x1000_0000,
    ensures
        r == (-bound <= v <= bound),
{
    -bound <= v as i64 && v as i64 <= bound
}

impl Bus {
    /// Whether the bus state keeps its invariant.
    pub fn is_valid(&self) -> (r: bool)
        ensures
            r == self.wf(),
    {
        if !(self.bios.len() == BIOS_SIZE && self.ewram.len() == EWRAM_SIZE && self.iwram.len() == IWRAM_SIZE
            && self.palette.len() == PALETTE_SIZE && self.vram.len() == VRAM_SIZE && self.oam.len() == OAM_SIZE
            && self.io.len() == IO_SIZE && self.ppu.is_valid() && self.psg.is_valid()
            && self.line_cycles < CYCLES_PER_LINE && self.vcount < TOTAL_LINES) {
            return false;
        }
        let steps: i64 = (if self.vcount < VISIBLE_LINES { self.vcount as i64 } else { VISIBLE_LINES as i64 })
            + if self.in_hblank && self.vcount < VISIBLE_LINES { 1 } else { 0 };
        let bound: i64 = 0x0800_0000 + 0x8000 * steps;
        assert(bound == 0x0800_0000 + 0x8000 * ref_steps(self.vcount, self.in_hblank));
        let refs = within(self.bg_ref[0].0, bound) && within(self.bg_ref[0].1, bound)
            && within(self.bg_ref[1].0, bound) && within(self.bg_ref[1].1, bound);
        assert(refs == refs_within(self.bg_ref, bound as int)) by {
            if refs {
                assert forall|k: int| 0 <= k < 2 implies -bound <= #[trigger] self.bg_ref[k].0 <= bound
                    && -bound <= self.bg_ref[k].1 <= bound by {
                    if k == 0 {} else {}
                }
            }
        }
        if !refs {
            return false;
        }
        let mut t: usize = 0;
        while t < 4
            invariant
                t <= 4,
                forall|k: int| 0 <= k < t ==> #[trigger] self.timer_counter[k] <= 0xFFFF && self.timer_frac[k] < 1024,
            decreases 4 - t,
        {
            if !(self.timer_counter[t] <= 0xFFFF && self.timer_frac[t] < 1024) {
                assert(!timers_ok(self.timer_counter, self.timer_frac));
                return false;
            }
            t = t + 1;
        }
        let mut i: usize = 0;
        while i < self.ee_buf.len()
            invariant
                i <= self.ee_buf@.len(),
                forall|k: int| 0 <= k < i ==> #[trigger] self.ee_buf@[k] <= 1,
            decreases self.ee_buf@.len() - i,
        {
            if self.ee_buf[i] > 1 {
                assert(!bits_only(self.ee_buf@));
                return false;
            }
            i = i + 1;
        }
        let bits: u8 = if self.save_type == SaveType::Eeprom512 { 6 } else if self.save_type == SaveType::Eeprom8k { 14 } else { 0 };
        self.sample_timer < 0x100_0000
            && self.save.len() == self.save_type.size()
            && self.flash_bank <= 1
            && self.ee_addr_bits == bits
            && (!self.ee_reading || (self.ee_out <= 67 && self.ee_read_off <= self.save.len()
                && self.save.len() - self.ee_read_off >= 8 && self.ee_addr_bits != 0))
            && self.fifo_a.len() <= 32
            && self.fifo_b.len() <= 32
    }
}

impl Cpu {
    /// Whether the machine state keeps its invariant.
    pub fn is_valid(&self) -> (r: bool)
        ensures
            r == self.wf(),
    {
        self.bus.is_valid()
    }
}

} // verus!
