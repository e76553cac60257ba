//! The system bus: memory map, I/O registers, interrupts, display timing,
//! timers, DMA and the cartridge save controllers.

use vstd::prelude::*;
use std::collections::VecDeque;
use crate::bits::{le16, le32, seq_le16, pack16, pack32, byte_at, byte_of};
use crate::ppu::{Ppu, refs_bounded, WIDTH, HEIGHT};
use crate::psg::{Psg, Square, Wave, Noise};
pub use crate::save::{SaveType, detect_save_type, detected_save_type};

verus! {

/// Scanline timing in CPU cycles (16.78 MHz): 1232 per line, 228 lines.
pub const CYCLES_PER_LINE: u64 = 1232;
pub const VISIBLE_LINES: u32 = 160;
pub const TOTAL_LINES: u32 = 228;
pub const CYCLES_PER_FRAME: u64 = 280896;

/// IRQ bits in IE/IF.
pub const IRQ_VBLANK: u16 = 1;
pub const IRQ_HBLANK: u16 = 2;
pub const IRQ_VCOUNT: u16 = 4;
pub const IRQ_TIMER0: u16 = 8;
pub const IRQ_DMA0: u16 = 0x100;

/// How deeply a DMA transfer that writes a DMA control register may start
/// further immediate transfers.
pub const DMA_NESTING: u32 = 8;

/// Sizes of the memories.
pub const BIOS_SIZE: usize = 0x4000;
pub const EWRAM_SIZE: usize = 0x40000;
pub const IWRAM_SIZE: usize = 0x8000;
pub const PALETTE_SIZE: usize = 0x400;
pub const VRAM_SIZE: usize = 0x18000;
pub const OAM_SIZE: usize = 0x400;
pub const IO_SIZE: usize = 0x800;

pub struct Bus {
    pub bios: Vec<u8>,
    pub ewram: Vec<u8>,
    pub iwram: Vec<u8>,
    pub palette: Vec<u8>,
    pub vram: Vec<u8>,
    pub oam: Vec<u8>,
    pub io: Vec<u8>,
    pub rom: Vec<u8>,
    pub ppu: Ppu,
    pub psg: Psg,

    // Interrupts
    pub ime: bool,
    pub ie: u16,
    pub if_: u16,

    // Display timing
    pub line_cycles: u64,
    pub vcount: u32,
    pub in_hblank: bool,
    pub frame_ready: bool,
    /// Internal affine reference point accumulators of BG2 and BG3.
    pub bg_ref: [(i32, i32); 2],

    // Timers: counter and fractional prescaler accumulator.
    pub timer_counter: [u32; 4],
    pub timer_frac: [u64; 4],

    /// Keypad, set by the frontend: active-low bit per key.
    pub keyinput: u16,

    // DMA internal address latches. Hardware latches SAD/DAD on enable and
    // never exposes the incremented values back through the registers.
    pub dma_src: [u32; 4],
    pub dma_dst: [u32; 4],

    /// Battery-backed save. `save` is always exactly `save_type.size()` bytes.
    pub save_type: SaveType,
    pub save: Vec<u8>,
    pub save_dirty: bool,

    // Flash command-protocol state (64KB and 128KB parts share it).
    pub flash_bank: usize,
    /// 0 idle, 1 got AA, 2 got 55.
    pub flash_state: u8,
    pub flash_id_mode: bool,
    pub flash_erase_mode: bool,
    pub flash_write_byte: bool,
    pub flash_bank_select: bool,

    // EEPROM bit-serial protocol state.
    /// 0 = not yet known, else 6 or 14.
    pub ee_addr_bits: u8,
    /// Command bits received so far, one per element.
    pub ee_buf: Vec<u8>,
    pub ee_reading: bool,
    /// Bits already shifted out of the current read.
    pub ee_out: u32,
    /// Byte offset of the block being read.
    pub ee_read_off: usize,

    // DirectSound: two FIFO channels fed by timer-paced DMA1/DMA2.
    pub fifo_a: VecDeque<i8>,
    pub fifo_b: VecDeque<i8>,
    pub sample_a: i8,
    pub sample_b: i8,
    /// Output resampling accumulator (44.1 kHz from the 2^24 Hz clock).
    pub sample_timer: u64,
}

/// EEPROM address width of a save type (0 while unknown or not EEPROM).
pub open spec fn addr_bits_of(t: SaveType) -> u8 {
    if t == SaveType::Eeprom512 {
        6
    } else if t == SaveType::Eeprom8k {
        14
    } else {
        0
    }
}

/// Affine reference steps taken since the last reload within a frame.
pub open spec fn ref_steps(vcount: u32, in_hblank: bool) -> int {
    (if vcount < VISIBLE_LINES { vcount as int } else { VISIBLE_LINES as int })
        + (if in_hblank && vcount < VISIBLE_LINES { 1int } else { 0 })
}

pub open spec fn refs_within(bg_ref: [(i32, i32); 2], bound: int) -> bool {
    forall|k: int| 0 <= k < 2 ==> -bound <= #[trigger] bg_ref[k].0 <= bound && -bound <= bg_ref[k].1 <= bound
}

/// Timer counters fit in 16 bits and prescaler remainders stay below the
/// largest prescaler.
pub open spec fn timers_ok(counter: [u32; 4], frac: [u64; 4]) -> bool {
    forall|t: int| 0 <= t < 4 ==> #[trigger] counter[t] <= 0xFFFF && frac[t] < 1024
}

/// Every element is a single bit.
pub open spec fn bits_only(s: Seq<u8>) -> bool {
    forall|i: int| 0 <= i < s.len() ==> #[trigger] s[i] <= 1
}

impl Bus {
    /// The invariant every bus state keeps.
    pub open spec fn wf(&self) -> bool {
        &&& self.bios@.len() == BIOS_SIZE
        &&& self.ewram@.len() == EWRAM_SIZE
        &&& self.iwram@.len() == IWRAM_SIZE
        &&& self.palette@.len() == PALETTE_SIZE
        &&& self.vram@.len() == VRAM_SIZE
        &&& self.oam@.len() == OAM_SIZE
        &&& self.io@.len() == IO_SIZE
        &&& self.ppu.wf()
        &&& self.psg.wf()
        &&& self.line_cycles < CYCLES_PER_LINE
        &&& self.vcount < TOTAL_LINES
        &&& refs_within(self.bg_ref, 0x0800_0000 + 0x8000 * ref_steps(self.vcount, self.in_hblank))
        &&& timers_ok(self.timer_counter, self.timer_frac)
        &&& self.sample_timer < 0x100_0000
        &&& self.save@.len() == self.save_type.size()
        &&& self.flash_bank <= 1
        &&& self.ee_addr_bits == addr_bits_of(self.save_type)
        &&& bits_only(self.ee_buf@)
        &&& (self.ee_reading ==> self.ee_out <= 67 && self.ee_read_off + 8 <= self.save@.len()
            && self.ee_addr_bits != 0)
        &&& self.fifo_a@.len() <= 32
        &&& self.fifo_b@.len() <= 32
    }
}

/// Offset into VRAM of a 0x06xxxxxx address: 96KB mirrored in 128KB, the
/// upper 32KB repeating the sprite area.
pub open spec fn vram_index(addr: u32) -> int {
    let a = (addr & 0x1FFFF) as int;
    if a >= 0x18000 { a - 0x8000 } else { a }
}

pub fn vram_idx(addr: u32) -> (r: usize)
    ensures
        r == vram_index(addr),
        r < VRAM_SIZE,
{
    let a = (addr & 0x1FFFF) as usize;
    proof { crate::bitfacts::lemma_u32_masks(addr); }
    if a >= 0x18000 { a - 0x8000 } else { a }
}

/// A zero-filled vector of `n` bytes.
fn zeroed(n: usize) -> (v: Vec<u8>)
    ensures
        v@ == Seq::new(n as nat, |i: int| 0u8),
{
    filled(n, 0)
}

/// A vector of `n` copies of `b`.
pub fn filled(n: usize, b: u8) -> (v: Vec<u8>)
    ensures
        v@ == Seq::new(n as nat, |i: int| b),
{
    let mut v: Vec<u8> = Vec::new();
    let mut i: usize = 0;
    while i < n
        invariant
            i <= n,
            v@ == Seq::new(i as nat, |k: int| b),
        decreases n - i,
    {
        v.push(b);
        i = i + 1;
        assert(v@ =~= Seq::new(i as nat, |k: int| b));
    }
    v
}

/// The minimal HLE BIOS: zeros, with an IRQ dispatcher at the hardware IRQ
/// vector (0x18) that saves registers, calls the user handler pointed to by
/// [0x03007FFC] (via its 0x03FFFFFC mirror), restores and returns.
pub open spec fn irq_stub_word(i: int) -> u32 {
    if i == 0 {
        0xE92D500F  // stmfd sp!, {r0-r3, r12, lr}
    } else if i == 1 {
        0xE3A00301  // mov r0, #0x04000000
    } else if i == 2 {
        0xE28FE000  // add lr, pc, #0
    } else if i == 3 {
        0xE510F004  // ldr pc, [r0, #-4]
    } else if i == 4 {
        0xE8BD500F  // ldmfd sp!, {r0-r3, r12, lr}
    } else {
        0xE25EF004  // subs pc, lr, #4
    }
}

pub open spec fn hle_bios() -> Seq<u8> {
    Seq::new(BIOS_SIZE as nat, |a: int|
        if 0x18 <= a < 0x30 { byte_of(irq_stub_word((a - 0x18) / 4), (a - 0x18) % 4) } else { 0u8 })
}

fn make_bios() -> (v: Vec<u8>)
    ensures
        v@ == hle_bios(),
{
    let mut bios = zeroed(BIOS_SIZE);
    let words: [u32; 6] = [0xE92D500F, 0xE3A00301, 0xE28FE000, 0xE510F004, 0xE8BD500F, 0xE25EF004];
    let mut i: usize = 0;
    while i < 24
        invariant
            i <= 24,
            bios@.len() == BIOS_SIZE,
            forall|k: int| 0 <= k < 6 ==> words[k] == irq_stub_word(k),
            forall|a: int| 0 <= a < BIOS_SIZE && !(0x18 <= a < 0x18 + i) ==> #[trigger] bios@[a] == 0,
            forall|a: int| 0x18 <= a < 0x18 + i ==> #[trigger] bios@[a] == byte_of(irq_stub_word((a - 0x18) / 4), (a - 0x18) % 4),
        decreases 24 - i,
    {
        let b = byte_at(words[i / 4], (i % 4) as u32);
        bios.set(0x18 + i, b);
        i = i + 1;
    }
    assert(bios@ =~= hle_bios());
    bios
}

/// Hardware reset state of the I/O block: all zero but the affine
/// parameters PA/PD of BG2 and BG3, which start at 0x0100 (identity).
pub open spec fn reset_io() -> Seq<u8> {
    Seq::new(IO_SIZE as nat, |a: int| if a == 0x21 || a == 0x27 || a == 0x31 || a == 0x37 { 1u8 } else { 0u8 })
}

impl Bus {
    pub fn new(rom: Vec<u8>) -> (b: Bus)
        ensures
            b.wf(),
            b.rom@ == rom@,
            b.bios@ == hle_bios(),
            b.io@ == reset_io(),
            b.ewram@ == Seq::new(EWRAM_SIZE as nat, |i: int| 0u8),
            b.iwram@ == Seq::new(IWRAM_SIZE as nat, |i: int| 0u8),
            b.vram@ == Seq::new(VRAM_SIZE as nat, |i: int| 0u8),
            b.save_type == detected_save_type(rom@),
            b.save@ == Seq::new(b.save_type.size() as nat, |i: int| 0xFFu8),
            !b.save_dirty,
            b.keyinput == 0x3FF,
            !b.ime && b.ie == 0 && b.if_ == 0,
            b.vcount == 0 && !b.frame_ready,
            b.line_cycles == 0 && !b.in_hblank,
            b.bg_ref == [(0i32, 0i32), (0i32, 0i32)],
            b.palette@ == Seq::new(PALETTE_SIZE as nat, |i: int| 0u8),
            b.oam@ == Seq::new(OAM_SIZE as nat, |i: int| 0u8),
            forall|i: int| 0 <= i < WIDTH * HEIGHT ==> b.ppu.framebuffer@[i] == 0,
            b.psg.ch1 == Square::powered_on() && b.psg.ch2 == Square::powered_on(),
            b.psg.ch3 == Wave::powered_on() && b.psg.ch4 == Noise::powered_on(),
            forall|i: int| 0 <= i < 32 ==> b.psg.wave_ram[i] == 0,
            b.psg.frame_timer == 0 && b.psg.frame_step == 0 && b.psg.cnt_l == 0,
            forall|t: int| 0 <= t < 4 ==> b.timer_counter[t] == 0 && b.timer_frac[t] == 0
                && b.dma_src[t] == 0 && b.dma_dst[t] == 0,
            b.flash_bank == 0 && b.flash_state == 0,
            !b.flash_id_mode && !b.flash_erase_mode && !b.flash_write_byte && !b.flash_bank_select,
            b.ee_addr_bits == 0 && b.ee_buf@.len() == 0 && !b.ee_reading && b.ee_out == 0 && b.ee_read_off == 0,
            b.fifo_a@.len() == 0 && b.fifo_b@.len() == 0 && b.sample_a == 0 && b.sample_b == 0,
            b.sample_timer == 0,
    {
        let mut io = zeroed(IO_SIZE);
        io.set(0x21, 1);
        io.set(0x27, 1);
        io.set(0x31, 1);
        io.set(0x37, 1);
        assert(io@ =~= reset_io());
        let save_type = detect_save_type(rom.as_slice());
        let save = filled(save_type.size(), save_type.fill());
        let b = Bus {
            bios: make_bios(),
            ewram: zeroed(EWRAM_SIZE),
            iwram: zeroed(IWRAM_SIZE),
            palette: zeroed(PALETTE_SIZE),
            vram: zeroed(VRAM_SIZE),
            oam: zeroed(OAM_SIZE),
            io,
            rom,
            ppu: Ppu::new(),
            psg: Psg::new(),
            ime: false,
            ie: 0,
            if_: 0,
            line_cycles: 0,
            vcount: 0,
            in_hblank: false,
            frame_ready: false,
            bg_ref: [(0, 0), (0, 0)],
            timer_counter: [0, 0, 0, 0],
            timer_frac: [0, 0, 0, 0],
            keyinput: 0x3FF,
            dma_src: [0, 0, 0, 0],
            dma_dst: [0, 0, 0, 0],
            save_type,
            save,
            save_dirty: false,
            flash_bank: 0,
            flash_state: 0,
            flash_id_mode: false,
            flash_erase_mode: false,
            flash_write_byte: false,
            flash_bank_select: false,
            ee_addr_bits: 0,
            ee_buf: Vec::new(),
            ee_reading: false,
            ee_out: 0,
            ee_read_off: 0,
            fifo_a: VecDeque::new(),
            fifo_b: VecDeque::new(),
            sample_a: 0,
            sample_b: 0,
            sample_timer: 0,
        };
        assert(refs_within(b.bg_ref, 0x0800_0000 + 0x8000 * ref_steps(b.vcount, b.in_hblank)));
        assert(forall|t: int| 0 <= t < 4 ==> #[trigger] b.timer_counter[t] <= 0xFFFF && b.timer_frac[t] < 1024);
        b
    }

    /// Halfword of the I/O block at `off`.
    pub fn io16(&self, off: usize) -> (r: u16)
        requires
            self.io@.len() == IO_SIZE,
            off + 1 < IO_SIZE,
        ensures
            r == seq_le16(self.io@, off as int),
    {
        crate::bits::read_le16(&self.io, off)
    }

    /// Word of the I/O block at `off`.
    pub fn io32(&self, off: usize) -> (r: u32)
        requires
            self.io@.len() == IO_SIZE,
            off + 3 < IO_SIZE,
        ensures
            r == crate::bits::seq_le32(self.io@, off as int),
    {
        crate::bits::read_le32(&self.io, off)
    }

    /// Raise interrupt request bits.
    pub fn request_irq(&mut self, bit: u16)
        ensures
            *final(self) == (Bus { if_: (old(self).if_ | bit) as u16, ..*old(self) }),
    {
        self.if_ = self.if_ | bit;
    }
}

} // verus!
