//! The passage of time on the bus: timers, the PSG and the output sample
//! clock on one side, scanline timing (hblank rendering, vblank, the VCOUNT
//! match) and the DMA it schedules on the other.

use vstd::prelude::*;
use crate::bitfacts::lemma_irq_bits;
use crate::bits::seq_le16;
use crate::bus::{
    Bus, CYCLES_PER_LINE, VISIBLE_LINES, TOTAL_LINES, IO_SIZE, IRQ_HBLANK, IRQ_VBLANK, IRQ_VCOUNT,
    DMA_NESTING, IRQ_TIMER0, refs_within, ref_steps,
};
use crate::dma::{dma_fires, dma_round};
use crate::io::bus_frame;
use crate::ppu::{as_i16, scanline_pixel, signed16, WIDTH};
use crate::timers::{counter_after, frac_after, carry_into, irq_kept, overflows, timer_cnt, fifo_played};

verus! {

/// Output sample rate against the 2^24 Hz CPU clock.
pub const SAMPLE_RATE: u64 = 44100;
pub const CLOCK_HZ: u64 = 0x100_0000;

/// Cycle within a line at which hblank starts.
pub const HBLANK_START: u64 = 960;

/// The affine reference points after one line: each steps by its
/// background's PB (x) and PD (y).
pub open spec fn stepped_refs(bg_ref: [(i32, i32); 2], io: Seq<u8>) -> [(i32, i32); 2] {
    [
        ((bg_ref[0].0 + as_i16(seq_le16(io, 0x22) as u32)) as i32, (bg_ref[0].1 + as_i16(seq_le16(io, 0x26) as u32)) as i32),
        ((bg_ref[1].0 + as_i16(seq_le16(io, 0x32) as u32)) as i32, (bg_ref[1].1 + as_i16(seq_le16(io, 0x36) as u32)) as i32),
    ]
}

/// Whether some DMA channel is enabled with start timing `timing`.
pub open spec fn dma_scheduled(io: Seq<u8>, timing: u16) -> bool {
    exists|ch: int| 0 <= ch < 4 && dma_fires(io, ch, timing)
}

proof fn lemma_refs_grow(r: [(i32, i32); 2], b1: int, b2: int)
    requires
        refs_within(r, b1),
        b1 <= b2,
    ensures
        refs_within(r, b2),
{
}

/// The bus after the sound side advanced by `cycles` (see `advance_sound`):
/// the sample clock, the timers, the PSG, the DirectSound FIFOs (a sample
/// played from each FIFO whose timer overflowed); the display side as it
/// was.
pub open spec fn sound_advanced(old: Bus, new: Bus, cycles: u64) -> bool {
    &&& new.sample_timer == (old.sample_timer + cycles * SAMPLE_RATE) % CLOCK_HZ as int
    &&& forall|t: int| 0 <= t < 4 ==> #[trigger] new.timer_counter[t]
        == counter_after(old, t, cycles, carry_into(old, t, cycles))
    &&& forall|t: int| 0 <= t < 4 ==> #[trigger] new.timer_frac[t] == frac_after(old, t, cycles)
    &&& new.psg == old.psg.ticked(cycles as int)
    &&& fifo_played(old, new, cycles)
    &&& new.psg.frame_timer == (old.psg.frame_timer + cycles) % 32768
    &&& new.psg.frame_step == (old.psg.frame_step + (old.psg.frame_timer + cycles) / 32768) % 8
    &&& new.io == old.io
    &&& irq_kept(old, new)
    &&& forall|t: int| 0 <= t < 4 && overflows(old, t, cycles, carry_into(old, t, cycles))
        && timer_cnt(old.io@, t) & 0x40 != 0 ==> #[trigger] (new.if_ & (IRQ_TIMER0 << (t as u16))) != 0
    &&& new.line_cycles == old.line_cycles
    &&& new.vcount == old.vcount
    &&& new.in_hblank == old.in_hblank
    &&& new.frame_ready == old.frame_ready
    &&& new.ppu == old.ppu
}

impl Bus {
    fn step_affine_refs(&mut self)
        requires
            old(self).io@.len() == IO_SIZE,
            refs_within(old(self).bg_ref, 0x0800_0000int + 0x8000 * 160),
        ensures
            *final(self) == (Bus { bg_ref: stepped_refs(old(self).bg_ref, old(self).io@), ..*old(self) }),
            refs_within(final(self).bg_ref, 0x0800_0000int + 0x8000 * 161),
    {
        let pb2 = signed16(self.io16(0x22) as u32);
        let pd2 = signed16(self.io16(0x26) as u32);
        let pb3 = signed16(self.io16(0x32) as u32);
        let pd3 = signed16(self.io16(0x36) as u32);
        let (x2, y2) = self.bg_ref[0];
        let (x3, y3) = self.bg_ref[1];
        self.bg_ref = [(x2 + pb2, y2 + pd2), (x3 + pb3, y3 + pd3)];
        assert(self.bg_ref =~= stepped_refs(old(self).bg_ref, old(self).io@));
    }

    /// Advance the timers, the PSG and the output sample clock by `cycles`;
    /// returns how many output samples (44.1 kHz) came due.
    pub fn advance_sound(&mut self, cycles: u64) -> (n: u32)
        requires
            old(self).wf(),
            cycles <= 0x7FFF_FFFF,
            old(self).psg.ch4.enabled ==> old(self).psg.ch4.timer - cycles >= i32::MIN,
        ensures
            final(self).wf(),
            n == (old(self).sample_timer + cycles * SAMPLE_RATE) / CLOCK_HZ as int,
            sound_advanced(*old(self), *final(self), cycles),
    {
        self.tick_timers(cycles);
        self.psg.tick(cycles as u32);
        let total = self.sample_timer + cycles * SAMPLE_RATE;
        self.sample_timer = total % CLOCK_HZ;
        proof {
            assert(forall|t: int| 0 <= t < 4 ==> #[trigger] self.timer_counter[t] <= 0xFFFF && self.timer_frac[t] < 1024);
        }
        (total / CLOCK_HZ) as u32
    }

    /// Hblank starts: a visible line is rendered, the affine reference
    /// points step by PB/PD and hblank DMA runs; the hblank interrupt is
    /// raised if enabled.
    #[verifier::spinoff_prover]
    #[verifier::rlimit(100)]
    fn enter_hblank(&mut self)
        requires
            old(self).wf(),
            !old(self).in_hblank,
        ensures
            final(self).wf(),
            final(self).in_hblank,
            final(self).line_cycles == old(self).line_cycles,
            final(self).vcount == old(self).vcount,
            final(self).frame_ready == old(self).frame_ready,
            final(self).sample_timer == old(self).sample_timer,
            old(self).vcount < VISIBLE_LINES ==> forall|x: int| 0 <= x < WIDTH ==> #[trigger] final(self).ppu.framebuffer@[old(self).vcount * WIDTH + x]
                == scanline_pixel(old(self).vcount, x, old(self).io@, old(self).palette@, old(self).vram@, old(self).oam@, old(self).bg_ref),
            old(self).vcount >= VISIBLE_LINES ==> final(self).ppu == old(self).ppu,
            !dma_scheduled(old(self).io@, 2) ==> {
                &&& final(self).io == old(self).io
                &&& final(self).bg_ref == (if old(self).vcount < VISIBLE_LINES { stepped_refs(old(self).bg_ref, old(self).io@) } else { old(self).bg_ref })
                &&& old(self).io@[4] & 0x10 != 0 ==> final(self).if_ & IRQ_HBLANK != 0
                &&& irq_kept(*old(self), *final(self))
            },
            exists|m: Bus, x: Bus| #[trigger] hblank_steps(*old(self), m, x, *final(self)),
    {
        self.in_hblank = true;
        let ghost mut m = *self;
        if self.vcount < VISIBLE_LINES {
            self.ppu.render_scanline(
                self.vcount,
                self.io.as_slice(),
                self.palette.as_slice(),
                self.vram.as_slice(),
                self.oam.as_slice(),
                &self.bg_ref,
            );
            self.step_affine_refs();
            proof { m = *self; }
            self.run_dma(2, DMA_NESTING);
        } else {
            proof { m = *self; }
        }
        let ghost x = *self;
        let ghost f0 = self.if_;
        if self.io[4] & 0x10 != 0 {
            self.request_irq(IRQ_HBLANK);
            proof {
                let f1 = self.if_;
                assert(f1 & IRQ_HBLANK != 0) by { lemma_irq_bits(f0, 0, 0, IRQ_HBLANK); }
            }
        }
        proof {
            assert(hblank_steps(*old(self), m, x, *self));
        }
        proof {
            let (f1, o) = (self.if_, old(self).if_);
            if !dma_scheduled(old(self).io@, 2) {
                assert(f0 == o);
                assert(f1 & o == o && (f1 != f0 ==> f1 & IRQ_HBLANK != 0)) by { lemma_irq_bits(f0, 0, o, IRQ_HBLANK); }
            }
        }
    }

    /// A line ends: the next one starts outside hblank. Line 160 starts
    /// vblank (frame ready, vblank interrupt, vblank DMA); after line 227 the
    /// frame wraps to line 0 and the reference points reload; the VCOUNT
    /// interrupt is raised when the new line matches LYC.
    #[verifier::spinoff_prover]
    #[verifier::rlimit(100)]
    fn next_line(&mut self)
        requires
            old(self).wf(),
        ensures
            final(self).wf(),
            !final(self).in_hblank,
            final(self).vcount == (if old(self).vcount + 1 >= TOTAL_LINES { 0 } else { old(self).vcount + 1 }),
            final(self).frame_ready == (old(self).frame_ready || old(self).vcount + 1 == VISIBLE_LINES),
            final(self).line_cycles == old(self).line_cycles,
            final(self).sample_timer == old(self).sample_timer,
            final(self).ppu == old(self).ppu,
            !dma_scheduled(old(self).io@, 1) ==> {
                &&& final(self).io == old(self).io
                &&& final(self).bg_ref == (if final(self).vcount == 0 { crate::io::latched_refs(old(self).io@) } else { old(self).bg_ref })
                &&& final(self).vcount == VISIBLE_LINES && old(self).io@[4] & 0x08 != 0 ==> final(self).if_ & IRQ_VBLANK != 0
                &&& final(self).vcount == old(self).io@[5] && old(self).io@[4] & 0x20 != 0 ==> final(self).if_ & IRQ_VCOUNT != 0
                &&& irq_kept(*old(self), *final(self))
            },
            exists|m: Bus, x: Bus| #[trigger] line_steps(*old(self), m, x, *final(self)),
    {
        self.line_start();
        let ghost m = *self;
        let ghost o = old(self).if_;
        let ghost f1 = self.if_;
        proof {
            lemma_irq_bits(o, 0, o, IRQ_VBLANK);
            lemma_irq_bits(o, 0, 0, IRQ_VBLANK);
        }
        if self.vcount == VISIBLE_LINES {
            self.run_dma(1, DMA_NESTING);
        }
        let ghost x = *self;
        let ghost f2 = self.if_;
        let lyc = self.io[5];
        if self.vcount == lyc as u32 && self.io[4] & 0x20 != 0 {
            self.request_irq(IRQ_VCOUNT);
            proof {
                let f3 = self.if_;
                assert(f3 & IRQ_VCOUNT != 0 && (f2 & IRQ_VBLANK != 0 ==> f3 & IRQ_VBLANK != 0)) by {
                    lemma_irq_bits(f2, f3, f2, IRQ_VCOUNT);
                    lemma_irq_bits(f2, f3, f2, IRQ_VBLANK);
                }
            }
        }
        proof {
            let f3 = self.if_;
            if !dma_scheduled(old(self).io@, 1) {
                assert(f2 == f1);
                lemma_irq_bits(f2, f3, f2, IRQ_VCOUNT);
                lemma_irq_bits(f2, f3, o, IRQ_VBLANK);
                lemma_irq_bits(f2, f3, f2, IRQ_VBLANK);
                lemma_irq_bits(f1, f1, o, IRQ_VBLANK);
                assert(f3 & o == o);
                assert(f3 != f2 ==> f3 & IRQ_VCOUNT != 0);
            }
            assert(line_steps(*old(self), m, x, *self));
        }
    }

    /// The next line starts: out of hblank, the line counter on (wrapping
    /// to 0 after line 227, with the reference points reloaded), and at line
    /// 160 the frame ready and the vblank interrupt if asked for.
    #[verifier::spinoff_prover]
    #[verifier::rlimit(60)]
    fn line_start(&mut self)
        requires
            old(self).wf(),
        ensures
            final(self).wf(),
            *final(self) == irq_if(Bus {
                in_hblank: false,
                vcount: (if old(self).vcount + 1 >= TOTAL_LINES { 0 } else { old(self).vcount + 1 }) as u32,
                bg_ref: if old(self).vcount + 1 >= TOTAL_LINES { crate::io::latched_refs(old(self).io@) } else { old(self).bg_ref },
                frame_ready: old(self).frame_ready || old(self).vcount + 1 == VISIBLE_LINES,
                ..*old(self)
            }, old(self).vcount + 1 == VISIBLE_LINES && old(self).io@[4] & 0x08 != 0, IRQ_VBLANK),
    {
        self.in_hblank = false;
        self.vcount = self.vcount + 1;
        if self.vcount >= TOTAL_LINES {
            self.vcount = 0;
            self.reload_affine_refs();
        } else {
            proof {
                lemma_refs_grow(self.bg_ref, 0x0800_0000 + 0x8000 * ref_steps(old(self).vcount, old(self).in_hblank),
                    0x0800_0000 + 0x8000 * ref_steps(self.vcount, false));
            }
            if self.vcount == VISIBLE_LINES {
                self.frame_ready = true;
                if self.io[4] & 0x08 != 0 {
                    self.request_irq(IRQ_VBLANK);
                }
            }
        }
    }

    /// Advance scanline timing by `cycles`: hblank starts when the line
    /// reaches cycle 960 (once per call, as the line stood), then every 1232
    /// cycles a line ends.
    #[verifier::spinoff_prover]
    #[verifier::rlimit(60)]
    pub fn advance_display(&mut self, cycles: u64)
        requires
            old(self).wf(),
            cycles <= 0x7FFF_FFFF,
        ensures
            final(self).wf(),
            final(self).sample_timer == old(self).sample_timer,
            display_timing(*old(self), *final(self), cycles),
            old(self).line_cycles + cycles < 2 * CYCLES_PER_LINE ==> display_advanced(*old(self), *final(self), cycles),
            !dma_scheduled(old(self).io@, 2) && !dma_scheduled(old(self).io@, 1) ==> final(self).io == old(self).io
                && irq_kept(*old(self), *final(self)),
            exists|h: Bus| #[trigger] display_steps(*old(self), h, *final(self), cycles),
    {
        let lc = self.line_cycles + cycles;
        if !self.in_hblank && lc >= HBLANK_START {
            self.enter_hblank();
        }
        let ghost mid = *self;
        let n = lc / CYCLES_PER_LINE;
        self.line_cycles = lc % CYCLES_PER_LINE;
        let ghost mid2 = *self;
        let ghost vc0 = old(self).vcount;
        let ghost d = lines_to_vblank(vc0);
        proof {
            lemma_lines_none(mid2);
        }
        if n >= 1 {
            self.next_line();
            proof {
                lemma_line_count(vc0, 0, mid2.vcount, self.vcount);
                assert(line_ended(mid2, *self)) by { reveal(line_ended); }
                lemma_lines_more(mid2, mid2, *self, 0);
                let (x, y, o) = (mid.if_, self.if_, old(self).if_);
                if !dma_scheduled(old(self).io@, 2) && !dma_scheduled(old(self).io@, 1) {
                    if !old(self).in_hblank && lc >= HBLANK_START {
                        assert(x & o == o);
                    } else {
                        lemma_irq_bits(o, 0, 0, 0);
                    }
                    lemma_irq_bits(x, y, o, IRQ_HBLANK);
                }
            }
        } else {
            proof {
                let o = old(self).if_;
                lemma_irq_bits(o, 0, 0, 0);
            }
        }
        let ghost first = *self;
        let mut k: u64 = if n >= 1 { 1 } else { 0 };
        while k < n
            invariant
                self.wf(),
                k <= n,
                n >= 1 ==> k >= 1,
                n == (old(self).line_cycles + cycles) / CYCLES_PER_LINE as int,
                n <= 1 ==> *self == first,
                lines_steps(mid2, *self, k as nat),
                self.sample_timer == old(self).sample_timer,
                self.line_cycles == mid2.line_cycles,
                vc0 == old(self).vcount,
                vc0 < TOTAL_LINES,
                self.vcount == (vc0 + k) % (TOTAL_LINES as int),
                k >= 1 ==> !self.in_hblank,
                d == lines_to_vblank(vc0),
                self.frame_ready == (mid.frame_ready || k >= d),
                !dma_scheduled(old(self).io@, 2) && !dma_scheduled(old(self).io@, 1) ==> self.io == old(self).io
                    && irq_kept(*old(self), *self),
            decreases n - k,
        {
            let ghost prev = *self;
            self.next_line();
            proof {
                if !dma_scheduled(old(self).io@, 2) && !dma_scheduled(old(self).io@, 1) {
                    lemma_irq_bits(prev.if_, self.if_, old(self).if_, 0);
                }
                lemma_line_count(vc0, k as int, prev.vcount, self.vcount);
                assert(line_ended(prev, *self)) by { reveal(line_ended); }
                lemma_lines_more(mid2, prev, *self, k as nat);
            }
            k = k + 1;
        }
        proof {
            if n >= 1 {
                assert(first.frame_ready == (mid.frame_ready || 1 >= d));
            }
            assert(display_steps(*old(self), mid, *self, cycles));
        }
    }

    /// Advance the whole bus by `cycles` CPU cycles: timers, sound and the
    /// display. Returns how many output samples came due, for the frontend
    /// to mix from the channels' current levels.
    pub fn tick(&mut self, cycles: u64) -> (n: u32)
        requires
            old(self).wf(),
            cycles <= 0x7FFF_FFFF,
            old(self).psg.ch4.enabled ==> old(self).psg.ch4.timer - cycles >= i32::MIN,
        ensures
            final(self).wf(),
            n == (old(self).sample_timer + cycles * SAMPLE_RATE) / CLOCK_HZ as int,
            final(self).sample_timer == (old(self).sample_timer + cycles * SAMPLE_RATE) % CLOCK_HZ as int,
            display_timing(*old(self), *final(self), cycles),
            !dma_scheduled(old(self).io@, 2) && !dma_scheduled(old(self).io@, 1) ==> final(self).io == old(self).io
                && irq_kept(*old(self), *final(self)),
            exists|mid: Bus| #[trigger] sound_advanced(*old(self), mid, cycles)
                && (old(self).line_cycles + cycles < 2 * CYCLES_PER_LINE ==> display_advanced(mid, *final(self), cycles))
                && exists|h: Bus| #[trigger] display_steps(mid, h, *final(self), cycles),
    {
        let n = self.advance_sound(cycles);
        let ghost mid = *self;
        self.advance_display(cycles);
        proof {
            assert(sound_advanced(*old(self), mid, cycles));
            lemma_irq_bits(mid.if_, self.if_, old(self).if_, 0);
        }
        n
    }
}

/// The bus with `bit` requested in IF when `on`.
pub open spec fn irq_if(b: Bus, on: bool, bit: u16) -> Bus {
    if on { Bus { if_: (b.if_ | bit) as u16, ..b } } else { b }
}

/// Entering hblank, step by step: the flag set, a visible line rendered
/// and the affine reference points stepped (to `m`); then, on a visible
/// line, the hblank DMA round (to `x`); then the hblank interrupt if
/// DISPSTAT (as the DMA left it) asks for it.
pub open spec fn hblank_steps(old: Bus, m: Bus, x: Bus, new: Bus) -> bool {
    &&& m == (Bus { in_hblank: true, ppu: m.ppu,
        bg_ref: if old.vcount < VISIBLE_LINES { stepped_refs(old.bg_ref, old.io@) } else { old.bg_ref }, ..old })
    &&& old.vcount < VISIBLE_LINES ==> exists|cs: Seq<Bus>| #[trigger] dma_round(m, x, 2, cs)
    &&& old.vcount >= VISIBLE_LINES ==> x == m
    &&& new == irq_if(x, x.io@[4] & 0x10 != 0, IRQ_HBLANK)
}

/// Ending a line, step by step: the next line outside hblank (after line
/// 227, line 0 with the reference points reloaded); at line 160 the frame
/// ready and the vblank interrupt if asked for (to `m`), then the vblank
/// DMA round (to `x`); then the VCOUNT interrupt when the line matches LYC.
pub open spec fn line_steps(old: Bus, m: Bus, x: Bus, new: Bus) -> bool {
    let nv = if old.vcount + 1 >= TOTAL_LINES { 0 } else { old.vcount + 1 };
    &&& m == irq_if(Bus {
        in_hblank: false,
        vcount: nv as u32,
        bg_ref: if nv == 0 { crate::io::latched_refs(old.io@) } else { old.bg_ref },
        frame_ready: old.frame_ready || nv == VISIBLE_LINES,
        ..old
    }, nv == VISIBLE_LINES && old.io@[4] & 0x08 != 0, IRQ_VBLANK)
    &&& nv == VISIBLE_LINES ==> exists|cs: Seq<Bus>| #[trigger] dma_round(m, x, 1, cs)
    &&& nv != VISIBLE_LINES ==> x == m
    &&& new == irq_if(x, x.vcount == x.io@[5] as u32 && x.io@[4] & 0x20 != 0, IRQ_VCOUNT)
}

/// Lines from `vcount` until line 160 (vblank) starts.
pub open spec fn lines_to_vblank(vcount: u32) -> int {
    if vcount < VISIBLE_LINES { VISIBLE_LINES - vcount } else { VISIBLE_LINES + TOTAL_LINES - vcount }
}

/// `b` is `a` after a line end, as [`line_steps`] says.
#[verifier::opaque]
pub open spec fn line_ended(a: Bus, b: Bus) -> bool {
    exists|m: Bus, x: Bus| #[trigger] line_steps(a, m, x, b)
}

/// Each state in `bs` is the one before it after a line end.
pub open spec fn lines_trace(bs: Seq<Bus>) -> bool {
    forall|i: int| 0 <= i < bs.len() - 1 ==> #[trigger] line_ended(bs[i], bs[i + 1])
}

/// `n` lines ended one after another, each as [`line_steps`] says.
pub open spec fn lines_steps(old: Bus, new: Bus, n: nat) -> bool {
    exists|bs: Seq<Bus>| #[trigger] lines_trace(bs) && bs.len() == n + 1 && bs[0] == old && bs[n as int] == new
}

proof fn lemma_lines_none(a: Bus)
    ensures
        lines_steps(a, a, 0),
{
    let bs = seq![a];
    assert(lines_trace(bs));
}

proof fn lemma_lines_more(a: Bus, p: Bus, b: Bus, n: nat)
    requires
        lines_steps(a, p, n),
        line_ended(p, b),
    ensures
        lines_steps(a, b, n + 1),
{
    let bs = choose|bs: Seq<Bus>| #[trigger] lines_trace(bs) && bs.len() == n + 1 && bs[0] == a && bs[n as int] == p;
    let cs = bs.push(b);
    assert forall|i: int| 0 <= i < cs.len() - 1 implies #[trigger] line_ended(cs[i], cs[i + 1]) by {
        if i < n {
            assert(cs[i] == bs[i] && cs[i + 1] == bs[i + 1]);
            assert(line_ended(bs[i], bs[i + 1]));
        } else {
            assert(cs[i] == p && cs[i + 1] == b);
        }
    }
    assert(lines_trace(cs));
    assert(cs[0] == a && cs[(n + 1) as int] == b);
}

proof fn lemma_line_count(vc0: u32, k: int, vc: u32, vc1: u32)
    requires
        vc0 < TOTAL_LINES,
        0 <= k,
        vc == (vc0 + k) % (TOTAL_LINES as int),
        vc1 == (if vc + 1 >= TOTAL_LINES { 0 } else { vc + 1 }),
    ensures
        vc1 == (vc0 + k + 1) % (TOTAL_LINES as int),
        k < lines_to_vblank(vc0) ==> ((vc + 1 == VISIBLE_LINES) == (k + 1 == lines_to_vblank(vc0))),
{
    let x = vc0 + k;
    let q = x / 228;
    vstd::arithmetic::div_mod::lemma_fundamental_div_mod(x, 228);
    if vc + 1 < 228 {
        vstd::arithmetic::div_mod::lemma_fundamental_div_mod_converse(x + 1, 228, q, vc + 1);
    } else {
        vstd::arithmetic::div_mod::lemma_fundamental_div_mod_converse(x + 1, 228, q + 1, 0);
    }
    if k < lines_to_vblank(vc0) {
        if x < 228 {
            vstd::arithmetic::div_mod::lemma_fundamental_div_mod_converse(x, 228, 0, x);
        } else {
            vstd::arithmetic::div_mod::lemma_fundamental_div_mod_converse(x, 228, 1, x - 228);
        }
    }
}

/// The display advanced by `cycles`, step by step: hblank entered (to `h`)
/// when the line reaches cycle 960, as [`hblank_steps`] says; then, for
/// every 1232 cycles the line has reached, a line ended as [`line_steps`]
/// says.
pub open spec fn display_steps(old: Bus, h: Bus, new: Bus, cycles: u64) -> bool {
    let lc = old.line_cycles + cycles;
    &&& if !old.in_hblank && lc >= HBLANK_START {
        exists|m: Bus, x: Bus| #[trigger] hblank_steps(old, m, x, h)
    } else {
        h == old
    }
    &&& lines_steps(Bus { line_cycles: (lc % CYCLES_PER_LINE as int) as u64, ..h }, new,
        (lc / CYCLES_PER_LINE as int) as nat)
}

/// Line position after `cycles`: the line counter, the line, hblank, and
/// the frame-ready flag (set once line 160 is reached).
pub open spec fn display_timing(old: Bus, new: Bus, cycles: u64) -> bool {
    let lc = old.line_cycles + cycles;
    let n = lc / CYCLES_PER_LINE as int;
    &&& new.line_cycles == lc % CYCLES_PER_LINE as int
    &&& new.vcount == (old.vcount + n) % TOTAL_LINES as int
    &&& new.in_hblank == (n == 0 && (old.in_hblank || lc >= HBLANK_START))
    &&& new.frame_ready == (old.frame_ready || n >= lines_to_vblank(old.vcount))
}

/// The bus after the display advanced by `cycles` (see `advance_display`):
/// the line position; the rendered line; and, where no hblank or vblank DMA
/// is scheduled to disturb them, the reference points and the interrupts.
pub open spec fn display_advanced(old: Bus, new: Bus, cycles: u64) -> bool {
    let lc = old.line_cycles + cycles;
    let hblank = !old.in_hblank && lc >= HBLANK_START;
    let renders = hblank && old.vcount < VISIBLE_LINES;
    let line_end = lc >= CYCLES_PER_LINE;
    let next_line = if old.vcount + 1 >= TOTAL_LINES { 0 } else { old.vcount + 1 };
    let undisturbed = !dma_scheduled(old.io@, 2) && !dma_scheduled(old.io@, 1);
    &&& display_timing(old, new, cycles)
    &&& renders ==> forall|x: int| 0 <= x < WIDTH ==> #[trigger] new.ppu.framebuffer@[old.vcount * WIDTH + x]
        == scanline_pixel(old.vcount, x, old.io@, old.palette@, old.vram@, old.oam@, old.bg_ref)
    &&& undisturbed ==> {
        &&& new.io == old.io
        &&& new.bg_ref == (if line_end && next_line == 0 {
            crate::io::latched_refs(old.io@)
        } else if renders {
            stepped_refs(old.bg_ref, old.io@)
        } else {
            old.bg_ref
        })
        &&& hblank && old.io@[4] & 0x10 != 0 ==> new.if_ & IRQ_HBLANK != 0
        &&& line_end && next_line == VISIBLE_LINES && old.io@[4] & 0x08 != 0 ==> new.if_ & IRQ_VBLANK != 0
        &&& line_end && next_line == old.io@[5] && old.io@[4] & 0x20 != 0 ==> new.if_ & IRQ_VCOUNT != 0
        &&& irq_kept(old, new)
    }
}

} // verus!
