//! I/O register writes and the DMA controller.

use vstd::prelude::*;
use crate::bitfacts::{lemma_irq_bits, lemma_irq_shift};
use crate::bits::{le16, le32, seq_le16, seq_le32, pack16, byte_at, byte_of};
use crate::bus::{Bus, IO_SIZE, BIOS_SIZE, IRQ_DMA0, refs_within, ref_steps};
use crate::io::{bus_frame, io_written, starts_dma, latched_refs, timer_ctl_written, sound_reg_written, fifo_byte_written, irq_reg_written};
use crate::mem::{eeprom_port, load16, load32, read_frame, read16_next};
use crate::store::{wrote16_plain, wrote32_plain};
use crate::cart::ee_dma_begun;

verus! {

impl Bus {
    #[verifier::spinoff_prover]
    #[verifier::rlimit(100)]
    fn io_store_plain(&mut self, off: u32, val: u8)
        requires
            old(self).wf(),
            off < IO_SIZE,
        ensures
            final(self).wf(),
            *final(self) == (Bus { io: final(self).io, bg_ref: final(self).bg_ref, ..*old(self) }),
            final(self).io@ == old(self).io@.update(off as int, val),
            final(self).bg_ref == (if (0x28 <= off < 0x30) || (0x38 <= off < 0x40) {
                latched_refs(final(self).io@)
            } else {
                old(self).bg_ref
            }),
    {
        self.io.set(off as usize, val);
        // Affine reference writes reload the internal accumulators.
        if (0x28 <= off && off < 0x30) || (0x38 <= off && off < 0x40) {
            self.reload_affine_refs();
        }
        proof {
            assert(forall|t: int| 0 <= t < 4 ==> #[trigger] self.timer_counter[t] == old(self).timer_counter[t]);
        }
    }

    #[verifier::spinoff_prover]
    #[verifier::rlimit(100)]
    fn io_store_timer(&mut self, off: u32, val: u8)
        requires
            old(self).wf(),
            off == 0x102 || off == 0x106 || off == 0x10A || off == 0x10E,
        ensures
            final(self).wf(),
            timer_ctl_written(*old(self), *final(self), off, val),
    {
        let t = ((off - 0x102) / 4) as usize;
        let was = self.io[off as usize] & 0x80;
        let reload = self.io16(0x100 + t * 4) as u32;
        self.io.set(off as usize, val);
        if was == 0 && val & 0x80 != 0 {
            self.timer_counter[t] = reload;
            self.timer_frac[t] = 0;
            proof {
                assert(self.timer_counter@ =~= old(self).timer_counter@.update(t as int, reload));
                assert(self.timer_frac@ =~= old(self).timer_frac@.update(t as int, 0));
            }
        } else {
            proof {
                assert(self.timer_counter@ =~= old(self).timer_counter@);
                assert(self.timer_frac@ =~= old(self).timer_frac@);
            }
        }
    }

    #[verifier::spinoff_prover]
    #[verifier::rlimit(100)]
    fn io_store_sound(&mut self, off: u32, val: u8)
        requires
            old(self).wf(),
            (0x060 <= off <= 0x081) || (0x090 <= off <= 0x09F),
            off != 0x083,
        ensures
            final(self).wf(),
            sound_reg_written(*old(self), *final(self), off, val),
    {
        self.psg.write(off, val);
        self.io.set(off as usize, val);  // SOUNDCNT_H etc. still visible via io[]
        proof {
            assert(forall|t: int| 0 <= t < 4 ==> #[trigger] self.timer_counter[t] == old(self).timer_counter[t]);
        }
    }

    #[verifier::spinoff_prover]
    #[verifier::rlimit(100)]
    fn io_store_fifo(&mut self, off: u32, val: u8)
        requires
            old(self).wf(),
            (0x0A0 <= off <= 0x0A7) || off == 0x083,
        ensures
            final(self).wf(),
            fifo_byte_written(*old(self), *final(self), off, val),
    {
        if off == 0x083 {
            self.io.set(0x83, val);
            // FIFO reset bits (11/15 of SOUNDCNT_H: bits 3/7 of the high byte).
            if val & 0x08 != 0 {
                self.fifo_a.clear();
                assert(self.fifo_a@ =~= Seq::<i8>::empty());
            }
            if val & 0x80 != 0 {
                self.fifo_b.clear();
                assert(self.fifo_b@ =~= Seq::<i8>::empty());
            }
        } else if off <= 0x0A3 {
            if self.fifo_a.len() < 32 {
                self.fifo_a.push_back(val as i8);
                assert(self.fifo_a@ =~= old(self).fifo_a@.push(val as i8));
            }
        } else {
            if self.fifo_b.len() < 32 {
                self.fifo_b.push_back(val as i8);
                assert(self.fifo_b@ =~= old(self).fifo_b@.push(val as i8));
            }
        }
        proof {
            assert(forall|t: int| 0 <= t < 4 ==> #[trigger] self.timer_counter[t] == old(self).timer_counter[t]);
        }
    }

    #[verifier::spinoff_prover]
    #[verifier::rlimit(100)]
    fn io_store_irq(&mut self, off: u32, val: u8)
        requires
            old(self).wf(),
            off == 0x200 || off == 0x201 || off == 0x202 || off == 0x203 || off == 0x208,
        ensures
            final(self).wf(),
            irq_reg_written(*old(self), *final(self), off, val),
    {
        let ghost b = *old(self);
        if off == 0x202 {
            self.if_ = self.if_ & !(val as u16);  // write-1-to-clear
            assert(*self == (Bus { if_: b.if_ & !(val as u16), ..b }));
        } else if off == 0x203 {
            self.if_ = self.if_ & !((val as u16) << 8);
            assert(*self == (Bus { if_: b.if_ & !((val as u16) << 8u16), ..b }));
        } else if off == 0x200 {
            self.ie = (self.ie & 0xFF00) | val as u16;
            assert(*self == (Bus { ie: (b.ie & 0xFF00) | (val as u16), ..b }));
        } else if off == 0x201 {
            self.ie = (self.ie & 0x00FF) | ((val as u16 & 0x3F) << 8);
            assert(*self == (Bus { ie: (b.ie & 0x00FF) | (((val as u16) & 0x3F) << 8u16), ..b }));
        } else {
            self.ime = val & 1 != 0;
        }
        proof { lemma_wf_irq_regs(*old(self), *self); }
    }

    /// I/O register byte write.
    #[verifier::spinoff_prover]
    #[verifier::rlimit(100)]
    pub(crate) fn io_write(&mut self, off: u32, val: u8, depth: u32)
        requires
            old(self).wf(),
        ensures
            final(self).wf(),
            bus_frame(*old(self), *final(self)),
            !starts_dma(off, val) ==> io_written(*old(self), *final(self), off, val),
            starts_dma(off, val) ==> exists|m1: Bus, m2: Bus| #[trigger] dma_start_steps(*old(self), m1, m2, *final(self), off, val),
            starts_dma(off, val) && depth > 0 ==> exists|m1: Bus, m2: Bus|
                #[trigger] dma_start_ran(*old(self), m1, m2, *final(self), off, val),
        decreases depth, 3nat,
    {
        proof { reveal(io_written); }
        if off == 0x006 || off == 0x007 {
            // VCOUNT read-only
        } else if off == 0x102 || off == 0x106 || off == 0x10A || off == 0x10E {
            self.io_store_timer(off, val);
        } else if (0x0A0 <= off && off <= 0x0A7) || off == 0x083 {
            self.io_store_fifo(off, val);
        } else if (0x060 <= off && off <= 0x081) || (0x090 <= off && off <= 0x09F) {
            self.io_store_sound(off, val);
        } else if off == 0x200 || off == 0x201 || off == 0x202 || off == 0x203 || off == 0x208 {
            self.io_store_irq(off, val);
        } else if off < IO_SIZE as u32 {
            self.io_store_plain(off, val);
            // DMA enable rising edge: latch SAD/DAD like hardware, and fire
            // immediately-timed transfers.
            if (off == 0xBB || off == 0xC7 || off == 0xD3 || off == 0xDF) && val & 0x80 != 0 {
                let ghost m1 = *self;
                self.latch_dma(((off - 0xBB) / 12) as usize);
                let ghost m2 = *self;
                if depth > 0 {
                    self.run_dma(0, depth);
                }
                proof {
                    assert(dma_start_steps(*old(self), m1, m2, *self, off, val));
                    if depth > 0 {
                        assert(dma_start_ran(*old(self), m1, m2, *self, off, val));
                    }
                }
            }
        }
    }

    /// Latch a channel's SAD/DAD registers into its internal address latches.
    fn latch_dma(&mut self, ch: usize)
        requires
            old(self).wf(),
            ch < 4,
        ensures
            final(self).wf(),
            dma_latched(*old(self), *final(self), ch as int),
    {
        let base = 0xB0 + ch * 12;
        self.dma_src[ch] = self.io32(base);
        self.dma_dst[ch] = self.io32(base + 4);
        proof {
            assert(forall|t: int| 0 <= t < 4 ==> #[trigger] self.timer_counter[t] == old(self).timer_counter[t]);
        }
    }

    /// Run all enabled DMA channels whose start timing matches
    /// (0 = immediate, 1 = vblank, 2 = hblank).
    pub(crate) fn run_dma(&mut self, timing: u16, depth: u32)
        requires
            old(self).wf(),
            depth >= 1,
        ensures
            final(self).wf(),
            bus_frame(*old(self), *final(self)),
            (forall|ch: int| 0 <= ch < 4 ==> !dma_fires(old(self).io@, ch, timing)) ==> *final(self) == *old(self),
            exists|cs: Seq<Bus>| #[trigger] dma_round(*old(self), *final(self), timing, cs),
        decreases depth, 2nat,
    {
        let ghost mut cs: Seq<Bus> = seq![*self];
        let mut ch: usize = 0;
        while ch < 4
            invariant
                ch <= 4,
                depth >= 1,
                self.wf(),
                bus_frame(*old(self), *self),
                (forall|k: int| 0 <= k < 4 ==> !dma_fires(old(self).io@, k, timing)) ==> *self == *old(self),
                cs.len() == ch + 1,
                cs[0] == *old(self),
                cs[ch as int] == *self,
                forall|k: int| 0 <= k < ch ==> #[trigger] channel_ran(cs[k], cs[k + 1], k, timing),
            decreases 4 - ch,
        {
            let ghost before = *self;
            self.run_dma_channel(ch, timing, depth);
            proof {
                assert(channel_ran(before, *self, ch as int, timing)) by {
                    reveal(channel_ran);
                }
                let prev = cs;
                cs = cs.push(*self);
                assert forall|k: int| 0 <= k < ch + 1 implies #[trigger] channel_ran(cs[k], cs[k + 1], k, timing) by {
                    if k < ch {
                        assert(channel_ran(prev[k], prev[k + 1], k, timing));
                    }
                }
            }
            ch = ch + 1;
        }
        proof {
            assert(dma_round(*old(self), *self, timing, cs));
        }
    }

    /// One channel's transfer, if it is enabled with this start timing.
    #[verifier::spinoff_prover]
    #[verifier::rlimit(100)]
    fn run_dma_channel(&mut self, ch: usize, timing: u16, depth: u32)
        requires
            old(self).wf(),
            ch < 4,
            depth >= 1,
        ensures
            final(self).wf(),
            bus_frame(*old(self), *final(self)),
            !dma_fires(old(self).io@, ch as int, timing) ==> *final(self) == *old(self),
            dma_fires(old(self).io@, ch as int, timing) ==> dma_finished(*old(self), *final(self), ch as int, timing),
            dma_fires(old(self).io@, ch as int, timing) ==> exists|bs: Seq<Bus>, rs: Seq<Bus>, vs: Seq<u32>|
                #[trigger] dma_moved(*old(self), *final(self), ch as int, timing, bs, rs, vs),
        decreases depth, 1nat,
    {
        proof {
            reveal(dma_moved);
            reveal(dma_finished);
        }
        let base = 0xB0 + ch * 12;
        let cnt = self.io16(base + 10);
        if cnt & 0x8000 == 0 || (cnt >> 12 & 3) != timing {
            return;
        }
        let src = self.dma_src[ch];
        // Destination "increment+reload" mode re-latches DAD each trigger.
        let dst = if cnt >> 5 & 3 == 3 { self.io32(base + 4) } else { self.dma_dst[ch] };
        let mut count = self.io16(base + 8) as u32;
        if count == 0 {
            count = if ch == 3 { 0x10000 } else { 0x4000 };
        }
        // EEPROM is clocked bit-serially by DMA3. The length of the first
        // transfer into the chip is what reveals its address width.
        if ch == 3 && dst >> 24 == 0x0D && self.eeprom_selected(dst) {
            self.eeprom_dma_begin(count);
        }
        let word = cnt & 0x0400 != 0;
        let s = if word { src & !3 } else { src & !1 };
        let d = if word { dst & !3 } else { dst & !1 };
        let (s, d, trace) = self.move_units(cnt, s, d, count, depth);
        self.finish_transfer(ch, cnt, s, d, timing);
        proof {
            assert(dma_moved(*old(self), *self, ch as int, timing, trace@.0, trace@.1, trace@.2));
        }
    }

    /// After a transfer: the channel's internal latches (the visible
    /// registers are write-only on hardware and keep their programmed
    /// values), its interrupt, and its enable bit.
    #[verifier::spinoff_prover]
    #[verifier::rlimit(80)]
    fn finish_transfer(&mut self, ch: usize, cnt: u16, s: u32, d: u32, timing: u16)
        requires
            old(self).wf(),
            ch < 4,
        ensures
            final(self).wf(),
            *final(self) == (Bus { dma_src: final(self).dma_src, dma_dst: final(self).dma_dst, if_: final(self).if_,
                io: final(self).io, ..*old(self) }),
            final(self).dma_src[ch as int] == s,
            (cnt >> 5u16) & 3 != 3 ==> final(self).dma_dst[ch as int] == d,
            cnt & 0x4000 != 0 ==> final(self).if_ & (IRQ_DMA0 << (ch as u16)) != 0,
            (cnt & 0x0200 == 0 || timing == 0) ==> dma_cnt(final(self).io@, ch as int) == cnt & !0x8000u16,
            dma_closed(*old(self), *final(self), ch as int, cnt, timing, s, d),
    {
        self.set_latches(ch, s, d, cnt >> 5 & 3 != 3);
        if cnt & 0x4000 != 0 {
            let bit = IRQ_DMA0 << (ch as u16);
            let ghost before = *self;
            let ghost f0 = self.if_;
            self.request_irq(bit);
            proof {
                lemma_irq_bits(f0, 0, 0, bit);
                lemma_irq_shift(ch as u16);
                lemma_wf_irq_regs(before, *self);
            }
        }
        if cnt & 0x0200 == 0 || timing == 0 {
            self.clear_enable(ch, cnt & !0x8000);
        }
    }

    /// Set a channel's internal source latch, and its destination latch
    /// when `set_dst`.
    fn set_latches(&mut self, ch: usize, s: u32, d: u32, set_dst: bool)
        requires
            old(self).wf(),
            ch < 4,
        ensures
            final(self).wf(),
            *final(self) == (Bus { dma_src: final(self).dma_src, dma_dst: final(self).dma_dst, ..*old(self) }),
            final(self).dma_src@ == old(self).dma_src@.update(ch as int, s),
            final(self).dma_dst@ == (if set_dst { old(self).dma_dst@.update(ch as int, d) } else { old(self).dma_dst@ }),
    {
        self.dma_src[ch] = s;
        if set_dst {
            self.dma_dst[ch] = d;
        }
        proof {
            assert(forall|t: int| 0 <= t < 4 ==> #[trigger] self.timer_counter[t] == old(self).timer_counter[t]);
        }
    }

    /// Write a channel's control register (as the channel itself does when
    /// it clears its enable bit).
    #[verifier::spinoff_prover]
    #[verifier::rlimit(80)]
    fn clear_enable(&mut self, ch: usize, ncnt: u16)
        requires
            old(self).wf(),
            ch < 4,
        ensures
            final(self).wf(),
            *final(self) == (Bus { io: final(self).io, ..*old(self) }),
            dma_cnt(final(self).io@, ch as int) == ncnt,
            final(self).io@ == with_dma_cnt(old(self).io@, ch as int, ncnt),
    {
        let base = 0xB0 + ch * 12;
        self.io.set(base + 10, byte_at(ncnt as u32, 0));
        self.io.set(base + 11, byte_at(ncnt as u32, 1));
        proof {
            lemma_le16_bytes(ncnt);
            assert(forall|t: int| 0 <= t < 4 ==> #[trigger] self.timer_counter[t] == old(self).timer_counter[t]);
        }
    }

    /// The units of one transfer: `count` reads from `s0` and stores to `d0`,
    /// the addresses stepping as the control `cnt` says. Returns the
    /// addresses after the last unit.
    #[verifier::spinoff_prover]
    #[verifier::rlimit(80)]
    fn move_units(&mut self, cnt: u16, s0: u32, d0: u32, count: u32, depth: u32)
        -> (r: (u32, u32, Ghost<(Seq<Bus>, Seq<Bus>, Seq<u32>)>))
        requires
            old(self).wf(),
            depth >= 1,
        ensures
            final(self).wf(),
            bus_frame(*old(self), *final(self)),
            r.0 == walk(s0, (cnt >> 7u16) & 3, dma_unit(cnt), count as nat),
            r.1 == walk(d0, dma_dst_step(cnt), dma_unit(cnt), count as nat),
            units_moved(r.2@.0, r.2@.1, r.2@.2, count as nat, cnt, s0, d0),
            r.2@.0[0] == *old(self),
            r.2@.0[count as int] == *final(self),
        decreases depth, 0nat,
    {
        let word = cnt & 0x0400 != 0;
        let unit: u32 = if word { 4 } else { 2 };
        let src_ctl = cnt >> 7 & 3;
        let d_walk: u16 = if cnt >> 5 & 3 == 3 { 0 } else { cnt >> 5 & 3 };
        let mut s = s0;
        let mut d = d0;
        let ghost mut bs: Seq<Bus> = seq![*self];
        let ghost mut rs: Seq<Bus> = Seq::empty();
        let ghost mut vs: Seq<u32> = Seq::empty();
        let mut i: u32 = 0;
        while i < count
            invariant
                i <= count,
                depth >= 1,
                unit == dma_unit(cnt),
                word == (cnt & 0x0400 != 0),
                src_ctl == (cnt >> 7u16) & 3,
                d_walk == dma_dst_step(cnt),
                self.wf(),
                bus_frame(*old(self), *self),
                s == walk(s0, src_ctl, unit, i as nat),
                d == walk(d0, d_walk, unit, i as nat),
                units_moved(bs, rs, vs, i as nat, cnt, s0, d0),
                bs[0] == *old(self),
                bs[i as int] == *self,
            decreases count - i,
        {
            let ghost b = *self;
            let v: u32;
            let ghost r: Bus;
            if word {
                v = self.read32(s);
                proof { r = *self; }
                self.store32(d, v, depth - 1);
            } else {
                let h = self.read16(s);
                proof { r = *self; }
                v = h as u32;
                self.store16(d, h, depth - 1);
            }
            proof {
                assert(unit_moved(b, r, *self, v, cnt, s, d));
                let (pb, pr, pv) = (bs, rs, vs);
                bs = bs.push(*self);
                rs = rs.push(r);
                vs = vs.push(v);
                assert forall|k: int| 0 <= k < i + 1 implies #[trigger] unit_moved(bs[k], rs[k], bs[k + 1], vs[k], cnt,
                    walk(s0, src_ctl, unit, k as nat), walk(d0, d_walk, unit, k as nat)) by {
                    if k < i {
                        assert(unit_moved(pb[k], pr[k], pb[k + 1], pv[k], cnt,
                            walk(s0, src_ctl, unit, k as nat), walk(d0, d_walk, unit, k as nat)));
                    }
                }
            }
            s = advance_exec(s, src_ctl, unit);
            d = advance_exec(d, d_walk, unit);
            i = i + 1;
        }
        (s, d, Ghost((bs, rs, vs)))
    }
}

proof fn lemma_wf_irq_regs(old: Bus, new: Bus)
    requires
        old.wf(),
        new == (Bus { if_: new.if_, ie: new.ie, ime: new.ime, ..old }),
    ensures
        new.wf(),
{
    assert(new.bios@.len() == BIOS_SIZE);
    assert(new.ppu.wf() && new.psg.wf());
    assert(refs_within(new.bg_ref, 0x0800_0000 + 0x8000 * ref_steps(new.vcount, new.in_hblank)));
    assert(forall|t: int| 0 <= t < 4 ==> #[trigger] new.timer_counter[t] <= 0xFFFF && new.timer_frac[t] < 1024);
    assert(forall|i: int| 0 <= i < new.ee_buf@.len() ==> #[trigger] new.ee_buf@[i] <= 1);
    assert(new.save@.len() == new.save_type.size());
}

/// Halfword control register of DMA channel `ch`.
pub open spec fn dma_cnt(io: Seq<u8>, ch: int) -> u16 {
    seq_le16(io, 0xB0 + 12 * ch + 10)
}

/// Whether channel `ch` is enabled with start timing `timing`.
pub open spec fn dma_fires(io: Seq<u8>, ch: int, timing: u16) -> bool {
    let cnt = dma_cnt(io, ch);
    cnt & 0x8000 != 0 && (cnt >> 12u16) & 3 == timing
}

/// Units one transfer of channel `ch` moves: a count of 0 means the maximum.
pub open spec fn dma_length(io: Seq<u8>, ch: int) -> nat {
    let c = seq_le16(io, 0xB0 + 12 * ch + 8);
    if c != 0 { c as nat } else if ch == 3 { 0x10000 } else { 0x4000 }
}

/// Bytes per unit: words or halfwords.
pub open spec fn dma_unit(cnt: u16) -> u32 {
    if cnt & 0x0400 != 0 { 4 } else { 2 }
}

/// An address rounded down to the unit.
pub open spec fn dma_align(a: u32, cnt: u16) -> u32 {
    if cnt & 0x0400 != 0 { a & !3u32 } else { a & !1u32 }
}

/// One address step: 0 increments, 1 decrements (both wrapping), others hold.
pub open spec fn advance(a: u32, ctl: u16, unit: u32) -> u32 {
    if ctl == 0 {
        ((a + unit) % 0x1_0000_0000) as u32
    } else if ctl == 1 {
        ((a - unit) % 0x1_0000_0000) as u32
    } else {
        a
    }
}

/// The address after `n` steps.
pub open spec fn walk(a: u32, ctl: u16, unit: u32, n: nat) -> u32
    decreases n,
{
    if n == 0 { a } else { advance(walk(a, ctl, unit, (n - 1) as nat), ctl, unit) }
}

/// The step of a channel's destination address: as its control says, but
/// held for the increment-and-reload mode within one transfer.
pub open spec fn dma_dst_step(cnt: u16) -> u16 {
    if (cnt >> 5u16) & 3 == 3 { 0 } else { (cnt >> 5u16) & 3 }
}

/// Where channel `ch` starts writing: DAD itself in increment-and-reload
/// mode, the latched destination otherwise.
pub open spec fn dma_dst0(b: Bus, ch: int) -> u32 {
    if (dma_cnt(b.io@, ch) >> 5u16) & 3 == 3 { seq_le32(b.io@, 0xB0 + 12 * ch + 4) } else { b.dma_dst[ch] }
}

/// One unit of a transfer: read at `s` from bus `b` (leaving `r`, which
/// differs from `b` only at the EEPROM port), and `v` stored at `d`,
/// leaving `after`.
pub open spec fn unit_moved(b: Bus, r: Bus, after: Bus, v: u32, cnt: u16, s: u32, d: u32) -> bool {
    if cnt & 0x0400 != 0 {
        &&& read_frame(b, r)
        &&& !eeprom_port(b, s) ==> r == b && v == load32(b, s)
        &&& wrote32_plain(r, after, d, v)
    } else {
        &&& read16_next(b, r, s)
        &&& v == load16(b, s) as u32
        &&& wrote16_plain(r, after, d, v as u16)
    }
}

/// The `n` units of a transfer with control `cnt`, the bus passing through
/// `bs`: unit `k` is read at the `k`-th step from `s0` and stored at the
/// `k`-th step from `d0`.
pub open spec fn units_moved(bs: Seq<Bus>, rs: Seq<Bus>, vs: Seq<u32>, n: nat, cnt: u16, s0: u32, d0: u32) -> bool {
    &&& bs.len() == n + 1
    &&& rs.len() == n
    &&& vs.len() == n
    &&& forall|k: int| 0 <= k < n ==> #[trigger] unit_moved(bs[k], rs[k], bs[k + 1], vs[k], cnt,
        walk(s0, (cnt >> 7u16) & 3, dma_unit(cnt), k as nat), walk(d0, dma_dst_step(cnt), dma_unit(cnt), k as nat))
}

/// The data a transfer of channel `ch` moves: from the bus as it starts
/// (for DMA3 into the EEPROM, with the chip told the transfer's length),
/// its units read and stored in turn; after the last one the transfer
/// closes as [`dma_closed`] says.
#[verifier::opaque]
pub open spec fn dma_moved(old: Bus, new: Bus, ch: int, timing: u16, bs: Seq<Bus>, rs: Seq<Bus>, vs: Seq<u32>) -> bool {
    &&& (if ch == 3 && dma_dst0(old, ch) >> 24u32 == 0x0D && old.eeprom_at(dma_dst0(old, ch)) {
        ee_dma_begun(old, bs[0], dma_length(old.io@, ch))
    } else {
        bs[0] == old
    })
    &&& units_moved(bs, rs, vs, dma_length(old.io@, ch), dma_cnt(old.io@, ch),
        dma_align(old.dma_src[ch], dma_cnt(old.io@, ch)), dma_align(dma_dst0(old, ch), dma_cnt(old.io@, ch)))
    &&& dma_closed(bs[dma_length(old.io@, ch) as int], new, ch, dma_cnt(old.io@, ch), timing,
        walk(dma_align(old.dma_src[ch], dma_cnt(old.io@, ch)), (dma_cnt(old.io@, ch) >> 7u16) & 3,
            dma_unit(dma_cnt(old.io@, ch)), dma_length(old.io@, ch)),
        walk(dma_align(dma_dst0(old, ch), dma_cnt(old.io@, ch)), dma_dst_step(dma_cnt(old.io@, ch)),
            dma_unit(dma_cnt(old.io@, ch)), dma_length(old.io@, ch)))
}

/// The I/O bytes with channel `ch`'s control halfword set to `v`.
pub open spec fn with_dma_cnt(io: Seq<u8>, ch: int, v: u16) -> Seq<u8> {
    io.update(0xB0 + 12 * ch + 10, byte_of(v as u32, 0)).update(0xB0 + 12 * ch + 11, byte_of(v as u32, 1))
}

/// How a transfer of channel `ch` with control `cnt` closes, from the bus
/// `end` after its last unit to `new`: the channel's internal source latch
/// set to `s`, its destination latch to `d` (unless it reloads DAD on each
/// start), its interrupt bit added to IF if asked for, and its control
/// halfword written with the enable bit cleared unless the channel repeats
/// on a later start. No other I/O byte changes: SAD, DAD and the count
/// keep what was written to them.
pub open spec fn dma_closed(end: Bus, new: Bus, ch: int, cnt: u16, timing: u16, s: u32, d: u32) -> bool {
    &&& new == (Bus { dma_src: new.dma_src, dma_dst: new.dma_dst, if_: new.if_, io: new.io, ..end })
    &&& new.dma_src@ == end.dma_src@.update(ch, s)
    &&& new.dma_dst@ == (if (cnt >> 5u16) & 3 != 3 { end.dma_dst@.update(ch, d) } else { end.dma_dst@ })
    &&& new.if_ == (if cnt & 0x4000 != 0 { end.if_ | (IRQ_DMA0 << (ch as u16)) } else { end.if_ })
    &&& new.io@ == (if cnt & 0x0200 == 0 || timing == 0 {
        with_dma_cnt(end.io@, ch, cnt & !0x8000u16)
    } else {
        end.io@
    })
}

/// Channel `ch` reached with the bus at `before`: if it fires with this
/// timing, its transfer runs to `after`; otherwise nothing changes.
#[verifier::opaque]
pub open spec fn channel_ran(before: Bus, after: Bus, ch: int, timing: u16) -> bool {
    if dma_fires(before.io@, ch, timing) {
        &&& dma_finished(before, after, ch, timing)
        &&& exists|bs: Seq<Bus>, rs: Seq<Bus>, vs: Seq<u32>| #[trigger] dma_moved(before, after, ch, timing, bs, rs, vs)
    } else {
        after == before
    }
}

/// The four channels taken in turn, the bus passing through `cs`; each
/// fires by its control register as the earlier ones left it.
pub open spec fn dma_round(old: Bus, new: Bus, timing: u16, cs: Seq<Bus>) -> bool {
    &&& cs.len() == 5
    &&& cs[0] == old
    &&& cs[4] == new
    &&& forall|ch: int| 0 <= ch < 4 ==> #[trigger] channel_ran(cs[ch], cs[ch + 1], ch, timing)
}

/// Channel `ch`'s address latches loaded from its SAD and DAD registers.
pub open spec fn dma_latched(old: Bus, new: Bus, ch: int) -> bool {
    &&& new == (Bus { dma_src: new.dma_src, dma_dst: new.dma_dst, ..old })
    &&& new.dma_src@ == old.dma_src@.update(ch, seq_le32(old.io@, 0xB0 + 12 * ch))
    &&& new.dma_dst@ == old.dma_dst@.update(ch, seq_le32(old.io@, 0xB0 + 12 * ch + 4))
}

/// The steps of a write that sets a DMA channel's enable bit: the byte
/// stored as any I/O byte (to `m1`), the channel's address latches loaded
/// (to `m2`), then the immediately-timed transfers run, unless DMA
/// nesting is exhausted.
pub open spec fn dma_start_steps(old: Bus, m1: Bus, m2: Bus, new: Bus, off: u32, val: u8) -> bool {
    &&& io_written(old, m1, off, val)
    &&& dma_latched(m1, m2, (off - 0xBB) / 12)
    &&& (new == m2 || exists|cs: Seq<Bus>| #[trigger] dma_round(m2, new, 0, cs))
}

/// A write that sets a DMA channel's enable bit while DMA nesting is not
/// exhausted (always for a write by the CPU): the byte stored as any I/O
/// byte (to `m1`), the channel's address latches loaded (to `m2`), then the
/// immediately-timed transfers run.
pub open spec fn dma_start_ran(old: Bus, m1: Bus, m2: Bus, new: Bus, off: u32, val: u8) -> bool {
    &&& io_written(old, m1, off, val)
    &&& dma_latched(m1, m2, (off - 0xBB) / 12)
    &&& exists|cs: Seq<Bus>| #[trigger] dma_round(m2, new, 0, cs)
}

/// When the byte `val` stored at `addr` sets a DMA enable bit, the
/// transfers it starts ran, as [`dma_start_ran`] says.
#[verifier::opaque]
pub open spec fn dma_kicked(old: Bus, new: Bus, addr: u32, val: u8) -> bool {
    addr >> 24 == 0x04 && starts_dma(addr & 0xFFFFFF, val) ==> exists|m1: Bus, m2: Bus|
        #[trigger] dma_start_ran(old, m1, m2, new, addr & 0xFFFFFF, val)
}

/// What a finished transfer of channel `ch` leaves behind, whatever its
/// writes did on the way: the source latch one past the last unit read, the
/// destination latch one past the last unit written (unless the channel
/// reloads it from DAD), the channel's interrupt raised if asked for, and the
/// enable bit cleared unless the channel repeats.
#[verifier::opaque]
pub open spec fn dma_finished(old: Bus, new: Bus, ch: int, timing: u16) -> bool {
    let cnt = dma_cnt(old.io@, ch);
    let n = dma_length(old.io@, ch);
    let unit = dma_unit(cnt);
    let dst_ctl = (cnt >> 5u16) & 3;
    let src_ctl = (cnt >> 7u16) & 3;
    let dst0 = if dst_ctl == 3 { seq_le32(old.io@, 0xB0 + 12 * ch + 4) } else { old.dma_dst[ch] };
    &&& new.dma_src[ch] == walk(dma_align(old.dma_src[ch], cnt), src_ctl, unit, n)
    &&& dst_ctl != 3 ==> new.dma_dst[ch] == walk(dma_align(dst0, cnt), dst_ctl, unit, n)
    &&& cnt & 0x4000 != 0 ==> new.if_ & (IRQ_DMA0 << (ch as u16)) != 0
    &&& (cnt & 0x0200 == 0 || timing == 0) ==> dma_cnt(new.io@, ch) == cnt & !0x8000u16
}

fn advance_exec(a: u32, ctl: u16, unit: u32) -> (r: u32)
    ensures
        r == advance(a, ctl, unit),
{
    if ctl == 0 {
        a.wrapping_add(unit)
    } else if ctl == 1 {
        a.wrapping_sub(unit)
    } else {
        a
    }
}

proof fn lemma_le16_bytes(v: u16)
    ensures
        le16(byte_of(v as u32, 0), byte_of(v as u32, 1)) == v,
{
}

} // verus!
