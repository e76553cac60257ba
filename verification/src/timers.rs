//! The four hardware timers, their cascade, and the DirectSound FIFOs they
//! pace: a timer overflow plays the next FIFO sample and, once a FIFO runs
//! half empty, has DMA1/DMA2 refill it.

use vstd::prelude::*;
use crate::bitfacts::{lemma_irq_bits, lemma_irq_shift};
use crate::bits::{seq_le16, seq_le32, byte_at, byte_of};
use crate::bus::{Bus, IRQ_DMA0, IRQ_TIMER0};
use crate::dma::{dma_cnt, advance};
use crate::io::bus_frame;

verus! {

/// I/O addresses of the two sound FIFOs.
pub const FIFO_A: u32 = 0x0400_00A0;
pub const FIFO_B: u32 = 0x0400_00A4;

/// Whether DMA channel `ch` (1 or 2) is set to refill the FIFO at `fifo_addr`:
/// enabled, in the special start timing, with that FIFO as destination.
pub open spec fn refills(io: Seq<u8>, ch: int, fifo_addr: u32) -> bool {
    let cnt = dma_cnt(io, ch);
    &&& cnt & 0x8000 != 0
    &&& (cnt >> 12u16) & 3 == 3
    &&& seq_le32(io, 0xB0 + 12 * ch + 4) == fifo_addr
}

/// The FIFO that `fifo_addr` names.
pub open spec fn fifo_of(b: Bus, fifo_addr: u32) -> Seq<i8> {
    if fifo_addr == FIFO_A { b.fifo_a@ } else { b.fifo_b@ }
}

/// Only bits are added to IF.
pub open spec fn irq_kept(old: Bus, new: Bus) -> bool {
    new.if_ & old.if_ == old.if_
}

/// What playing FIFO samples may change: the FIFOs and their current
/// samples, the DMA source latches, IF (bits are only added), and the EEPROM
/// read state a refill's source reads can clock on.
pub open spec fn played_frame(old: Bus, new: Bus) -> bool {
    &&& bus_frame(old, new)
    &&& new.io == old.io
    &&& new.timer_counter == old.timer_counter
    &&& new.timer_frac == old.timer_frac
    &&& new.dma_dst == old.dma_dst
    &&& new.psg == old.psg
    &&& irq_kept(old, new)
}

/// What a FIFO refill may change: as [`played_frame`], but the current
/// samples stay.
pub open spec fn refill_frame(old: Bus, new: Bus) -> bool {
    &&& played_frame(old, new)
    &&& new.sample_a == old.sample_a
    &&& new.sample_b == old.sample_b
}

proof fn lemma_refill_frame_refl(b: Bus)
    ensures
        refill_frame(b, b),
{
    let x = b.if_;
    lemma_irq_bits(x, 0, 0, 0);
}

proof fn lemma_refill_frame_trans(a: Bus, b: Bus, c: Bus)
    requires
        refill_frame(a, b),
        refill_frame(b, c),
    ensures
        refill_frame(a, c),
{
    let (x, y, z) = (a.if_, b.if_, c.if_);
    lemma_irq_bits(y, z, x, 0);
}

proof fn lemma_played_frame_trans(a: Bus, b: Bus, c: Bus)
    requires
        played_frame(a, b),
        played_frame(b, c),
    ensures
        played_frame(a, c),
{
    let (x, y, z) = (a.if_, b.if_, c.if_);
    lemma_irq_bits(y, z, x, 0);
}

proof fn lemma_timer_wrap_small(c: nat, reload: u16)
    requires
        c <= 0xFFFF,
    ensures
        timer_wrap(c, reload) == c,
{
}

impl Bus {
    /// DMA1/DMA2 in the special start timing refill a sound FIFO: four words
    /// from the source latch, into a FIFO that holds at most 32 samples.
    pub(crate) fn run_fifo_dma(&mut self, fifo_addr: u32)
        requires
            old(self).wf(),
            fifo_addr == FIFO_A || fifo_addr == FIFO_B,
        ensures
            final(self).wf(),
            refill_frame(*old(self), *final(self)),
            fifo_addr == FIFO_A ==> final(self).fifo_b == old(self).fifo_b,
            fifo_addr == FIFO_B ==> final(self).fifo_a == old(self).fifo_a,
            fifo_of(*final(self), fifo_addr).len() >= fifo_of(*old(self), fifo_addr).len(),
            fifo_of(*final(self), fifo_addr).subrange(0, fifo_of(*old(self), fifo_addr).len() as int)
                == fifo_of(*old(self), fifo_addr),
            !refills(old(self).io@, 1, fifo_addr) && !refills(old(self).io@, 2, fifo_addr) ==> *final(self) == *old(self),
            forall|ch: int| 1 <= ch <= 2 && refills(old(self).io@, ch, fifo_addr) ==>
                final(self).dma_src[ch] == advance(advance(advance(advance(old(self).dma_src[ch] & !3u32, 0, 4), 0, 4), 0, 4), 0, 4),
    {
        let mut ch: usize = 1;
        proof { lemma_refill_frame_refl(*self); }
        while ch <= 2
            invariant
                1 <= ch <= 3,
                fifo_addr == FIFO_A || fifo_addr == FIFO_B,
                self.wf(),
                refill_frame(*old(self), *self),
                fifo_addr == FIFO_A ==> self.fifo_b == old(self).fifo_b,
                fifo_addr == FIFO_B ==> self.fifo_a == old(self).fifo_a,
                fifo_of(*self, fifo_addr).len() >= fifo_of(*old(self), fifo_addr).len(),
                fifo_of(*self, fifo_addr).subrange(0, fifo_of(*old(self), fifo_addr).len() as int)
                    == fifo_of(*old(self), fifo_addr),
                (forall|k: int| 1 <= k < ch && k <= 2 ==> !refills(old(self).io@, k, fifo_addr)) ==> *self == *old(self),
                forall|k: int| 1 <= k < ch && k <= 2 && refills(old(self).io@, k, fifo_addr) ==>
                    self.dma_src[k] == advance(advance(advance(advance(old(self).dma_src[k] & !3u32, 0, 4), 0, 4), 0, 4), 0, 4),
                forall|k: int| ch <= k < 4 ==> self.dma_src[k] == old(self).dma_src[k],
            decreases 3 - ch,
        {
            let ghost before = *self;
            self.refill_from(ch, fifo_addr);
            proof { lemma_refill_frame_trans(*old(self), before, *self); }
            ch = ch + 1;
        }
    }

    #[verifier::spinoff_prover]
    #[verifier::rlimit(100)]
    fn refill_from(&mut self, ch: usize, fifo_addr: u32)
        requires
            old(self).wf(),
            1 <= ch <= 2,
            fifo_addr == FIFO_A || fifo_addr == FIFO_B,
        ensures
            final(self).wf(),
            refill_frame(*old(self), *final(self)),
            fifo_addr == FIFO_A ==> final(self).fifo_b == old(self).fifo_b,
            fifo_addr == FIFO_B ==> final(self).fifo_a == old(self).fifo_a,
            fifo_of(*final(self), fifo_addr).len() >= fifo_of(*old(self), fifo_addr).len(),
            fifo_of(*final(self), fifo_addr).subrange(0, fifo_of(*old(self), fifo_addr).len() as int)
                == fifo_of(*old(self), fifo_addr),
            !refills(old(self).io@, ch as int, fifo_addr) ==> *final(self) == *old(self),
            refills(old(self).io@, ch as int, fifo_addr) ==> final(self).dma_src@ == old(self).dma_src@.update(ch as int,
                advance(advance(advance(advance(old(self).dma_src[ch as int] & !3u32, 0, 4), 0, 4), 0, 4), 0, 4)),
    {
        proof { lemma_refill_frame_refl(*self); }
        let base = 0xB0 + ch * 12;
        let cnt = self.io16(base + 10);
        if cnt & 0x8000 == 0 || cnt >> 12 & 3 != 3 {
            return;
        }
        let dst = self.io32(base + 4);
        if dst != fifo_addr {
            return;
        }
        let mut src = self.dma_src[ch] & !3;
        let ghost s0 = src;
        let mut w: usize = 0;
        while w < 4
            invariant
                w <= 4,
                1 <= ch <= 2,
                fifo_addr == FIFO_A || fifo_addr == FIFO_B,
                self.wf(),
                refill_frame(*old(self), *self),
                self.dma_src == old(self).dma_src,
                fifo_addr == FIFO_A ==> self.fifo_b == old(self).fifo_b,
                fifo_addr == FIFO_B ==> self.fifo_a == old(self).fifo_a,
                fifo_of(*self, fifo_addr).len() >= fifo_of(*old(self), fifo_addr).len(),
                fifo_of(*self, fifo_addr).subrange(0, fifo_of(*old(self), fifo_addr).len() as int)
                    == fifo_of(*old(self), fifo_addr),
                src == (if w == 0 { s0 } else if w == 1 { advance(s0, 0, 4) } else if w == 2 {
                    advance(advance(s0, 0, 4), 0, 4) } else if w == 3 { advance(advance(advance(s0, 0, 4), 0, 4), 0, 4) }
                    else { advance(advance(advance(advance(s0, 0, 4), 0, 4), 0, 4), 0, 4) }),
            decreases 4 - w,
        {
            let ghost before = *self;
            let v = self.read32(src);
            proof {
                lemma_refill_frame_refl(before);
                lemma_refill_frame_trans(*old(self), before, *self);
            }
            let mut i: u32 = 0;
            while i < 4
                invariant
                    i <= 4,
                    fifo_addr == FIFO_A || fifo_addr == FIFO_B,
                    self.wf(),
                    refill_frame(*old(self), *self),
                    self.dma_src == old(self).dma_src,
                    fifo_addr == FIFO_A ==> self.fifo_b == old(self).fifo_b,
                    fifo_addr == FIFO_B ==> self.fifo_a == old(self).fifo_a,
                    fifo_of(*self, fifo_addr).len() >= fifo_of(*old(self), fifo_addr).len(),
                    fifo_of(*self, fifo_addr).subrange(0, fifo_of(*old(self), fifo_addr).len() as int)
                        == fifo_of(*old(self), fifo_addr),
                decreases 4 - i,
            {
                let b = byte_at(v, i) as i8;
                let ghost before = *self;
                self.push_sample(fifo_addr, b);
                proof {
                    lemma_refill_frame_refl(before);
                    lemma_refill_frame_trans(*old(self), before, *self);
                }
                i = i + 1;
            }
            src = src.wrapping_add(4);
            w = w + 1;
        }
        self.dma_src[ch] = src;
        if cnt & 0x4000 != 0 {
            let bit = IRQ_DMA0 << (ch as u16);
            let ghost f0 = self.if_;
            self.request_irq(bit);
            let ghost o = old(self).if_;
            proof { lemma_irq_bits(f0, 0, o, bit); }
        }
        proof {
            assert(forall|t: int| 0 <= t < 4 ==> #[trigger] self.timer_counter[t] == old(self).timer_counter[t]);
        }
    }

    /// Append a sample to a sound FIFO unless it is full.
    fn push_sample(&mut self, fifo_addr: u32, b: i8)
        requires
            old(self).wf(),
            fifo_addr == FIFO_A || fifo_addr == FIFO_B,
        ensures
            final(self).wf(),
            fifo_addr == FIFO_A ==> *final(self) == (Bus { fifo_a: final(self).fifo_a, ..*old(self) }),
            fifo_addr == FIFO_B ==> *final(self) == (Bus { fifo_b: final(self).fifo_b, ..*old(self) }),
            fifo_of(*final(self), fifo_addr) == (if fifo_of(*old(self), fifo_addr).len() < 32 {
                fifo_of(*old(self), fifo_addr).push(b)
            } else {
                fifo_of(*old(self), fifo_addr)
            }),
    {
        if fifo_addr == FIFO_A {
            if self.fifo_a.len() < 32 {
                self.fifo_a.push_back(b);
            }
        } else {
            if self.fifo_b.len() < 32 {
                self.fifo_b.push_back(b);
            }
        }
        proof {
            assert(forall|t: int| 0 <= t < 4 ==> #[trigger] self.timer_counter[t] == old(self).timer_counter[t]);
        }
    }
}

/// Timer `t`'s control register (TMxCNT_H).
pub open spec fn timer_cnt(io: Seq<u8>, t: int) -> u16 {
    seq_le16(io, 0x102 + 4 * t)
}

/// Timer `t`'s reload value (TMxCNT_L as written).
pub open spec fn timer_reload(io: Seq<u8>, t: int) -> u16 {
    seq_le16(io, 0x100 + 4 * t)
}

/// Cycles per count for the prescaler a control value selects.
pub open spec fn prescale(cnt: u16) -> nat {
    let p = cnt & 3;
    if p == 0 { 1 } else if p == 1 { 64 } else if p == 2 { 256 } else { 1024 }
}

/// Whether timer `t` counts overflows of the timer before it.
pub open spec fn cascades(cnt: u16, t: int) -> bool {
    t > 0 && cnt & 4 != 0
}

/// A counter value past 0xFFFF wraps to the reload value, as often as it
/// overflows.
pub open spec fn timer_wrap(c: nat, reload: u16) -> nat
    decreases c,
{
    if c > 0xFFFF { timer_wrap((reload + c - 0x10000) as nat, reload) } else { c }
}

/// Counts timer `t` takes in `cycles`, `carry` telling whether the timer
/// before it overflowed.
pub open spec fn increments(b: Bus, t: int, cycles: u64, carry: bool) -> nat {
    let cnt = timer_cnt(b.io@, t);
    if cnt & 0x80 == 0 {
        0
    } else if cascades(cnt, t) {
        if carry { 1 } else { 0 }
    } else {
        (b.timer_frac[t] + cycles) as nat / prescale(cnt)
    }
}

/// Timer `t`'s prescaler remainder after `cycles`.
pub open spec fn frac_after(b: Bus, t: int, cycles: u64) -> u64 {
    let cnt = timer_cnt(b.io@, t);
    if cnt & 0x80 == 0 || cascades(cnt, t) {
        b.timer_frac[t]
    } else {
        ((b.timer_frac[t] + cycles) as nat % prescale(cnt)) as u64
    }
}

/// Whether timer `t` overflows in `cycles`.
pub open spec fn overflows(b: Bus, t: int, cycles: u64, carry: bool) -> bool {
    b.timer_counter[t] + increments(b, t, cycles, carry) > 0xFFFF
}

/// Timer `t`'s counter after `cycles`.
pub open spec fn counter_after(b: Bus, t: int, cycles: u64, carry: bool) -> u32 {
    timer_wrap((b.timer_counter[t] + increments(b, t, cycles, carry)) as nat, timer_reload(b.io@, t)) as u32
}

/// Whether the timer before `t` overflows in `cycles` (the cascade input).
pub open spec fn carry_into(b: Bus, t: int, cycles: u64) -> bool
    decreases t,
{
    if t <= 0 { false } else { overflows(b, t - 1, cycles, carry_into(b, t - 1, cycles)) }
}

/// The timer that paces FIFO A (bit 10 of SOUNDCNT_H) or FIFO B (bit 14).
pub open spec fn fifo_timer(io: Seq<u8>, fifo_addr: u32) -> int {
    let cnt_h = seq_le16(io, 0x82);
    if fifo_addr == FIFO_A { ((cnt_h >> 10u16) & 1) as int } else { ((cnt_h >> 14u16) & 1) as int }
}

/// FIFO A after the timers ran for `cycles`: when the timer pacing it
/// overflowed, the next sample played; otherwise it is as it was.
pub open spec fn fifo_a_played(old: Bus, new: Bus, cycles: u64) -> bool {
    let t = fifo_timer(old.io@, FIFO_A);
    if overflows(old, t, cycles, carry_into(old, t, cycles)) {
        sample_played(old.fifo_a@, old.sample_a, new.fifo_a@, new.sample_a)
    } else {
        new.fifo_a == old.fifo_a && new.sample_a == old.sample_a
    }
}

/// FIFO B after the timers ran for `cycles`, as [`fifo_a_played`].
pub open spec fn fifo_b_played(old: Bus, new: Bus, cycles: u64) -> bool {
    let t = fifo_timer(old.io@, FIFO_B);
    if overflows(old, t, cycles, carry_into(old, t, cycles)) {
        sample_played(old.fifo_b@, old.sample_b, new.fifo_b@, new.sample_b)
    } else {
        new.fifo_b == old.fifo_b && new.sample_b == old.sample_b
    }
}

/// Each FIFO is paced by timer 0 or timer 1.
proof fn lemma_fifo_timer(io: Seq<u8>)
    ensures
        0 <= fifo_timer(io, FIFO_A) <= 1,
        0 <= fifo_timer(io, FIFO_B) <= 1,
{
    let x = seq_le16(io, 0x82);
    assert((x >> 10u16) & 1 <= 1 && (x >> 14u16) & 1 <= 1) by (bit_vector);
}

/// Both DirectSound FIFOs after the timers ran for `cycles`.
pub open spec fn fifo_played(old: Bus, new: Bus, cycles: u64) -> bool {
    fifo_a_played(old, new, cycles) && fifo_b_played(old, new, cycles)
}

/// A FIFO and its current sample after the timer pacing it overflows: the
/// next sample plays (the last one holds when the FIFO is empty), and what
/// follows stays queued ahead of any refill.
pub open spec fn sample_played(old_fifo: Seq<i8>, old_sample: i8, new_fifo: Seq<i8>, new_sample: i8) -> bool {
    if old_fifo.len() == 0 {
        new_sample == old_sample
    } else {
        &&& new_sample == old_fifo[0]
        &&& new_fifo.len() >= old_fifo.len() - 1
        &&& new_fifo.subrange(0, old_fifo.len() - 1) == old_fifo.drop_first()
    }
}

impl Bus {
    /// Advance the four timers by `cycles`: each counts at its prescaler
    /// rate, or, in cascade mode, once per overflow of the timer before it.
    pub(crate) fn tick_timers(&mut self, cycles: u64)
        requires
            old(self).wf(),
            cycles <= 0x7FFF_FFFF,
        ensures
            final(self).wf(),
            bus_frame(*old(self), *final(self)),
            final(self).io == old(self).io,
            final(self).psg == old(self).psg,
            irq_kept(*old(self), *final(self)),
            forall|t: int| 0 <= t < 4 ==> #[trigger] final(self).timer_counter[t]
                == counter_after(*old(self), t, cycles, carry_into(*old(self), t, cycles)),
            forall|t: int| 0 <= t < 4 ==> #[trigger] final(self).timer_frac[t] == frac_after(*old(self), t, cycles),
            forall|t: int| 0 <= t < 4 && overflows(*old(self), t, cycles, carry_into(*old(self), t, cycles))
                && timer_cnt(old(self).io@, t) & 0x40 != 0 ==> #[trigger] (final(self).if_ & (IRQ_TIMER0 << (t as u16))) != 0,
            fifo_played(*old(self), *final(self), cycles),
    {
        let mut carry = false;
        let mut t: usize = 0;
        proof { lemma_refill_frame_refl(*self); lemma_fifo_timer(old(self).io@); }
        while t < 4
            invariant
                t <= 4,
                cycles <= 0x7FFF_FFFF,
                self.wf(),
                bus_frame(*old(self), *self),
                self.io == old(self).io,
                self.psg == old(self).psg,
                irq_kept(*old(self), *self),
                carry == carry_into(*old(self), t as int, cycles),
                forall|k: int| 0 <= k < t ==> #[trigger] self.timer_counter[k]
                    == counter_after(*old(self), k, cycles, carry_into(*old(self), k, cycles)),
                forall|k: int| 0 <= k < t ==> #[trigger] self.timer_frac[k] == frac_after(*old(self), k, cycles),
                forall|k: int| t <= k < 4 ==> #[trigger] self.timer_counter[k] == old(self).timer_counter[k],
                forall|k: int| t <= k < 4 ==> #[trigger] self.timer_frac[k] == old(self).timer_frac[k],
                forall|k: int| 0 <= k < t && overflows(*old(self), k, cycles, carry_into(*old(self), k, cycles))
                    && timer_cnt(old(self).io@, k) & 0x40 != 0 ==> #[trigger] (self.if_ & (IRQ_TIMER0 << (k as u16))) != 0,
                fifo_timer(old(self).io@, FIFO_A) < t ==> fifo_a_played(*old(self), *self, cycles),
                fifo_timer(old(self).io@, FIFO_A) >= t ==> self.fifo_a == old(self).fifo_a && self.sample_a == old(self).sample_a,
                fifo_timer(old(self).io@, FIFO_B) < t ==> fifo_b_played(*old(self), *self, cycles),
                fifo_timer(old(self).io@, FIFO_B) >= t ==> self.fifo_b == old(self).fifo_b && self.sample_b == old(self).sample_b,
            decreases 4 - t,
        {
            let ghost before = *self;
            proof {
                assert(increments(before, t as int, cycles, carry) == increments(*old(self), t as int, cycles, carry));
                assert(frac_after(before, t as int, cycles) == frac_after(*old(self), t as int, cycles));
                assert(overflows(before, t as int, cycles, carry) == overflows(*old(self), t as int, cycles, carry));
            }
            let ov = self.tick_timer(t, cycles, carry);
            proof {
                lemma_fifo_timer(old(self).io@);
                assert(ov == overflows(*old(self), t as int, cycles, carry_into(*old(self), t as int, cycles)));
                if fifo_timer(old(self).io@, FIFO_A) < t {
                    assert(fifo_a_played(*old(self), before, cycles));
                    assert(self.fifo_a == before.fifo_a && self.sample_a == before.sample_a);
                    assert(fifo_a_played(*old(self), *self, cycles));
                } else if fifo_timer(old(self).io@, FIFO_A) == t {
                    assert(before.fifo_a == old(self).fifo_a && before.sample_a == old(self).sample_a);
                    assert(fifo_timer(before.io@, FIFO_A) == t);
                    if ov {
                        assert(sample_played(before.fifo_a@, before.sample_a, self.fifo_a@, self.sample_a));
                    } else {
                        assert(self.fifo_a == before.fifo_a);
                    }
                    assert(fifo_a_played(*old(self), *self, cycles));
                }
                if fifo_timer(old(self).io@, FIFO_B) < t {
                    assert(fifo_b_played(*old(self), before, cycles));
                    assert(self.fifo_b == before.fifo_b && self.sample_b == before.sample_b);
                    assert(fifo_b_played(*old(self), *self, cycles));
                } else if fifo_timer(old(self).io@, FIFO_B) == t {
                    assert(fifo_b_played(*old(self), *self, cycles));
                }
                let (x, y, o) = (before.if_, self.if_, old(self).if_);
                lemma_irq_bits(x, y, o, 0);
                assert forall|k: int| 0 <= k < t && overflows(*old(self), k, cycles, carry_into(*old(self), k, cycles))
                    && timer_cnt(old(self).io@, k) & 0x40 != 0 implies #[trigger] (self.if_ & (IRQ_TIMER0 << (k as u16))) != 0 by {
                    let bit = IRQ_TIMER0 << (k as u16);
                    assert(x & bit != 0);
                    lemma_irq_bits(x, y, 0, bit);
                }
                assert(carry_into(*old(self), t + 1, cycles) == overflows(*old(self), t as int, cycles, carry_into(*old(self), t as int, cycles)));
            }
            carry = ov;
            t = t + 1;
        }
    }

    /// Advance timer `t` by `cycles`; `carry` tells whether the timer before
    /// it overflowed. Returns whether this one overflowed.
    #[verifier::spinoff_prover]
    #[verifier::rlimit(100)]
    fn tick_timer(&mut self, t: usize, cycles: u64, carry: bool) -> (ov: bool)
        requires
            old(self).wf(),
            t < 4,
            cycles <= 0x7FFF_FFFF,
        ensures
            final(self).wf(),
            bus_frame(*old(self), *final(self)),
            final(self).io == old(self).io,
            final(self).dma_dst == old(self).dma_dst,
            final(self).psg == old(self).psg,
            irq_kept(*old(self), *final(self)),
            ov == overflows(*old(self), t as int, cycles, carry),
            final(self).timer_counter@ == old(self).timer_counter@.update(t as int, counter_after(*old(self), t as int, cycles, carry)),
            final(self).timer_frac@ == old(self).timer_frac@.update(t as int, frac_after(*old(self), t as int, cycles)),
            ov && timer_cnt(old(self).io@, t as int) & 0x40 != 0 ==> final(self).if_ & (IRQ_TIMER0 << (t as u16)) != 0,
            !(ov && t < 2) ==> final(self).fifo_a == old(self).fifo_a && final(self).fifo_b == old(self).fifo_b
                && final(self).sample_a == old(self).sample_a && final(self).sample_b == old(self).sample_b,
            fifo_timer(old(self).io@, FIFO_A) != t ==> final(self).fifo_a == old(self).fifo_a
                && final(self).sample_a == old(self).sample_a,
            fifo_timer(old(self).io@, FIFO_B) != t ==> final(self).fifo_b == old(self).fifo_b
                && final(self).sample_b == old(self).sample_b,
            ov && t < 2 && fifo_timer(old(self).io@, FIFO_A) == t ==> sample_played(old(self).fifo_a@, old(self).sample_a,
                final(self).fifo_a@, final(self).sample_a),
            ov && t < 2 && fifo_timer(old(self).io@, FIFO_B) == t ==> sample_played(old(self).fifo_b@, old(self).sample_b,
                final(self).fifo_b@, final(self).sample_b),
    {
        proof { lemma_refill_frame_refl(*old(self)); }
        let cnt = self.io16(0x102 + t * 4);
        if cnt & 0x80 == 0 {
            proof {
                lemma_refill_frame_refl(*self);
                lemma_timer_wrap_small(self.timer_counter[t as int] as nat, timer_reload(self.io@, t as int));
                assert(self.timer_counter@ == self.timer_counter@.update(t as int, self.timer_counter[t as int]));
                assert(self.timer_frac@ == self.timer_frac@.update(t as int, self.timer_frac[t as int]));
            }
            return false;
        }
        let cascade = t > 0 && cnt & 0x04 != 0;
        let increments: u64 = if cascade {
            if carry { 1 } else { 0 }
        } else {
            let div: u64 = if cnt & 3 == 0 { 1 } else if cnt & 3 == 1 { 64 } else if cnt & 3 == 2 { 256 } else { 1024 };
            proof { assert(self.timer_counter[t as int] <= 0xFFFF && self.timer_frac[t as int] < 1024); }
            let total = self.timer_frac[t] + cycles;
            self.timer_frac[t] = total % div;
            assert(total / div <= total) by (nonlinear_arith)
                requires div >= 1;
            total / div
        };
        let reload = self.io16(0x100 + t * 4) as u32;
        let mut c: u64 = self.timer_counter[t] as u64 + increments;
        let ghost c0 = c;
        let mut overflowed = false;
        while c > 0xFFFF
            invariant
                reload <= 0xFFFF,
                c <= c0,
                c0 <= 0xFFFF + 0x8000_0400,
                timer_wrap(c as nat, reload as u16) == timer_wrap(c0 as nat, reload as u16),
                overflowed ==> c0 > 0xFFFF,
                !overflowed ==> c == c0,
            decreases c,
        {
            c = reload as u64 + (c - 0x10000);
            overflowed = true;
        }
        self.timer_counter[t] = c as u32;
        proof { lemma_timer_wrap_small(c as nat, reload as u16); }
        if overflowed && cnt & 0x40 != 0 {
            let bit = IRQ_TIMER0 << (t as u16);
            let ghost f0 = self.if_;
            self.request_irq(bit);
            let ghost o = old(self).if_;
            proof { lemma_irq_bits(f0, 0, o, bit); lemma_irq_shift(t as u16); }
        }
        proof {
            assert(self.timer_counter[t as int] <= 0xFFFF && self.timer_frac[t as int] < 1024);
            assert forall|k: int| 0 <= k < 4 implies #[trigger] self.timer_counter[k] <= 0xFFFF && self.timer_frac[k] < 1024 by {
                if k != t {
                    assert(self.timer_counter[k] == old(self).timer_counter[k]);
                    assert(self.timer_frac[k] == old(self).timer_frac[k]);
                }
            }
        }
        if overflowed && t < 2 {
            let ghost x = self.if_;
            self.play_samples(t);
            let ghost (y, o) = (self.if_, old(self).if_);
            let ghost bit = IRQ_TIMER0 << (t as u16);
            proof { lemma_irq_bits(x, y, o, bit); }
        }
        overflowed
    }

    /// A timer that paces a FIFO overflowed: play the FIFO's next sample and
    /// refill it once it is half empty.
    fn play_samples(&mut self, t: usize)
        requires
            old(self).wf(),
            t < 2,
        ensures
            final(self).wf(),
            played_frame(*old(self), *final(self)),
            fifo_timer(old(self).io@, FIFO_A) != t ==> final(self).fifo_a == old(self).fifo_a && final(self).sample_a == old(self).sample_a,
            fifo_timer(old(self).io@, FIFO_B) != t ==> final(self).fifo_b == old(self).fifo_b && final(self).sample_b == old(self).sample_b,
            fifo_timer(old(self).io@, FIFO_A) == t ==> sample_played(old(self).fifo_a@, old(self).sample_a,
                final(self).fifo_a@, final(self).sample_a),
            fifo_timer(old(self).io@, FIFO_B) == t ==> sample_played(old(self).fifo_b@, old(self).sample_b,
                final(self).fifo_b@, final(self).sample_b),
    {
        let cnt_h = self.io16(0x82);
        proof { lemma_refill_frame_refl(*self); }
        if (cnt_h >> 10 & 1) as usize == t {
            let ghost before = *self;
            self.play_a();
            proof { lemma_played_frame_trans(*old(self), before, *self); }
        }
        if (cnt_h >> 14 & 1) as usize == t {
            let ghost before = *self;
            self.play_b();
            proof { lemma_played_frame_trans(*old(self), before, *self); }
        }
    }

    fn play_a(&mut self)
        requires
            old(self).wf(),
        ensures
            final(self).wf(),
            played_frame(*old(self), *final(self)),
            final(self).fifo_b == old(self).fifo_b && final(self).sample_b == old(self).sample_b,
            sample_played(old(self).fifo_a@, old(self).sample_a, final(self).fifo_a@, final(self).sample_a),
    {
        match self.fifo_a.pop_front() {
            Some(x) => self.sample_a = x,
            None => {},
        }
        proof {
            assert(forall|k: int| 0 <= k < 4 ==> #[trigger] self.timer_counter[k] == old(self).timer_counter[k]);
            lemma_refill_frame_refl(*old(self));
        }
        let ghost popped = self.fifo_a@;
        if self.fifo_a.len() <= 16 {
            self.run_fifo_dma(FIFO_A);
        }
        proof {
            if old(self).fifo_a@.len() > 0 {
                assert(popped =~= old(self).fifo_a@.drop_first());
                assert(self.fifo_a@.subrange(0, popped.len() as int) =~= popped);
            }
        }
    }

    fn play_b(&mut self)
        requires
            old(self).wf(),
        ensures
            final(self).wf(),
            played_frame(*old(self), *final(self)),
            final(self).fifo_a == old(self).fifo_a && final(self).sample_a == old(self).sample_a,
            sample_played(old(self).fifo_b@, old(self).sample_b, final(self).fifo_b@, final(self).sample_b),
    {
        match self.fifo_b.pop_front() {
            Some(x) => self.sample_b = x,
            None => {},
        }
        proof {
            assert(forall|k: int| 0 <= k < 4 ==> #[trigger] self.timer_counter[k] == old(self).timer_counter[k]);
            lemma_refill_frame_refl(*old(self));
        }
        let ghost popped = self.fifo_b@;
        if self.fifo_b.len() <= 16 {
            self.run_fifo_dma(FIFO_B);
        }
        proof {
            if old(self).fifo_b@.len() > 0 {
                assert(popped =~= old(self).fifo_b@.drop_first());
                assert(self.fifo_b@.subrange(0, popped.len() as int) =~= popped);
            }
        }
    }
}

} // verus!
