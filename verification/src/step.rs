//! The fetch-execute step, with interrupt delivery and halting, and the
//! instruction timing the frontend paces the bus with.

use vstd::prelude::*;
use crate::alu::{cond, cond_passed};
use crate::cpu::{Cpu, StepEvent, MODE_IRQ, IRQ_VECTOR, valid_mode, bank13_of};
use crate::arm::arm_executed;
use crate::thumb::thumb_executed;
use crate::mem::{eeprom_port, load16, load32};
use crate::swi::intr_checked;

verus! {

/// Cycles one instruction takes by the region the PC is in: IWRAM 1,
/// EWRAM 3, anything else (ROM) 4. No prefetch or wait-state modelling.
pub open spec fn cycles_at(pc: u32) -> u64 {
    let region = pc >> 24u32;
    if region == 0x03 { 1 } else if region == 0x02 { 3 } else { 4 }
}

pub fn cpi(pc: u32) -> (c: u64)
    ensures
        c == cycles_at(pc),
        1 <= c <= 4,
{
    let region = pc >> 24;
    if region == 0x03 { 1 } else if region == 0x02 { 3 } else { 4 }
}

/// An interrupt is pending: some enabled source has its IF bit set.
pub open spec fn irq_pending(c: Cpu) -> bool {
    c.bus.ie & c.bus.if_ != 0
}

/// A pending interrupt is taken: IME is on and the CPSR's I bit is clear.
pub open spec fn irq_taken(c: Cpu) -> bool {
    irq_pending(c) && c.bus.ime && c.cpsr & 0x80 == 0
}

/// The CPU is back where an IntrWait waits, to check its flags again.
pub open spec fn waiting_here(c: Cpu) -> bool {
    c.wait_flags != 0 && c.regs[15] == c.wait_pc
}

/// The CPU woken by a pending interrupt: no longer halted.
pub open spec fn woken(c: Cpu) -> Cpu {
    Cpu { halted: false, ..c }
}

/// After the instruction at `pc` has run, the PC moves on by `size` bytes,
/// unless the instruction changed it.
pub open spec fn pc_moved_on(mid: Cpu, new: Cpu, pc: u32, size: int) -> bool {
    if mid.regs[15] == pc {
        &&& new == (Cpu { regs: new.regs, ..mid })
        &&& new.regs@ == mid.regs@.update(15, ((pc + size) % 0x1_0000_0000) as u32)
    } else {
        new == mid
    }
}

/// A step that runs one instruction, fetched at the PC: a Thumb halfword
/// or an ARM word (skipped, with the PC moved on, when its condition
/// fails) is executed as [`thumb_executed`] or [`arm_executed`] say, and
/// then the PC moves on past it unless it branched or was undefined.
pub open spec fn instruction_stepped(old: Cpu, new: Cpu, ev: StepEvent) -> bool {
    if old.in_thumb() {
        exists|mid: Cpu| #[trigger] thumb_executed(woken(old), mid, load16(old.bus, old.regs[15]) as u32, ev)
            && if ev is UndefinedThumb { new == mid } else { pc_moved_on(mid, new, old.regs[15], 2) }
    } else if cond_passed(old.cpsr, load32(old.bus, old.regs[15]) >> 28u32) {
        exists|mid: Cpu| #[trigger] arm_executed(woken(old), mid, load32(old.bus, old.regs[15]), ev)
            && if ev is UndefinedArm { new == mid } else { pc_moved_on(mid, new, old.regs[15], 4) }
    } else {
        ev == StepEvent::Executed && pc_moved_on(woken(old), new, old.regs[15], 4)
    }
}

impl Cpu {
    /// Run one step: deliver a pending interrupt (which also wakes a halted
    /// CPU), or, unless halted, fetch and execute one instruction and move
    /// the PC on if the instruction did not branch.
    #[verifier::spinoff_prover]
    #[verifier::rlimit(100)]
    pub fn step(&mut self) -> (ev: StepEvent)
        requires
            old(self).wf(),
        ensures
            final(self).wf(),
            irq_taken(*old(self)) ==> {
                &&& ev == StepEvent::Executed
                &&& final(self).cpsr == (old(self).cpsr & !0x3Fu32) | MODE_IRQ | 0x80
                &&& final(self).spsr_irq == old(self).cpsr
                &&& final(self).regs[14] == (old(self).regs[15] + 4) % 0x1_0000_0000
                &&& final(self).regs[15] == IRQ_VECTOR
                &&& !final(self).halted
                &&& final(self).bus == old(self).bus
                &&& valid_mode(old(self).mode_of()) ==> {
                    &&& forall|i: int| 0 <= i < 14 ==> #[trigger] final(self).regs[i]
                        == old(self).banked(old(self).mode_of(), MODE_IRQ, i)
                    &&& forall|m: u32, i: int| valid_mode(m) && 0 <= i < 15 && !(i == 14 && bank13_of(m) == bank13_of(MODE_IRQ))
                        ==> #[trigger] final(self).banked(MODE_IRQ, m, i) == old(self).banked(old(self).mode_of(), m, i)
                }
            },
            !irq_pending(*old(self)) && old(self).halted ==> *final(self) == *old(self) && ev == StepEvent::Executed,
            !irq_taken(*old(self)) && (irq_pending(*old(self)) || !old(self).halted) && waiting_here(*old(self))
                ==> ev == StepEvent::Executed && intr_checked(woken(*old(self)), *final(self), old(self).wait_flags,
                old(self).wait_pc),
            !irq_taken(*old(self)) && (irq_pending(*old(self)) || !old(self).halted) && !waiting_here(*old(self))
                && !eeprom_port(old(self).bus, old(self).regs[15]) ==> instruction_stepped(*old(self), *final(self), ev),
    {
        // IRQ delivery: wakes from halt; taken when IME, IE&IF, and CPSR.I allow.
        let pending = self.bus.ie & self.bus.if_ != 0;
        if pending {
            self.halted = false;
            if self.bus.ime && self.cpsr & 0x80 == 0 {
                let c0 = self.cpsr;
                self.exception(IRQ_VECTOR, MODE_IRQ);
                proof { crate::bitfacts::lemma_nzcv(c0, false, false, false, false); }
                return StepEvent::Executed;
            }
        }
        if self.halted {
            return StepEvent::Executed;
        }
        if self.wait_flags != 0 && self.regs[15] == self.wait_pc {
            // Back where an IntrWait waits: check its flags again.
            let mask = self.wait_flags;
            let resume = self.wait_pc;
            self.intr_wait_check(mask, resume);
            return StepEvent::Executed;
        }
        let pc_before = self.regs[15];
        assert(*self == woken(*old(self)));
        if self.thumb() {
            let op = self.bus.read16(pc_before);
            let ev = self.exec_thumb(op);
            let ghost mid = *self;
            if let StepEvent::UndefinedThumb { .. } = ev {
                return ev;
            }
            if self.regs[15] == pc_before {
                self.regs[15] = self.regs[15].wrapping_add(2);
                proof {
                    assert(self.regs@ =~= mid.regs@.update(15, ((pc_before + 2) % 0x1_0000_0000) as u32));
                }
            }
            ev
        } else {
            let op = self.bus.read32(pc_before);
            let ev = if cond(self.cpsr, op >> 28) { self.exec_arm(op) } else { StepEvent::Executed };
            let ghost mid = *self;
            if let StepEvent::UndefinedArm { .. } = ev {
                return ev;
            }
            if self.regs[15] == pc_before {
                self.regs[15] = self.regs[15].wrapping_add(4);
                proof {
                    assert(self.regs@ =~= mid.regs@.update(15, ((pc_before + 4) % 0x1_0000_0000) as u32));
                }
            }
            ev
        }
    }
}

} // verus!
