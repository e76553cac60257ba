//! The ARM7TDMI: registers, processor modes with their banked registers,
//! interrupts and the fetch-execute step. No pipeline emulation: r15 reads
//! as the architectural PC+8 (ARM) or PC+4 (Thumb), which is what a flushed
//! three-stage pipeline exposes.

use vstd::prelude::*;
use crate::alu::{FLAG_T, flag, cond, cond_passed};
use crate::bus::Bus;

verus! {

/// Processor modes.
pub const MODE_USR: u32 = 0x10;
pub const MODE_FIQ: u32 = 0x11;
pub const MODE_IRQ: u32 = 0x12;
pub const MODE_SVC: u32 = 0x13;
pub const MODE_ABT: u32 = 0x17;
pub const MODE_UND: u32 = 0x1B;
pub const MODE_SYS: u32 = 0x1F;

/// Initial stack pointers the BIOS leaves for user/system, supervisor and
/// IRQ mode.
pub const SP_USR: u32 = 0x0300_7F00;
pub const SP_SVC: u32 = 0x0300_7FE0;
pub const SP_IRQ: u32 = 0x0300_7FA0;

/// Where a cartridge's code starts.
pub const ROM_START: u32 = 0x0800_0000;

/// The hardware IRQ vector.
pub const IRQ_VECTOR: u32 = 0x18;

pub struct Cpu {
    pub regs: [u32; 16],
    pub cpsr: u32,
    /// Scratch SPSR of user and system mode, where reading it is unpredictable.
    pub spsr: u32,
    // Banked registers per mode: usr/sys share, fiq, svc, abt, irq, und.
    /// r13, r14 of user/system mode.
    pub bank_usr: [u32; 2],
    /// r8-r14 of FIQ mode.
    pub bank_fiq: [u32; 7],
    pub bank_svc: [u32; 2],
    pub bank_abt: [u32; 2],
    pub bank_irq: [u32; 2],
    pub bank_und: [u32; 2],
    /// User r8-r12 while in FIQ mode.
    pub bank_fiq_usr: [u32; 5],
    pub spsr_fiq: u32,
    pub spsr_svc: u32,
    pub spsr_abt: u32,
    pub spsr_irq: u32,
    pub spsr_und: u32,
    pub halted: bool,
    /// The interrupt flags an IntrWait waits for in the BIOS copy of IF (0
    /// when not waiting), and the address at which it checks them again.
    pub wait_flags: u16,
    pub wait_pc: u32,
    pub bus: Bus,
}

/// What a step hands back to the frontend: either the instruction ran, or
/// it needs the frontend to finish it (the floating-point BIOS calls) or to
/// stop (an instruction this core does not implement).
#[derive(Clone, Copy, PartialEq, Eq, Debug, Structural)]
pub enum StepEvent {
    Executed,
    /// BIOS ArcTan: r0 is to become the arctangent of r0 (1.14 fixed point).
    ArcTan,
    /// BIOS ArcTan2: r0 is to become the angle of the point (r0, r1).
    ArcTan2,
    /// BIOS BgAffineSet: the background affine parameters are to be
    /// computed from the r2 source blocks at r0 into the blocks at r1.
    BgAffineSet,
    /// BIOS ObjAffineSet: the sprite affine parameters are to be computed
    /// from the r2 source blocks at r0 into r1, r3 bytes apart.
    ObjAffineSet,
    /// A BIOS call this core does not know, by number; it did nothing.
    UnknownSwi { n: u32 },
    /// An ARM opcode this core does not implement, at address `pc`.
    UndefinedArm { op: u32, pc: u32 },
    /// A Thumb opcode this core does not implement, at address `pc`.
    UndefinedThumb { op: u32, pc: u32 },
}

/// Whether a mode number is one of the seven processor modes.
pub open spec fn valid_mode(m: u32) -> bool {
    m == MODE_USR || m == MODE_FIQ || m == MODE_IRQ || m == MODE_SVC || m == MODE_ABT
        || m == MODE_UND || m == MODE_SYS
}

/// Which r13/r14 bank a mode uses: 0 user/system, 1 FIQ, 2 supervisor,
/// 3 abort, 4 IRQ, 5 undefined.
pub open spec fn bank13_of(m: u32) -> int {
    if m == MODE_FIQ { 1 } else if m == MODE_SVC { 2 } else if m == MODE_ABT { 3 } else if m == MODE_IRQ { 4 }
        else if m == MODE_UND { 5 } else { 0 }
}

impl Cpu {
    pub open spec fn wf(&self) -> bool {
        self.bus.wf()
    }

    pub open spec fn mode_of(&self) -> u32 {
        self.cpsr & 0x1F
    }

    pub open spec fn in_thumb(&self) -> bool {
        flag(self.cpsr, FLAG_T)
    }

    /// The stored r13/r14 of bank `k` (the one not in use).
    pub open spec fn stored13(&self, k: int, i: int) -> u32 {
        if k == 1 { self.bank_fiq[5 + i] } else if k == 2 { self.bank_svc[i] } else if k == 3 { self.bank_abt[i] }
            else if k == 4 { self.bank_irq[i] } else if k == 5 { self.bank_und[i] } else { self.bank_usr[i] }
    }

    /// Register `i` (0-14) as mode `m` sees it, while the processor is in
    /// mode `cur`: registers of the current bank live in `regs`, the others
    /// in their bank.
    pub open spec fn banked(&self, cur: u32, m: u32, i: int) -> u32 {
        if 13 <= i <= 14 {
            if bank13_of(m) == bank13_of(cur) { self.regs[i] } else { self.stored13(bank13_of(m), i - 13) }
        } else if 8 <= i <= 12 {
            if (m == MODE_FIQ) == (cur == MODE_FIQ) { self.regs[i] } else if m == MODE_FIQ { self.bank_fiq[i - 8] }
                else { self.bank_fiq_usr[i - 8] }
        } else {
            self.regs[i]
        }
    }

    /// Everything of the register file but r8-r14 and the banks.
    pub open spec fn same_outside_banks(&self, other: &Cpu) -> bool {
        &&& forall|i: int| (0 <= i < 8 || i == 15) ==> #[trigger] other.regs[i] == self.regs[i]
        &&& other.cpsr == self.cpsr
        &&& other.spsr == self.spsr
        &&& other.spsr_fiq == self.spsr_fiq && other.spsr_svc == self.spsr_svc && other.spsr_abt == self.spsr_abt
        &&& other.spsr_irq == self.spsr_irq && other.spsr_und == self.spsr_und
        &&& other.halted == self.halted
        &&& other.wait_flags == self.wait_flags && other.wait_pc == self.wait_pc
        &&& other.bus == self.bus
    }

    /// The CPSR restored from the current mode's SPSR, with the registers
    /// r0-r14 switched to the banks of the mode it names, so every mode sees
    /// its registers as before; the SPSRs and the rest stay.
    pub open spec fn psr_restored(&self, new: &Cpu) -> bool {
        &&& new.cpsr == self.spsr_of()
        &&& valid_mode(self.mode_of()) && valid_mode(new.mode_of()) ==> forall|m: u32, i: int|
            valid_mode(m) && 0 <= i < 15 ==> #[trigger] new.banked(new.mode_of(), m, i)
                == self.banked(self.mode_of(), m, i)
        &&& new.spsr == self.spsr
        &&& new.spsr_fiq == self.spsr_fiq && new.spsr_svc == self.spsr_svc && new.spsr_abt == self.spsr_abt
        &&& new.spsr_irq == self.spsr_irq && new.spsr_und == self.spsr_und
        &&& new.halted == self.halted
        &&& new.wait_flags == self.wait_flags && new.wait_pc == self.wait_pc
        &&& new.bus == self.bus
    }

    /// The saved program status register of the current mode.
    pub open spec fn spsr_of(&self) -> u32 {
        let m = self.mode_of();
        if m == MODE_FIQ { self.spsr_fiq } else if m == MODE_SVC { self.spsr_svc } else if m == MODE_ABT { self.spsr_abt }
            else if m == MODE_IRQ { self.spsr_irq } else if m == MODE_UND { self.spsr_und } else { self.spsr }
    }

    /// State after the BIOS hands off to a cartridge: PC at ROM start,
    /// system mode, stacks set the way the real BIOS leaves them.
    pub fn new(bus: Bus) -> (c: Cpu)
        ensures
            c.bus == bus,
            c.regs[13] == SP_USR,
            c.regs[15] == ROM_START,
            forall|i: int| 0 <= i < 13 || i == 14 ==> #[trigger] c.regs[i] == 0,
            c.cpsr == MODE_SYS,
            c.bank_svc[0] == SP_SVC && c.bank_irq[0] == SP_IRQ && c.bank_usr[0] == SP_USR,
            !c.halted,
            c.wait_flags == 0,
    {
        let mut regs = [0u32; 16];
        regs[13] = SP_USR;
        regs[15] = ROM_START;
        Cpu {
            regs,
            cpsr: MODE_SYS,
            spsr: 0,
            bank_usr: [SP_USR, 0],
            bank_fiq: [0; 7],
            bank_svc: [SP_SVC, 0],
            bank_abt: [0; 2],
            bank_irq: [SP_IRQ, 0],
            bank_und: [0; 2],
            bank_fiq_usr: [0; 5],
            spsr_fiq: 0,
            spsr_svc: 0,
            spsr_abt: 0,
            spsr_irq: 0,
            spsr_und: 0,
            halted: false,
            wait_flags: 0,
            wait_pc: 0,
            bus,
        }
    }

    pub fn thumb(&self) -> (r: bool)
        ensures
            r == self.in_thumb(),
    {
        self.cpsr & FLAG_T != 0
    }

    pub fn mode(&self) -> (r: u32)
        ensures
            r == self.mode_of(),
    {
        self.cpsr & 0x1F
    }

    /// Register `i` as an instruction reads it: r15 shows the PC plus the
    /// pipeline offset.
    pub open spec fn reg_value(&self, i: u32) -> u32 {
        if i == 15 {
            ((self.regs[15] + if self.in_thumb() { 4int } else { 8int }) % 0x1_0000_0000) as u32
        } else {
            self.regs[i as int]
        }
    }

    pub fn r(&self, i: u32) -> (v: u32)
        requires
            i < 16,
        ensures
            v == self.reg_value(i),
    {
        if i == 15 {
            self.regs[15].wrapping_add(if self.thumb() { 4 } else { 8 })
        } else {
            self.regs[i as usize]
        }
    }

    /// What writing `v` to register `i` stores: a write to r15 branches,
    /// aligned to the instruction size.
    pub open spec fn reg_written(&self, i: u32, v: u32) -> u32 {
        if i == 15 { if self.in_thumb() { v & !1u32 } else { v & !3u32 } } else { v }
    }

    /// Writing r15 branches (the caller must not then advance the PC).
    pub fn set_r(&mut self, i: u32, v: u32)
        requires
            i < 16,
        ensures
            *final(self) == (Cpu { regs: final(self).regs, ..*old(self) }),
            final(self).regs@ == old(self).regs@.update(i as int, old(self).reg_written(i, v)),
    {
        if i == 15 {
            self.regs[15] = v & if self.thumb() { !1u32 } else { !3u32 };
        } else {
            self.regs[i as usize] = v;
        }
    }

    /// Swap banked registers when leaving mode `old` for the current one.
    /// No register value is lost: every mode sees its registers as before.
    pub fn switch_mode(&mut self, old_mode: u32)
        ensures
            old(self).same_outside_banks(&*final(self)),
            valid_mode(old_mode) && valid_mode(old(self).mode_of()) ==> forall|m: u32, i: int|
                valid_mode(m) && 0 <= i < 15 ==> #[trigger] final(self).banked(old(self).mode_of(), m, i)
                    == old(self).banked(old_mode, m, i),
    {
        let new_mode = self.mode();
        if old_mode == new_mode || ((old_mode | new_mode) & !0xFu32) == 0x10 && (old_mode & 0xF) == (new_mode & 0xF) {
            proof {
                if valid_mode(old_mode) && valid_mode(new_mode) {
                    crate::bitfacts::lemma_same_mode(old_mode, new_mode);                }
            }
            return;
        }
        // Save current r13/r14 (and FIQ r8-r12) into the old mode's bank.
        if old_mode == MODE_FIQ {
            let mut k: usize = 0;
            while k < 7
                invariant
                    k <= 7,
                    forall|j: int| 0 <= j < k ==> #[trigger] self.bank_fiq[j] == self.regs[8 + j],
                    forall|j: int| k <= j < 7 ==> #[trigger] self.bank_fiq[j] == old(self).bank_fiq[j],
                    self.regs == old(self).regs,
                    *self == (Cpu { bank_fiq: self.bank_fiq, ..*old(self) }),
                decreases 7 - k,
            {
                self.bank_fiq[k] = self.regs[8 + k];
                k = k + 1;
            }
            let mut k: usize = 0;
            while k < 5
                invariant
                    k <= 5,
                    forall|j: int| 0 <= j < 7 ==> #[trigger] self.bank_fiq[j] == old(self).regs[8 + j],
                    forall|j: int| 0 <= j < k ==> #[trigger] self.regs[8 + j] == old(self).bank_fiq_usr[j],
                    forall|j: int| 0 <= j < 16 && !(8 <= j < 8 + k) ==> #[trigger] self.regs[j] == old(self).regs[j],
                    *self == (Cpu { bank_fiq: self.bank_fiq, regs: self.regs, ..*old(self) }),
                decreases 5 - k,
            {
                self.regs[8 + k] = self.bank_fiq_usr[k];
                k = k + 1;
            }
        } else if old_mode == MODE_SVC {
            self.bank_svc = [self.regs[13], self.regs[14]];
        } else if old_mode == MODE_ABT {
            self.bank_abt = [self.regs[13], self.regs[14]];
        } else if old_mode == MODE_IRQ {
            self.bank_irq = [self.regs[13], self.regs[14]];
        } else if old_mode == MODE_UND {
            self.bank_und = [self.regs[13], self.regs[14]];
        } else {
            self.bank_usr = [self.regs[13], self.regs[14]];
        }
        let ghost mid = *self;
        // Bring in the new mode's bank.
        if new_mode == MODE_FIQ {
            let mut k: usize = 0;
            while k < 5
                invariant
                    k <= 5,
                    forall|j: int| 0 <= j < k ==> #[trigger] self.bank_fiq_usr[j] == self.regs[8 + j],
                    forall|j: int| k <= j < 5 ==> #[trigger] self.bank_fiq_usr[j] == mid.bank_fiq_usr[j],
                    self.regs == mid.regs,
                    *self == (Cpu { bank_fiq_usr: self.bank_fiq_usr, ..mid }),
                decreases 5 - k,
            {
                self.bank_fiq_usr[k] = self.regs[8 + k];
                k = k + 1;
            }
            let mut k: usize = 0;
            while k < 7
                invariant
                    k <= 7,
                    forall|j: int| 0 <= j < 5 ==> #[trigger] self.bank_fiq_usr[j] == mid.regs[8 + j],
                    forall|j: int| 0 <= j < k ==> #[trigger] self.regs[8 + j] == mid.bank_fiq[j],
                    forall|j: int| 0 <= j < 16 && !(8 <= j < 8 + k) ==> #[trigger] self.regs[j] == mid.regs[j],
                    *self == (Cpu { bank_fiq_usr: self.bank_fiq_usr, regs: self.regs, ..mid }),
                decreases 7 - k,
            {
                self.regs[8 + k] = self.bank_fiq[k];
                k = k + 1;
            }
        } else if new_mode == MODE_SVC {
            self.regs[13] = self.bank_svc[0];
            self.regs[14] = self.bank_svc[1];
        } else if new_mode == MODE_ABT {
            self.regs[13] = self.bank_abt[0];
            self.regs[14] = self.bank_abt[1];
        } else if new_mode == MODE_IRQ {
            self.regs[13] = self.bank_irq[0];
            self.regs[14] = self.bank_irq[1];
        } else if new_mode == MODE_UND {
            self.regs[13] = self.bank_und[0];
            self.regs[14] = self.bank_und[1];
        } else {
            self.regs[13] = self.bank_usr[0];
            self.regs[14] = self.bank_usr[1];
        }
        proof {
            if valid_mode(old_mode) && valid_mode(new_mode) {
                assert forall|m: u32, i: int| valid_mode(m) && 0 <= i < 15 implies
                    #[trigger] self.banked(new_mode, m, i) == old(self).banked(old_mode, m, i) by {
                    if 13 <= i <= 14 {
                        if old_mode == MODE_FIQ {
                            assert(mid.bank_fiq[5 + (i - 13)] == old(self).regs[8 + (5 + (i - 13))]);
                        }
                        if new_mode == MODE_FIQ {
                            assert(self.regs[8 + (5 + (i - 13))] == mid.bank_fiq[5 + (i - 13)]);
                        }
                    } else if 8 <= i <= 12 {
                        if old_mode == MODE_FIQ {
                            assert(mid.bank_fiq[i - 8] == old(self).regs[8 + (i - 8)]);
                            assert(mid.regs[8 + (i - 8)] == old(self).bank_fiq_usr[i - 8]);
                        }
                        if new_mode == MODE_FIQ {
                            assert(self.bank_fiq_usr[i - 8] == mid.regs[8 + (i - 8)]);
                            assert(self.regs[8 + (i - 8)] == mid.bank_fiq[i - 8]);
                        }
                    } else {
                        if new_mode == MODE_FIQ {
                            assert(self.regs[i] == mid.regs[i]);
                        }
                        if old_mode == MODE_FIQ {
                            assert(mid.regs[i] == old(self).regs[i]);
                        }
                    }
                }
            }
        }
    }

    pub fn spsr_get(&self) -> (r: u32)
        ensures
            r == self.spsr_of(),
    {
        let m = self.mode();
        if m == MODE_FIQ { self.spsr_fiq } else if m == MODE_SVC { self.spsr_svc } else if m == MODE_ABT { self.spsr_abt }
            else if m == MODE_IRQ { self.spsr_irq } else if m == MODE_UND { self.spsr_und } else { self.spsr }
    }

    /// Set the saved program status register of the current mode.
    pub fn spsr_set(&mut self, v: u32)
        ensures
            final(self).spsr_of() == v,
            final(self).regs == old(self).regs && final(self).cpsr == old(self).cpsr && final(self).bus == old(self).bus
                && final(self).halted == old(self).halted,
            final(self).bank_usr == old(self).bank_usr && final(self).bank_fiq == old(self).bank_fiq
                && final(self).bank_svc == old(self).bank_svc && final(self).bank_abt == old(self).bank_abt
                && final(self).bank_irq == old(self).bank_irq && final(self).bank_und == old(self).bank_und
                && final(self).bank_fiq_usr == old(self).bank_fiq_usr,
    {
        let m = self.mode();
        if m == MODE_FIQ { self.spsr_fiq = v; } else if m == MODE_SVC { self.spsr_svc = v; }
            else if m == MODE_ABT { self.spsr_abt = v; } else if m == MODE_IRQ { self.spsr_irq = v; }
            else if m == MODE_UND { self.spsr_und = v; } else { self.spsr = v; }
    }

    /// Register `i` of the user bank, from any mode (LDM/STM with ^).
    /// Whether user-mode register `i` is held in `regs` in the current mode
    /// (rather than in a saved user bank).
    pub open spec fn user_in_regs(&self, i: u32) -> bool {
        let m = self.mode_of();
        !(8 <= i <= 12 && m == MODE_FIQ) && !(13 <= i <= 14 && m != MODE_USR && m != MODE_SYS)
    }

    pub open spec fn user_reg_value(&self, i: u32) -> u32 {
        let m = self.mode_of();
        if 8 <= i <= 12 && m == MODE_FIQ { self.bank_fiq_usr[i - 8] }
        else if 13 <= i <= 14 && m != MODE_USR && m != MODE_SYS { self.bank_usr[i - 13] }
        else { self.regs[i as int] }
    }

    pub fn user_reg(&self, i: u32) -> (v: u32)
        requires
            i < 16,
        ensures
            v == self.user_reg_value(i),
    {
        let m = self.mode();
        if 8 <= i && i <= 12 && m == MODE_FIQ {
            self.bank_fiq_usr[(i - 8) as usize]
        } else if 13 <= i && i <= 14 && m != MODE_USR && m != MODE_SYS {
            self.bank_usr[(i - 13) as usize]
        } else {
            self.regs[i as usize]
        }
    }

    pub fn set_user_reg(&mut self, i: u32, v: u32)
        requires
            i < 16,
        ensures
            final(self).user_reg_value(i) == v,
            final(self).cpsr == old(self).cpsr && final(self).bus == old(self).bus && final(self).halted == old(self).halted,
            old(self).user_in_regs(i) ==> *final(self) == (Cpu { regs: final(self).regs, ..*old(self) })
                && final(self).regs@ == old(self).regs@.update(i as int, v),
            !old(self).user_in_regs(i) && 8 <= i <= 12 ==> *final(self) == (Cpu { bank_fiq_usr: final(self).bank_fiq_usr, ..*old(self) })
                && final(self).bank_fiq_usr@ == old(self).bank_fiq_usr@.update(i - 8, v),
            !old(self).user_in_regs(i) && 13 <= i <= 14 ==> *final(self) == (Cpu { bank_usr: final(self).bank_usr, ..*old(self) })
                && final(self).bank_usr@ == old(self).bank_usr@.update(i - 13, v),
    {
        let m = self.mode();
        if 8 <= i && i <= 12 && m == MODE_FIQ {
            self.bank_fiq_usr[(i - 8) as usize] = v;
        } else if 13 <= i && i <= 14 && m != MODE_USR && m != MODE_SYS {
            self.bank_usr[(i - 13) as usize] = v;
        } else {
            self.regs[i as usize] = v;
        }
    }

    /// Enter an exception: the new mode with IRQs off in ARM state, the old
    /// CPSR in its SPSR, the return address in its r14, the PC at `vector`.
    pub fn exception(&mut self, vector: u32, mode: u32)
        requires
            mode < 0x20,
        ensures
            final(self).cpsr == (old(self).cpsr & !0x3Fu32) | mode | 0x80,
            final(self).spsr_of() == old(self).cpsr,
            final(self).regs[14] == (old(self).regs[15] + 4) % 0x1_0000_0000,
            final(self).regs[15] == vector,
            final(self).bus == old(self).bus,
            final(self).halted == old(self).halted,
            valid_mode(old(self).mode_of()) && valid_mode(mode) ==> {
                &&& forall|i: int| 0 <= i < 14 ==> #[trigger] final(self).regs[i]
                    == old(self).banked(old(self).mode_of(), mode, i)
                &&& forall|m: u32, i: int| valid_mode(m) && 0 <= i < 15 && !(i == 14 && bank13_of(m) == bank13_of(mode))
                    ==> #[trigger] final(self).banked(mode, m, i) == old(self).banked(old(self).mode_of(), m, i)
            },
    {
        let old_cpsr = self.cpsr;
        let old_mode = self.mode();
        let ret = self.regs[15].wrapping_add(4);
        self.cpsr = (self.cpsr & !0x3F) | mode | 0x80;
        proof { crate::bitfacts::lemma_mode_set(old_cpsr, mode); }
        let ghost pre = *self;
        self.switch_mode(old_mode);
        let ghost sw = *self;
        self.spsr_set(old_cpsr);
        self.regs[14] = ret;
        self.regs[15] = vector;
        proof {
            assert(pre.mode_of() == mode);
            assert(old_mode == old(self).mode_of());
            if valid_mode(old_mode) && valid_mode(mode) {
                assert forall|i: int| 0 <= i < 14 implies #[trigger] self.regs[i]
                    == old(self).banked(old_mode, mode, i) by {
                    assert(sw.banked(mode, mode, i) == pre.banked(old_mode, mode, i));
                    assert(pre.banked(old_mode, mode, i) == old(self).banked(old_mode, mode, i));
                }
                assert forall|m: u32, i: int| valid_mode(m) && 0 <= i < 15 && !(i == 14 && bank13_of(m) == bank13_of(mode))
                    implies #[trigger] self.banked(mode, m, i) == old(self).banked(old_mode, m, i) by {
                    assert(sw.banked(mode, m, i) == pre.banked(old_mode, m, i));
                    assert(pre.banked(old_mode, m, i) == old(self).banked(old_mode, m, i));
                }
            }
        }
    }
}

} // verus!
