//! The 16-bit Thumb instruction set.

use vstd::prelude::*;
use crate::bitfacts::{lemma_u32_masks, lemma_list_bits};
use crate::alu::{
    FLAG_C, FLAG_T, flag, bit, barrel, add_result, add_flags, with_flag, with_nz, lemma_fields, lemma_with_flag_t,
    add_with_flags, set_flag, set_nz, shift, cond, cond_passed, test_bit,
};
use crate::arm::{
    sign_extend8, sign_extend16, first_reg, sext8, sext16, list_rank, slot_addr, lowest_set,
    lemma_slot_next, lemma_popcount_step, lemma_popcount_mono, lemma_popcount_byte,
};
use crate::bus::Bus;
use crate::mem::{read8_value, read8_next, eeprom_port, load32, load16, read16_next, port_word_read, ldr_word};
use crate::store::{written8, wrote16, wrote32};
use crate::bits::{rotate_right, count_ones16, byte_at, byte_of, rotr, popcount};
use crate::cpu::{Cpu, StepEvent};
use crate::swi::{swi_done, swi_event};

verus! {

/// The Thumb opcodes this core implements: all but the undefined encodings
/// of the miscellaneous group and the ARMv5 BLX suffix.
pub open spec fn thumb_implemented(op: u32) -> bool {
    let top = op >> 13u32;
    !(top == 0b101 && op & 0x1000 != 0 && op & 0x0F00 != 0 && op & 0x0600 != 0x0400)
        && !(top == 0b111 && op & 0x1800 == 0x0800)
}

/// The result of Thumb ALU operation `alu` (format 4) on Rd = `a` and Rs =
/// `b`, and the CPSR after it; `None` for the comparisons, which write no
/// register.
pub open spec fn thumb_alu(alu: u32, a: u32, b: u32, cpsr: u32) -> (Option<u32>, u32) {
    let c: u32 = if flag(cpsr, FLAG_C) { 1 } else { 0 };
    let logic = |r: u32| (Some(r), with_nz(cpsr, r));
    let shifted = |ty: u32| {
        let (r, cy) = barrel(ty, a, b & 0xFF, false, flag(cpsr, FLAG_C));
        (Some(r), with_flag(with_nz(cpsr, r), FLAG_C, cy))
    };
    if alu == 0x0 { logic(a & b) }
    else if alu == 0x1 { logic(a ^ b) }
    else if alu == 0x2 { shifted(0) }
    else if alu == 0x3 { shifted(1) }
    else if alu == 0x4 { shifted(2) }
    else if alu == 0x5 { (Some(add_result(a, b, c)), add_flags(cpsr, a, b, c)) }
    else if alu == 0x6 { (Some(add_result(a, !b, c)), add_flags(cpsr, a, !b, c)) }
    else if alu == 0x7 { shifted(3) }
    else if alu == 0x8 { (None, with_nz(cpsr, a & b)) }
    else if alu == 0x9 { (Some(add_result(0, !b, 1)), add_flags(cpsr, 0, !b, 1)) }
    else if alu == 0xA { (None, add_flags(cpsr, a, !b, 1)) }
    else if alu == 0xB { (None, add_flags(cpsr, a, b, 0)) }
    else if alu == 0xC { logic(a | b) }
    else if alu == 0xD { logic(((a as int * b as int) % 0x1_0000_0000) as u32) }
    else if alu == 0xE { logic(a & !b) }
    else { logic(!b) }
}

/// Format 4: Rd (and the flags) from the ALU operation on Rd and Rs;
/// nothing else changes.
pub open spec fn thumb_alu_done(old: Cpu, new: Cpu, op: u32) -> bool {
    let rd = op & 7;
    let (r, c) = thumb_alu((op >> 6u32) & 0xF, old.regs[rd as int], old.regs[((op >> 3u32) & 7) as int], old.cpsr);
    &&& new.cpsr == c
    &&& new.regs@ == (match r { Some(v) => old.regs@.update(rd as int, v), None => old.regs@ })
    &&& new == (Cpu { regs: new.regs, cpsr: new.cpsr, ..old })
}

/// Formats 1 and 2: Rd from a shift by an immediate, or from an addition or
/// subtraction of a register or a 3-bit immediate, with the flags.
pub open spec fn thumb_shift_add_done(old: Cpu, new: Cpu, op: u32) -> bool {
    let rd = op & 7;
    let a = old.regs[((op >> 3u32) & 7) as int];
    if (op >> 11u32) & 3 == 3 {
        let v = if op & 0x400 != 0 { (op >> 6u32) & 7 } else { old.regs[((op >> 6u32) & 7) as int] };
        let (b, c) = if op & 0x200 != 0 { (!v, 1u32) } else { (v, 0u32) };
        &&& new.regs@ == old.regs@.update(rd as int, add_result(a, b, c))
        &&& new.cpsr == add_flags(old.cpsr, a, b, c)
    } else {
        let (r, cy) = barrel((op >> 11u32) & 3, a, (op >> 6u32) & 0x1F, true, flag(old.cpsr, FLAG_C));
        &&& new.regs@ == old.regs@.update(rd as int, r)
        &&& new.cpsr == with_flag(with_nz(old.cpsr, r), FLAG_C, cy)
    }
}

/// Format 3: MOV, CMP, ADD, SUB of Rd and an 8-bit immediate.
pub open spec fn thumb_imm8_done(old: Cpu, new: Cpu, op: u32) -> bool {
    let rd = (op >> 8u32) & 7;
    let imm = op & 0xFF;
    let a = old.regs[rd as int];
    let k = (op >> 11u32) & 3;
    if k == 0 {
        new.regs@ == old.regs@.update(rd as int, imm) && new.cpsr == with_nz(old.cpsr, imm)
    } else if k == 1 {
        new.regs == old.regs && new.cpsr == add_flags(old.cpsr, a, !imm, 1)
    } else if k == 2 {
        new.regs@ == old.regs@.update(rd as int, add_result(a, imm, 0)) && new.cpsr == add_flags(old.cpsr, a, imm, 0)
    } else {
        new.regs@ == old.regs@.update(rd as int, add_result(a, !imm, 1)) && new.cpsr == add_flags(old.cpsr, a, !imm, 1)
    }
}

/// Format 16: the PC moves by the signed 8-bit offset times 2 from the PC as
/// read (PC+4 in Thumb state) when the condition holds; nothing else changes.
pub open spec fn thumb_cond_branch_done(old: Cpu, new: Cpu, op: u32) -> bool {
    &&& new.regs[15] == (if cond_passed(old.cpsr, (op >> 8u32) & 0xF) {
        ((old.reg_value(15) + 2 * (if op & 0x80 != 0 { (op & 0xFF) - 0x100 } else { (op & 0xFF) as int }))
            % 0x1_0000_0000) as u32
    } else { old.regs[15] })
    &&& new == (Cpu { regs: new.regs, ..old })
}

/// Formats 18 and 19: B moves the PC; the first half of BL puts the high
/// part of the target in LR; the second adds the low part, jumps, and leaves
/// the return address (with bit 0 set) in LR.
pub open spec fn thumb_branch_done(old: Cpu, new: Cpu, op: u32) -> bool {
    &&& new == (Cpu { regs: new.regs, ..old })
    &&& op & 0x1800 == 0 ==> new.regs@ == old.regs@.update(15,
        ((old.reg_value(15) + thumb_branch_offset(op)) % 0x1_0000_0000) as u32)
    &&& op & 0x1800 == 0x1000 ==> new.regs@ == old.regs@.update(14,
        ((old.reg_value(15) + thumb_bl_high(op)) % 0x1_0000_0000) as u32)
    &&& op & 0x1800 == 0x1800 ==> new.regs@ == old.regs@
        .update(14, (((old.regs[15] + 2) % 0x1_0000_0000) as u32) | 1u32)
        .update(15, (((old.regs[14] + ((op & 0x7FF) << 1u32)) % 0x1_0000_0000) as u32) & !1u32)
    &&& op & 0x1800 == 0x0800 ==> new == old
}

/// Format 5: ADD and MOV into any register (r15 with bit 0 cleared), CMP
/// setting the flags, and BX, which takes the Thumb bit from bit 0 of the
/// target and aligns it to the new instruction size.
pub open spec fn thumb_hi_done(old: Cpu, new: Cpu, op: u32) -> bool {
    let rd = (op & 7) | ((op >> 4u32) & 8);
    let a = old.reg_value(rd);
    let b = old.reg_value((op >> 3u32) & 0xF);
    let k = (op >> 8u32) & 3;
    if k == 0 || k == 2 {
        let r = if k == 0 { ((a + b) % 0x1_0000_0000) as u32 } else { b };
        &&& new == (Cpu { regs: new.regs, ..old })
        &&& new.regs@ == old.regs@.update(rd as int, if rd == 15 { r & !1u32 } else { r })
    } else if k == 1 {
        new == (Cpu { cpsr: add_flags(old.cpsr, a, !b, 1), ..old })
    } else {
        &&& new == (Cpu { regs: new.regs, cpsr: new.cpsr, ..old })
        &&& new.cpsr == with_flag(old.cpsr, FLAG_T, b & 1 != 0)
        &&& new.regs@ == old.regs@.update(15, if b & 1 != 0 { b & !1u32 } else { b & !3u32 })
    }
}

/// Format 6: Rd takes the word at the word-aligned PC+4 plus the offset;
/// at the EEPROM port, the word the chip clocks out.
pub open spec fn thumb_pc_load_done(old: Cpu, new: Cpu, op: u32) -> bool {
    let rd = (op >> 8u32) & 7;
    let addr = (((old.reg_value(15) & !3u32) + ((op & 0xFF) << 2u32)) % 0x1_0000_0000) as u32;
    &&& !eeprom_port(old.bus, addr) ==> {
        &&& new == (Cpu { regs: new.regs, ..old })
        &&& new.regs@ == old.regs@.update(rd as int, load32(old.bus, addr))
    }
    &&& eeprom_port(old.bus, addr) ==> exists|w: u32| #[trigger] port_word_read(old.bus, new.bus, w)
        && new.regs@ == old.regs@.update(rd as int, w)
}

/// Formats 7 and 8: STR, STRB, LDR, LDRB, STRH, LDSB, LDRH, LDSH at Rb + Ro.
/// Word loads rotate like LDR; an odd LDSH loads the byte sign-extended.
pub open spec fn thumb_reg_offset_done(old: Cpu, new: Cpu, op: u32) -> bool {
    let rd = op & 7;
    let addr = ((old.regs[((op >> 3u32) & 7) as int] + old.regs[((op >> 6u32) & 7) as int]) % 0x1_0000_0000) as u32;
    let k = (op >> 10u32) & 3;
    let v = old.regs[rd as int];
    &&& new == (Cpu { regs: new.regs, bus: new.bus, ..old })
    &&& if op & 0x0200 != 0 {
        if k == 0 {
            new.regs == old.regs && wrote16(old.bus, new.bus, addr, (v & 0xFFFF) as u16)
        } else if k == 1 || (k == 3 && addr & 1 != 0) {
            new.regs@ == old.regs@.update(rd as int, sext8(read8_value(old.bus, addr))) && read8_next(old.bus, new.bus, addr)
        } else if k == 2 {
            new.regs@ == old.regs@.update(rd as int, rotr(load16(old.bus, addr) as u32, ((addr & 1) * 8) as u32))
                && read16_next(old.bus, new.bus, addr)
        } else {
            new.regs@ == old.regs@.update(rd as int, sext16(load16(old.bus, addr))) && read16_next(old.bus, new.bus, addr)
        }
    } else {
        if k == 0 {
            new.regs == old.regs && wrote32(old.bus, new.bus, addr, v)
        } else if k == 1 {
            new.regs == old.regs && written8(old.bus, new.bus, addr, byte_of(v, 0))
        } else if k == 2 {
            new.regs@ == old.regs@.update(rd as int, new.regs[rd as int]) && ldr_word(old.bus, new.bus, addr, new.regs[rd as int])
        } else {
            new.regs@ == old.regs@.update(rd as int, read8_value(old.bus, addr) as u32) && read8_next(old.bus, new.bus, addr)
        }
    }
}

/// Format 9: STR, LDR, STRB, LDRB at Rb plus a 5-bit immediate (scaled by 4
/// for words). Word loads rotate like LDR.
pub open spec fn thumb_ls_imm_done(old: Cpu, new: Cpu, op: u32) -> bool {
    let rd = op & 7;
    let imm = (op >> 6u32) & 0x1F;
    let byte = op & 0x1000 != 0;
    let addr = ((old.regs[((op >> 3u32) & 7) as int] + if byte { imm } else { imm << 2u32 }) % 0x1_0000_0000) as u32;
    let v = old.regs[rd as int];
    &&& new == (Cpu { regs: new.regs, bus: new.bus, ..old })
    &&& if op & 0x0800 == 0 {
        &&& new.regs == old.regs
        &&& byte ==> written8(old.bus, new.bus, addr, byte_of(v, 0))
        &&& !byte ==> wrote32(old.bus, new.bus, addr, v)
    } else if byte {
        new.regs@ == old.regs@.update(rd as int, read8_value(old.bus, addr) as u32) && read8_next(old.bus, new.bus, addr)
    } else {
        new.regs@ == old.regs@.update(rd as int, new.regs[rd as int]) && ldr_word(old.bus, new.bus, addr, new.regs[rd as int])
    }
}

/// Formats 10 and 11: STRH/LDRH at Rb plus a 5-bit immediate times 2, and
/// STR/LDR at SP plus an 8-bit immediate times 4.
pub open spec fn thumb_100_done(old: Cpu, new: Cpu, op: u32) -> bool {
    &&& new == (Cpu { regs: new.regs, bus: new.bus, ..old })
    &&& if op & 0x1000 == 0 {
        let rd = op & 7;
        let addr = ((old.regs[((op >> 3u32) & 7) as int] + (((op >> 6u32) & 0x1F) << 1u32)) % 0x1_0000_0000) as u32;
        if op & 0x0800 != 0 {
            new.regs@ == old.regs@.update(rd as int, rotr(load16(old.bus, addr) as u32, ((addr & 1) * 8) as u32))
                && read16_next(old.bus, new.bus, addr)
        } else {
            new.regs == old.regs && wrote16(old.bus, new.bus, addr, (old.regs[rd as int] & 0xFFFF) as u16)
        }
    } else {
        let rd = (op >> 8u32) & 7;
        let addr = ((old.regs[13] + ((op & 0xFF) << 2u32)) % 0x1_0000_0000) as u32;
        if op & 0x0800 != 0 {
            new.regs@ == old.regs@.update(rd as int, new.regs[rd as int]) && ldr_word(old.bus, new.bus, addr, new.regs[rd as int])
        } else {
            new.regs == old.regs && wrote32(old.bus, new.bus, addr, old.regs[rd as int])
        }
    }
}

/// The words STMIA stores, from `c.bus` to `fin`: the listed low registers,
/// lowest first, at consecutive words from Rb; Rb itself, when it is not
/// the lowest listed, as its written-back value.
pub open spec fn stmia_trace(c: Cpu, op: u32, bs: Seq<Bus>, fin: Bus) -> bool {
    let rb = (op >> 8u32) & 7;
    let list = op & 0xFF;
    let n = popcount(list, 8);
    let base = c.regs[rb as int];
    &&& bs.len() == n + 1
    &&& bs[0] == c.bus
    &&& bs[n as int] == fin
    &&& forall|i: u32| i < 8 && #[trigger] bit(list, i) ==> wrote32(bs[list_rank(list, i) as int],
        bs[list_rank(list, i) + 1int], slot_addr(base, list_rank(list, i)),
        if i == rb && !lowest_set(list, i) { slot_addr(base, n) } else { c.regs[i as int] })
}

/// LDMIA reads only away from the EEPROM port.
pub open spec fn ldmia_clear(c: Cpu, op: u32) -> bool {
    let list = op & 0xFF;
    forall|i: u32| i < 8 && #[trigger] bit(list, i)
        ==> !eeprom_port(c.bus, slot_addr(c.regs[((op >> 8u32) & 7) as int], list_rank(list, i)))
}

/// The registers after LDMIA: the listed low registers from consecutive
/// words at Rb; Rb, unless loaded, past the words read.
pub open spec fn ldmia_regs(c: Cpu, op: u32) -> Seq<u32> {
    let rb = (op >> 8u32) & 7;
    let list = op & 0xFF;
    let base = c.regs[rb as int];
    Seq::new(16, |j: int| if 0 <= j < 8 && bit(list, j as u32) {
        load32(c.bus, slot_addr(base, list_rank(list, j as u32)))
    } else if j == rb {
        slot_addr(base, popcount(list, 8))
    } else {
        c.regs[j]
    })
}

/// Format 15, LDMIA/STMIA. The empty list transfers r15 alone (storing
/// PC+6) and moves Rb by 0x40.
pub open spec fn thumb_ldm_stm_done(old: Cpu, new: Cpu, op: u32) -> bool {
    let rb = (op >> 8u32) & 7;
    let list = op & 0xFF;
    let base = old.regs[rb as int];
    if list == 0 {
        let nb = ((base + 0x40) % 0x1_0000_0000) as u32;
        if op & 0x0800 != 0 {
            !eeprom_port(old.bus, base) ==> {
                &&& new == (Cpu { regs: new.regs, ..old })
                &&& new.regs@ == old.regs@.update(15, load32(old.bus, base) & !1u32).update(rb as int, nb)
            }
        } else {
            &&& new == (Cpu { regs: new.regs, bus: new.bus, ..old })
            &&& new.regs@ == old.regs@.update(rb as int, nb)
            &&& wrote32(old.bus, new.bus, base, ((old.reg_value(15) + 2) % 0x1_0000_0000) as u32)
        }
    } else if op & 0x0800 != 0 {
        ldmia_clear(old, op) ==> new == (Cpu { regs: new.regs, ..old }) && new.regs@ == ldmia_regs(old, op)
    } else {
        &&& new == (Cpu { regs: new.regs, bus: new.bus, ..old })
        &&& new.regs@ == old.regs@.update(rb as int, slot_addr(base, popcount(list, 8)))
        &&& exists|bs: Seq<Bus>| #[trigger] stmia_trace(old, op, bs, new.bus)
    }
}

/// Where PUSH stores its first word: below SP by one word per listed
/// register, and one more for LR when R is set.
pub open spec fn push_start(c: Cpu, op: u32) -> u32 {
    let n = popcount(op & 0xFF, 8) + if op & 0x0100 != 0 { 1nat } else { 0nat };
    ((c.regs[13] - 4 * n) % 0x1_0000_0000) as u32
}

/// The buses PUSH passes through, from `c.bus` to `fin`: the listed low
/// registers, lowest first, then LR when R is set, at consecutive words
/// from `start`.
pub open spec fn push_trace(c: Cpu, op: u32, start: u32, bs: Seq<Bus>, fin: Bus) -> bool {
    let list = op & 0xFF;
    let n = popcount(list, 8);
    let total = n + if op & 0x0100 != 0 { 1nat } else { 0nat };
    &&& bs.len() == total + 1
    &&& bs[0] == c.bus
    &&& bs[total as int] == fin
    &&& forall|i: u32| i < 8 && #[trigger] bit(list, i) ==> wrote32(bs[list_rank(list, i) as int],
        bs[list_rank(list, i) + 1int], slot_addr(start, list_rank(list, i)), c.regs[i as int])
    &&& op & 0x0100 != 0 ==> wrote32(bs[n as int], bs[n + 1int], slot_addr(start, n), c.regs[14])
}

/// POP reads only away from the EEPROM port.
pub open spec fn pop_clear(c: Cpu, op: u32) -> bool {
    let list = op & 0xFF;
    &&& forall|i: u32| i < 8 && #[trigger] bit(list, i) ==> !eeprom_port(c.bus, slot_addr(c.regs[13], list_rank(list, i)))
    &&& op & 0x0100 != 0 ==> !eeprom_port(c.bus, slot_addr(c.regs[13], popcount(list, 8)))
}

/// The registers after POP: the listed low registers from consecutive
/// words at SP, then the PC (bit 0 cleared) when R is set, and SP past
/// the words read.
pub open spec fn pop_regs(c: Cpu, op: u32) -> Seq<u32> {
    let list = op & 0xFF;
    let n = popcount(list, 8);
    let sp = c.regs[13];
    let r = op & 0x0100 != 0;
    Seq::new(16, |j: int| if 0 <= j < 8 && bit(list, j as u32) {
        load32(c.bus, slot_addr(sp, list_rank(list, j as u32)))
    } else if j == 15 && r {
        load32(c.bus, slot_addr(sp, n)) & !1u32
    } else if j == 13 {
        slot_addr(sp, n + if r { 1nat } else { 0nat })
    } else {
        c.regs[j]
    })
}

/// Formats 12-14: ADD Rd, PC/SP, #imm (from the word-aligned PC+4); ADD SP,
/// #+/-imm; PUSH, which stores below SP and moves SP down; POP, from a
/// stack clear of the EEPROM port. The undefined encodings change nothing.
pub open spec fn thumb_101_done(old: Cpu, new: Cpu, op: u32) -> bool {
    if op & 0x1000 == 0 {
        let rd = (op >> 8u32) & 7;
        let base = if op & 0x0800 != 0 { old.regs[13] } else { old.reg_value(15) & !3u32 };
        &&& new == (Cpu { regs: new.regs, ..old })
        &&& new.regs@ == old.regs@.update(rd as int, ((base + ((op & 0xFF) << 2u32)) % 0x1_0000_0000) as u32)
    } else if op & 0x0F00 == 0 {
        let imm = (op & 0x7F) << 2u32;
        &&& new == (Cpu { regs: new.regs, ..old })
        &&& new.regs@ == old.regs@.update(13, if op & 0x80 != 0 {
            ((old.regs[13] - imm) % 0x1_0000_0000) as u32
        } else {
            ((old.regs[13] + imm) % 0x1_0000_0000) as u32
        })
    } else if op & 0x0600 == 0x0400 {
        if op & 0x0800 == 0 {
            &&& new == (Cpu { regs: new.regs, bus: new.bus, ..old })
            &&& new.regs@ == old.regs@.update(13, push_start(old, op))
            &&& exists|bs: Seq<Bus>| #[trigger] push_trace(old, op, push_start(old, op), bs, new.bus)
        } else {
            pop_clear(old, op) ==> new == (Cpu { regs: new.regs, ..old }) && new.regs@ == pop_regs(old, op)
        }
    } else {
        new == old
    }
}

impl Cpu {
    /// Format 4, the ALU operations on low registers.
    pub fn thumb_alu_op(&mut self, op: u32)
        ensures
            thumb_alu_done(*old(self), *final(self), op),
            final(self).bus == old(self).bus && final(self).halted == old(self).halted,
    {
        proof { lemma_fields(op); }
        let rd = op & 7;
        let rs = op >> 3 & 7;
        let a = self.r(rd);
        let b = self.r(rs);
        let cpsr = self.cpsr;
        let c: u32 = if cpsr & FLAG_C != 0 { 1 } else { 0 };
        let alu = op >> 6 & 0xF;
        let (r, flags): (Option<u32>, u32) = if alu == 0x0 {
            (Some(a & b), set_nz(cpsr, a & b))
        } else if alu == 0x1 {
            (Some(a ^ b), set_nz(cpsr, a ^ b))
        } else if alu == 0x2 || alu == 0x3 || alu == 0x4 || alu == 0x7 {
            let ty = if alu == 0x2 { 0 } else if alu == 0x3 { 1 } else if alu == 0x4 { 2 } else { 3 };
            let (v, cy) = shift(ty, a, b & 0xFF, false, cpsr & FLAG_C != 0);
            (Some(v), set_flag(set_nz(cpsr, v), FLAG_C, cy))
        } else if alu == 0x5 {
            let (v, f) = add_with_flags(cpsr, a, b, c);
            (Some(v), f)
        } else if alu == 0x6 {
            let (v, f) = add_with_flags(cpsr, a, !b, c);
            (Some(v), f)
        } else if alu == 0x8 {
            (None, set_nz(cpsr, a & b))
        } else if alu == 0x9 {
            let (v, f) = add_with_flags(cpsr, 0, !b, 1);
            (Some(v), f)
        } else if alu == 0xA {
            let (_, f) = add_with_flags(cpsr, a, !b, 1);
            (None, f)
        } else if alu == 0xB {
            let (_, f) = add_with_flags(cpsr, a, b, 0);
            (None, f)
        } else if alu == 0xC {
            (Some(a | b), set_nz(cpsr, a | b))
        } else if alu == 0xD {
            let v = a.wrapping_mul(b);
            (Some(v), set_nz(cpsr, v))
        } else if alu == 0xE {
            (Some(a & !b), set_nz(cpsr, a & !b))
        } else {
            (Some(!b), set_nz(cpsr, !b))
        };
        if let Some(v) = r {
            self.regs[rd as usize] = v;
        }
        self.cpsr = flags;
    }

    /// Formats 5-8 of the 010 group: high-register operations and BX, the
    /// PC-relative load, and loads/stores with a register offset.
    pub fn thumb_group_010(&mut self, op: u32)
        requires
            old(self).wf(),
        ensures
            final(self).wf(),
            final(self).halted == old(self).halted,
            op & 0x1C00 == 0x0000 ==> thumb_alu_done(*old(self), *final(self), op),
            op & 0x1C00 == 0x0400 ==> thumb_hi_done(*old(self), *final(self), op),
            op & 0x1C00 != 0x0000 && op & 0x1C00 != 0x0400 && op & 0x1800 == 0x0800
                ==> thumb_pc_load_done(*old(self), *final(self), op),
            op & 0x1C00 != 0x0000 && op & 0x1C00 != 0x0400 && op & 0x1800 != 0x0800
                ==> thumb_reg_offset_done(*old(self), *final(self), op),
    {
        if op & 0x1C00 == 0x0000 {
            self.thumb_alu_op(op);
        } else if op & 0x1C00 == 0x0400 {
            self.thumb_hi(op);
        } else if op & 0x1800 == 0x0800 {
            self.thumb_pc_load(op);
        } else {
            self.thumb_reg_offset(op);
        }
    }

    /// Format 5: ADD, CMP, MOV with a high register, and BX.
    fn thumb_hi(&mut self, op: u32)
        requires
            old(self).wf(),
        ensures
            final(self).wf(),
            thumb_hi_done(*old(self), *final(self), op),
    {
        proof { lemma_fields(op); }
        let rd = (op & 7) | (op >> 4 & 8);
        let rs = op >> 3 & 0xF;
        proof { lemma_u32_masks(op); }
        let k = op >> 8 & 3;
        if k == 0 {
            let r = self.r(rd).wrapping_add(self.r(rs));
            if rd == 15 {
                self.regs[15] = r & !1u32;
            } else {
                self.set_r(rd, r);
            }
        } else if k == 1 {
            let a = self.r(rd);
            let b = self.r(rs);
            let (_, f) = add_with_flags(self.cpsr, a, !b, 1);
            self.cpsr = f;
        } else if k == 2 {
            let v = self.r(rs);
            if rd == 15 {
                self.regs[15] = v & !1u32;
            } else {
                self.set_r(rd, v);
            }
        } else {
            // BX
            let v = self.r(rs);
            proof { lemma_u32_masks(v); }
            self.cpsr = set_flag(self.cpsr, FLAG_T, v & 1 != 0);
            self.regs[15] = v & !1u32;
            if v & 1 == 0 {
                self.regs[15] = self.regs[15] & !3u32;
                assert(v & !1u32 & !3u32 == v & !3u32);
                assert(self.regs@ =~= old(self).regs@.update(15, v & !3u32));
            }
        }
    }

    /// Format 6: LDR Rd, [PC, #imm], from the word-aligned PC+4.
    #[verifier::spinoff_prover]
    #[verifier::rlimit(80)]
    fn thumb_pc_load(&mut self, op: u32)
        requires
            old(self).wf(),
        ensures
            final(self).wf(),
            *final(self) == (Cpu { regs: final(self).regs, bus: final(self).bus, ..*old(self) }),
            thumb_pc_load_done(*old(self), *final(self), op),
    {
        proof { lemma_fields(op); }
        let rd = op >> 8 & 7;
        let addr = (self.r(15) & !3u32).wrapping_add((op & 0xFF) << 2);
        let v = self.bus.read32(addr);
        self.set_r(rd, v);
    }

    /// Formats 7 and 8: loads and stores with a register offset.
    #[verifier::spinoff_prover]
    #[verifier::rlimit(80)]
    fn thumb_reg_offset(&mut self, op: u32)
        requires
            old(self).wf(),
        ensures
            final(self).wf(),
            thumb_reg_offset_done(*old(self), *final(self), op),
    {
        proof {
            lemma_fields(op);
            reveal(ldr_word);
        }
        let rd = op & 7;
        let addr = self.r(op >> 3 & 7).wrapping_add(self.r(op >> 6 & 7));
        proof { lemma_u32_masks(addr); lemma_u32_masks(op); }
        let k = op >> 10 & 3;
        if op & 0x0200 != 0 {
            // sign-extended group
            if k == 0 {
                let v = self.r(rd);
                self.bus.write16(addr, (v & 0xFFFF) as u16); // STRH
            } else if k == 1 {
                let v = sign_extend8(self.bus.read8(addr));
                self.set_r(rd, v);
            } else if k == 2 {
                let h = self.bus.read16(addr) as u32;
                self.set_r(rd, rotate_right(h, (addr & 1) * 8));
            } else {
                let v = if addr & 1 != 0 {
                    sign_extend8(self.bus.read8(addr))
                } else {
                    sign_extend16(self.bus.read16(addr))
                };
                self.set_r(rd, v);
            }
        } else {
            if k == 0 {
                let v = self.r(rd);
                self.bus.write32(addr, v);
            } else if k == 1 {
                let v = self.r(rd);
                self.bus.write8(addr, byte_at(v, 0));
            } else if k == 2 {
                let v = rotate_right(self.bus.read32(addr), (addr & 3) * 8);
                self.set_r(rd, v);
            } else {
                let v = self.bus.read8(addr) as u32;
                self.set_r(rd, v);
            }
        }
    }
}

impl Cpu {
    /// Formats 1 and 2: shift by immediate; add/subtract a register or a
    /// 3-bit immediate.
    pub fn thumb_shift_add(&mut self, op: u32)
        ensures
            thumb_shift_add_done(*old(self), *final(self), op),
            final(self).bus == old(self).bus && final(self).halted == old(self).halted,
    {
        proof { lemma_fields(op); }
        let rd = op & 7;
        let rs = op >> 3 & 7;
        let a = self.regs[rs as usize];
        if op >> 11 & 3 == 3 {
            // ADD/SUB register or 3-bit immediate
            let v = if op & 0x400 != 0 { op >> 6 & 7 } else { self.regs[(op >> 6 & 7) as usize] };
            let (r, f) = if op & 0x200 != 0 {
                add_with_flags(self.cpsr, a, !v, 1)
            } else {
                add_with_flags(self.cpsr, a, v, 0)
            };
            self.cpsr = f;
            self.regs[rd as usize] = r;
        } else {
            // LSL/LSR/ASR by immediate
            let amount = op >> 6 & 0x1F;
            let (r, c) = shift(op >> 11 & 3, a, amount, true, self.cpsr & FLAG_C != 0);
            self.regs[rd as usize] = r;
            self.cpsr = set_flag(set_nz(self.cpsr, r), FLAG_C, c);
        }
    }

    /// Format 3: MOV, CMP, ADD, SUB with an 8-bit immediate.
    pub fn thumb_imm8(&mut self, op: u32)
        ensures
            thumb_imm8_done(*old(self), *final(self), op),
            final(self).bus == old(self).bus && final(self).halted == old(self).halted,
    {
        proof { lemma_fields(op); }
        let rd = op >> 8 & 7;
        let imm = op & 0xFF;
        let a = self.regs[rd as usize];
        let k = op >> 11 & 3;
        if k == 0 {
            self.regs[rd as usize] = imm;
            self.cpsr = set_nz(self.cpsr, imm);
        } else if k == 1 {
            let (_, f) = add_with_flags(self.cpsr, a, !imm, 1);
            self.cpsr = f;
        } else if k == 2 {
            let (r, f) = add_with_flags(self.cpsr, a, imm, 0);
            self.cpsr = f;
            self.regs[rd as usize] = r;
        } else {
            let (r, f) = add_with_flags(self.cpsr, a, !imm, 1);
            self.cpsr = f;
            self.regs[rd as usize] = r;
        }
    }

    /// Format 9: LDR/STR/LDRB/STRB with a 5-bit immediate offset.
    #[verifier::spinoff_prover]
    #[verifier::rlimit(100)]
    pub fn thumb_ls_imm(&mut self, op: u32)
        requires
            old(self).wf(),
        ensures
            final(self).wf(),
            thumb_ls_imm_done(*old(self), *final(self), op),
    {
        proof {
            lemma_fields(op);
            reveal(ldr_word);
        }
        let rd = op & 7;
        let base = self.regs[(op >> 3 & 7) as usize];
        let imm = op >> 6 & 0x1F;
        let byte = op & 0x1000 != 0;
        let load = op & 0x0800 != 0;
        let addr = base.wrapping_add(if byte { imm } else { imm << 2 });
        proof { lemma_u32_masks(addr); }
        if !load && !byte {
            let v = self.regs[rd as usize];
            self.bus.write32(addr, v);
        } else if !load && byte {
            let v = self.regs[rd as usize];
            self.bus.write8(addr, byte_at(v, 0));
        } else if load && !byte {
            let v = rotate_right(self.bus.read32(addr), (addr & 3) * 8);
            self.regs[rd as usize] = v;
        } else {
            let v = self.bus.read8(addr) as u32;
            self.regs[rd as usize] = v;
        }
    }

    /// Formats 10 and 11: LDRH/STRH with an immediate offset, and
    /// SP-relative LDR/STR.
    #[verifier::spinoff_prover]
    #[verifier::rlimit(80)]
    pub fn thumb_100(&mut self, op: u32)
        requires
            old(self).wf(),
        ensures
            final(self).wf(),
            thumb_100_done(*old(self), *final(self), op),
    {
        proof {
            lemma_fields(op);
            reveal(ldr_word);
        }
        if op & 0x1000 == 0 {
            // LDRH/STRH immediate
            let rd = op & 7;
            let addr = self.regs[(op >> 3 & 7) as usize].wrapping_add((op >> 6 & 0x1F) << 1);
            proof { lemma_u32_masks(addr); }
            if op & 0x0800 != 0 {
                let v = rotate_right(self.bus.read16(addr) as u32, (addr & 1) * 8);
                self.regs[rd as usize] = v;
            } else {
                let v = self.regs[rd as usize];
                self.bus.write16(addr, (v & 0xFFFF) as u16);
            }
        } else {
            // LDR/STR sp-relative
            let rd = op >> 8 & 7;
            let addr = self.regs[13].wrapping_add((op & 0xFF) << 2);
            proof { lemma_u32_masks(addr); }
            if op & 0x0800 != 0 {
                let v = rotate_right(self.bus.read32(addr), (addr & 3) * 8);
                self.regs[rd as usize] = v;
            } else {
                let v = self.regs[rd as usize];
                self.bus.write32(addr, v);
            }
        }
    }

    /// Formats 12-14: ADD Rd, PC/SP, #imm; ADD SP, #+/-imm; PUSH and POP.
    /// Returns false for the undefined encodings of the group.
    #[verifier::spinoff_prover]
    #[verifier::rlimit(80)]
    pub fn thumb_101(&mut self, op: u32) -> (ok: bool)
        requires
            old(self).wf(),
        ensures
            final(self).wf(),
            final(self).cpsr == old(self).cpsr && final(self).halted == old(self).halted,
            ok == !(op & 0x1000 != 0 && op & 0x0F00 != 0 && op & 0x0600 != 0x0400),
            thumb_101_done(*old(self), *final(self), op),
    {
        proof { lemma_fields(op); }
        if op & 0x1000 == 0 {
            // ADD rd, pc/sp, imm
            let rd = op >> 8 & 7;
            let imm = (op & 0xFF) << 2;
            let base = if op & 0x0800 != 0 { self.regs[13] } else { self.r(15) & !3u32 };
            self.regs[rd as usize] = base.wrapping_add(imm);
        } else if op & 0x0F00 == 0 {
            // ADD SP, +/-imm
            let imm = (op & 0x7F) << 2;
            let sp = self.regs[13];
            self.regs[13] = if op & 0x80 != 0 { sp.wrapping_sub(imm) } else { sp.wrapping_add(imm) };
        } else if op & 0x0600 == 0x0400 {
            if op & 0x0800 != 0 {
                self.thumb_pop(op);
            } else {
                let _ = self.thumb_push(op);
            }
        } else {
            return false;
        }
        true
    }

    /// PUSH: the listed low registers, then LR with R, below SP; SP moves
    /// down past them.
    #[verifier::spinoff_prover]
    #[verifier::rlimit(80)]
    fn thumb_push(&mut self, op: u32) -> (trace: Ghost<Seq<Bus>>)
        requires
            old(self).wf(),
        ensures
            final(self).wf(),
            *final(self) == (Cpu { regs: final(self).regs, bus: final(self).bus, ..*old(self) }),
            final(self).regs@ == old(self).regs@.update(13, push_start(*old(self), op)),
            push_trace(*old(self), op, push_start(*old(self), op), trace@, final(self).bus),
    {
        proof { lemma_u32_masks(op); }
        let r_bit = op & 0x0100 != 0;
        let list = op & 0xFF;
        proof { lemma_popcount_byte(list); }
        let n = count_ones16(list) + if r_bit { 1u32 } else { 0u32 };
        let start = self.regs[13].wrapping_sub(n * 4);
        assert(n == popcount(op & 0xFF, 8) + if op & 0x0100 != 0 { 1nat } else { 0nat });
        assert(start == ((old(self).regs[13] - 4 * (n as int)) % 0x1_0000_0000) as u32);
        let ghost mut bs: Seq<Bus> = seq![self.bus];
        let mut addr = start;
        let mut i: u32 = 0;
        while i < 8
            invariant
                i <= 8,
                list == op & 0xFF,
                r_bit == (op & 0x0100 != 0),
                self.wf(),
                *self == (Cpu { bus: self.bus, ..*old(self) }),
                bs.len() == popcount(list, i as nat) + 1,
                bs[0] == old(self).bus,
                bs[bs.len() - 1] == self.bus,
                addr == slot_addr(start, popcount(list, i as nat)),
                forall|j: u32| j < i && #[trigger] bit(list, j) ==> wrote32(bs[list_rank(list, j) as int],
                    bs[list_rank(list, j) + 1int], slot_addr(start, list_rank(list, j)), old(self).regs[j as int]),
            decreases 8 - i,
        {
            proof {
                lemma_u32_masks(list >> i);
                lemma_slot_next(start, popcount(list, i as nat));
            }
            if test_bit(list, i) {
                let v = self.regs[i as usize];
                let ghost before = bs;
                self.bus.write32(addr, v);
                proof {
                    bs = bs.push(self.bus);
                    lemma_popcount_step(list, i);
                    assert forall|j: u32| j < i && #[trigger] bit(list, j) implies wrote32(bs[list_rank(list, j) as int],
                        bs[list_rank(list, j) + 1int], slot_addr(start, list_rank(list, j)), old(self).regs[j as int]) by {
                        lemma_popcount_step(list, j);
                        lemma_popcount_mono(list, (j + 1) as nat, i as nat);
                        assert(bs[list_rank(list, j) as int] == before[list_rank(list, j) as int]);
                        assert(bs[list_rank(list, j) + 1int] == before[list_rank(list, j) + 1int]);
                    }
                }
                addr = addr.wrapping_add(4);
            } else {
                proof { lemma_popcount_step(list, i); }
            }
            i = i + 1;
        }
        if r_bit {
            let lr = self.regs[14];
            let ghost before = bs;
            self.bus.write32(addr, lr);
            proof {
                bs = bs.push(self.bus);
                assert forall|j: u32| j < 8 && #[trigger] bit(list, j) implies wrote32(bs[list_rank(list, j) as int],
                    bs[list_rank(list, j) + 1int], slot_addr(start, list_rank(list, j)), old(self).regs[j as int]) by {
                    lemma_popcount_step(list, j);
                    lemma_popcount_mono(list, (j + 1) as nat, 8);
                    assert(bs[list_rank(list, j) as int] == before[list_rank(list, j) as int]);
                    assert(bs[list_rank(list, j) + 1int] == before[list_rank(list, j) + 1int]);
                }
            }
        }
        self.regs[13] = start;
        proof {
            assert(self.regs@ =~= old(self).regs@.update(13, start));
        }
        Ghost(bs)
    }

    /// POP: the listed low registers, then the PC with R, from SP upwards;
    /// SP moves up past them.
    #[verifier::spinoff_prover]
    #[verifier::rlimit(80)]
    fn thumb_pop(&mut self, op: u32)
        requires
            old(self).wf(),
        ensures
            final(self).wf(),
            final(self).cpsr == old(self).cpsr && final(self).halted == old(self).halted,
            pop_clear(*old(self), op) ==> *final(self) == (Cpu { regs: final(self).regs, ..*old(self) })
                && final(self).regs@ == pop_regs(*old(self), op),
    {
        proof { lemma_u32_masks(op); }
        let r_bit = op & 0x0100 != 0;
        let list = op & 0xFF;
        let sp = self.regs[13];
        let mut addr = sp;
        let mut i: u32 = 0;
        while i < 8
            invariant
                i <= 8,
                list == op & 0xFF,
                r_bit == (op & 0x0100 != 0),
                sp == old(self).regs[13],
                self.wf(),
                self.cpsr == old(self).cpsr && self.halted == old(self).halted,
                addr == slot_addr(sp, popcount(list, i as nat)),
                (forall|j: u32| j < i && #[trigger] bit(list, j) ==> !eeprom_port(old(self).bus, slot_addr(sp, list_rank(list, j)))) ==> {
                    &&& *self == (Cpu { regs: self.regs, ..*old(self) })
                    &&& forall|j: int| 0 <= j < 16 ==> #[trigger] self.regs@[j] == (if 0 <= j < i && bit(list, j as u32) {
                        load32(old(self).bus, slot_addr(sp, list_rank(list, j as u32)))
                    } else {
                        old(self).regs@[j]
                    })
                },
            decreases 8 - i,
        {
            proof {
                lemma_u32_masks(list >> i);
                lemma_slot_next(sp, popcount(list, i as nat));
                lemma_popcount_step(list, i);
            }
            if test_bit(list, i) {
                self.regs[i as usize] = self.bus.read32(addr);
                addr = addr.wrapping_add(4);
            }
            i = i + 1;
        }
        if r_bit {
            proof { lemma_slot_next(sp, popcount(list, 8)); }
            self.regs[15] = self.bus.read32(addr) & !1u32;
            addr = addr.wrapping_add(4);
        }
        self.regs[13] = addr;
        proof {
            if pop_clear(*old(self), op) {
                assert(self.regs@ =~= pop_regs(*old(self), op));
            }
        }
    }

    /// Formats 15-17: LDMIA/STMIA, conditional branch, SWI. Returns the
    /// BIOS call's event for an SWI.
    pub fn thumb_110(&mut self, op: u32) -> (ev: StepEvent)
        requires
            old(self).wf(),
        ensures
            final(self).wf(),
            op & 0x1000 != 0 && (op >> 8u32) & 0xF == 0xF ==> ev == swi_event(op & 0xFF),
            !(op & 0x1000 != 0 && (op >> 8u32) & 0xF == 0xF) ==> ev == StepEvent::Executed,
            op & 0x1000 != 0 && (op >> 8u32) & 0xF != 0xF ==> thumb_cond_branch_done(*old(self), *final(self), op),
            op & 0x1000 == 0 ==> thumb_ldm_stm_done(*old(self), *final(self), op),
            op & 0x1000 != 0 && (op >> 8u32) & 0xF == 0xF ==> swi_done(*old(self), *final(self), op & 0xFF),
    {
        proof { lemma_fields(op); }
        if op & 0x1000 == 0 {
            self.thumb_ldm_stm(op);
            StepEvent::Executed
        } else {
            let c = op >> 8 & 0xF;
            if c == 0xF {
                self.hle_swi(op & 0xFF)
            } else {
                if cond(self.cpsr, c) {
                    // Conditional branch
                    let imm = op & 0xFF;
                    proof { lemma_u32_masks(op); }
                    let off: u32 = if imm >= 0x80 { imm * 2 + 0xFFFF_FE00 } else { imm * 2 };
                    self.regs[15] = self.r(15).wrapping_add(off);
                }
                StepEvent::Executed
            }
        }
    }

    /// Format 15: LDMIA/STMIA.
    #[verifier::spinoff_prover]
    #[verifier::rlimit(80)]
    fn thumb_ldm_stm(&mut self, op: u32)
        requires
            old(self).wf(),
        ensures
            final(self).wf(),
            final(self).cpsr == old(self).cpsr && final(self).halted == old(self).halted,
            thumb_ldm_stm_done(*old(self), *final(self), op),
    {
        proof { lemma_fields(op); lemma_u32_masks(op); }
        let rb = op >> 8 & 7;
        let list = op & 0xFF;
        let addr = self.regs[rb as usize];
        if list == 0 {
            // Empty list quirk: r15, base += 0x40
            if op & 0x0800 != 0 {
                self.regs[15] = self.bus.read32(addr) & !1u32;
            } else {
                let v = self.r(15).wrapping_add(2);
                self.bus.write32(addr, v);
            }
            self.set_r(rb, addr.wrapping_add(0x40));
        } else if op & 0x0800 != 0 {
            self.thumb_ldmia(op);
        } else {
            let _ = self.thumb_stmia(op);
        }
    }

    /// LDMIA of a non-empty list.
    #[verifier::spinoff_prover]
    #[verifier::rlimit(80)]
    fn thumb_ldmia(&mut self, op: u32)
        requires
            old(self).wf(),
            op & 0xFF != 0,
        ensures
            final(self).wf(),
            final(self).cpsr == old(self).cpsr && final(self).halted == old(self).halted,
            ldmia_clear(*old(self), op) ==> *final(self) == (Cpu { regs: final(self).regs, ..*old(self) })
                && final(self).regs@ == ldmia_regs(*old(self), op),
    {
        proof { lemma_fields(op); lemma_u32_masks(op); }
        let rb = op >> 8 & 7;
        let list = op & 0xFF;
        let base = self.regs[rb as usize];
        let mut addr = base;
        let mut i: u32 = 0;
        while i < 8
            invariant
                i <= 8,
                rb == (op >> 8u32) & 7,
                rb < 8,
                list == op & 0xFF,
                base == old(self).regs[rb as int],
                self.wf(),
                self.cpsr == old(self).cpsr && self.halted == old(self).halted,
                addr == slot_addr(base, popcount(list, i as nat)),
                (forall|j: u32| j < i && #[trigger] bit(list, j) ==> !eeprom_port(old(self).bus, slot_addr(base, list_rank(list, j)))) ==> {
                    &&& *self == (Cpu { regs: self.regs, ..*old(self) })
                    &&& forall|j: int| 0 <= j < 16 ==> #[trigger] self.regs@[j] == (if 0 <= j < i && bit(list, j as u32) {
                        load32(old(self).bus, slot_addr(base, list_rank(list, j as u32)))
                    } else {
                        old(self).regs@[j]
                    })
                },
            decreases 8 - i,
        {
            proof {
                lemma_u32_masks(list >> i);
                lemma_slot_next(base, popcount(list, i as nat));
                lemma_popcount_step(list, i);
            }
            if test_bit(list, i) {
                self.regs[i as usize] = self.bus.read32(addr);
                addr = addr.wrapping_add(4);
            }
            i = i + 1;
        }
        if !test_bit(list, rb) {
            self.regs[rb as usize] = addr;
        }
        proof {
            if ldmia_clear(*old(self), op) {
                assert(self.regs@ =~= ldmia_regs(*old(self), op));
            }
        }
    }

    /// STMIA of a non-empty list.
    #[verifier::spinoff_prover]
    #[verifier::rlimit(80)]
    fn thumb_stmia(&mut self, op: u32) -> (trace: Ghost<Seq<Bus>>)
        requires
            old(self).wf(),
            op & 0xFF != 0,
        ensures
            final(self).wf(),
            *final(self) == (Cpu { regs: final(self).regs, bus: final(self).bus, ..*old(self) }),
            final(self).regs@ == old(self).regs@.update(((op >> 8u32) & 7) as int,
                slot_addr(old(self).regs[((op >> 8u32) & 7) as int], popcount(op & 0xFF, 8))),
            stmia_trace(*old(self), op, trace@, final(self).bus),
    {
        proof { lemma_fields(op); lemma_u32_masks(op); }
        let rb = op >> 8 & 7;
        let list = op & 0xFF;
        proof { lemma_list_bits(0, op); lemma_popcount_byte(list); }
        let base = self.regs[rb as usize];
        let first = first_reg(list);
        let new_base = base.wrapping_add(count_ones16(list) * 4);
        assert(new_base == slot_addr(base, popcount(list, 8)));
        let ghost mut bs: Seq<Bus> = seq![self.bus];
        let mut addr = base;
        let mut i: u32 = 0;
        while i < 8
            invariant
                i <= 8,
                rb == (op >> 8u32) & 7,
                rb < 8,
                list == op & 0xFF,
                lowest_set(list, first),
                base == old(self).regs[rb as int],
                new_base == slot_addr(base, popcount(list, 8)),
                self.wf(),
                *self == (Cpu { bus: self.bus, ..*old(self) }),
                bs.len() == popcount(list, i as nat) + 1,
                bs[0] == old(self).bus,
                bs[bs.len() - 1] == self.bus,
                addr == slot_addr(base, popcount(list, i as nat)),
                forall|j: u32| j < i && #[trigger] bit(list, j) ==> wrote32(bs[list_rank(list, j) as int],
                    bs[list_rank(list, j) + 1int], slot_addr(base, list_rank(list, j)),
                    if j == rb && !lowest_set(list, j) { new_base } else { old(self).regs[j as int] }),
            decreases 8 - i,
        {
            proof {
                lemma_u32_masks(list >> i);
                lemma_slot_next(base, popcount(list, i as nat));
                lemma_popcount_step(list, i);
            }
            if test_bit(list, i) {
                let v = if i == rb && i != first { new_base } else { self.regs[i as usize] };
                let ghost before = bs;
                self.bus.write32(addr, v);
                proof {
                    bs = bs.push(self.bus);
                    assert forall|j: u32| j < i && #[trigger] bit(list, j) implies wrote32(bs[list_rank(list, j) as int],
                        bs[list_rank(list, j) + 1int], slot_addr(base, list_rank(list, j)),
                        if j == rb && !lowest_set(list, j) { new_base } else { old(self).regs[j as int] }) by {
                        lemma_popcount_step(list, j);
                        lemma_popcount_mono(list, (j + 1) as nat, i as nat);
                        assert(bs[list_rank(list, j) as int] == before[list_rank(list, j) as int]);
                        assert(bs[list_rank(list, j) + 1int] == before[list_rank(list, j) + 1int]);
                    }
                }
                addr = addr.wrapping_add(4);
            }
            i = i + 1;
        }
        self.regs[rb as usize] = addr;
        proof {
            assert(self.regs@ =~= old(self).regs@.update(rb as int, new_base));
        }
        Ghost(bs)
    }

}

/// Offset of an unconditional Thumb branch: 11 bits, sign-extended, times 2.
pub open spec fn thumb_branch_offset(op: u32) -> u32 {
    (((op << 21u32) as i32) >> 20u32) as u32
}

/// The high part of a BL target: 11 bits, sign-extended, times 4096.
pub open spec fn thumb_bl_high(op: u32) -> u32 {
    (((op << 21u32) as i32) >> 9u32) as u32
}

/// What executing Thumb instruction `op` does, format by format, and the
/// event it reports: undefined encodings change nothing, SWI reports the
/// BIOS call's event and does what the call does.
#[verifier::opaque]
pub open spec fn thumb_executed(old: Cpu, new: Cpu, op: u32, ev: StepEvent) -> bool {
    &&& !thumb_implemented(op) ==> ev == (StepEvent::UndefinedThumb { op, pc: old.regs[15] })
        && new == old
    &&& thumb_implemented(op) ==> ev != (StepEvent::UndefinedThumb { op, pc: old.regs[15] })
    &&& op >> 13u32 == 0b110 && op & 0x1000 != 0 && (op >> 8u32) & 0xF == 0xF ==> ev == swi_event(op & 0xFF)
    &&& !(op >> 13u32 == 0b110 && op & 0x1000 != 0 && (op >> 8u32) & 0xF == 0xF)
        && thumb_implemented(op) ==> ev == StepEvent::Executed
    &&& op >> 13u32 == 0b000 ==> thumb_shift_add_done(old, new, op)
        && new.bus == old.bus
    &&& op >> 13u32 == 0b001 ==> thumb_imm8_done(old, new, op)
        && new.bus == old.bus
    &&& op >> 13u32 == 0b010 && op & 0x1C00 == 0 ==> thumb_alu_done(old, new, op)
    &&& op >> 13u32 == 0b110 && op & 0x1000 != 0 && (op >> 8u32) & 0xF != 0xF
        ==> thumb_cond_branch_done(old, new, op)
    &&& op >> 13u32 == 0b111 ==> thumb_branch_done(old, new, op)
    &&& op >> 13u32 == 0b010 && op & 0x1C00 == 0x0400 ==> thumb_hi_done(old, new, op)
    &&& op >> 13u32 == 0b010 && op & 0x1C00 != 0 && op & 0x1C00 != 0x0400
        && op & 0x1800 == 0x0800 ==> thumb_pc_load_done(old, new, op)
    &&& op >> 13u32 == 0b010 && op & 0x1C00 != 0 && op & 0x1C00 != 0x0400
        && op & 0x1800 != 0x0800 ==> thumb_reg_offset_done(old, new, op)
    &&& op >> 13u32 == 0b011 ==> thumb_ls_imm_done(old, new, op)
    &&& op >> 13u32 == 0b100 ==> thumb_100_done(old, new, op)
    &&& op >> 13u32 == 0b101 ==> thumb_101_done(old, new, op)
    &&& op >> 13u32 == 0b110 && op & 0x1000 == 0 ==> thumb_ldm_stm_done(old, new, op)
    &&& op >> 13u32 == 0b110 && op & 0x1000 != 0 && (op >> 8u32) & 0xF == 0xF ==> swi_done(old, new, op & 0xFF)
}

impl Cpu {
    /// Formats 18 and 19: unconditional branch and the two halves of BL.
    /// Returns false for the BLX suffix, which the ARM7TDMI does not have.
    pub fn thumb_111(&mut self, op: u32) -> (ok: bool)
        ensures
            ok == (op & 0x1800 != 0x0800),
            thumb_branch_done(*old(self), *final(self), op),
    {
        proof { lemma_u32_masks(op); }
        if op & 0x1800 == 0x0000 {
            // B unconditional
            let off = (((op << 21) as i32) >> 20) as u32;
            self.regs[15] = self.r(15).wrapping_add(off);
        } else if op & 0x1800 == 0x1000 {
            // BL first half: LR = PC + offset<<12
            let off = (((op << 21) as i32) >> 9) as u32;
            self.regs[14] = self.r(15).wrapping_add(off);
        } else if op & 0x1800 == 0x1800 {
            // BL second half
            proof { lemma_u32_masks(op); }
            let lr = self.regs[14].wrapping_add((op & 0x7FF) << 1);
            self.regs[14] = self.regs[15].wrapping_add(2) | 1;
            self.regs[15] = lr & !1u32;
        } else {
            return false;
        }
        true
    }

    /// Execute one Thumb instruction.
    pub fn exec_thumb(&mut self, op: u16) -> (ev: StepEvent)
        requires
            old(self).wf(),
        ensures
            final(self).wf(),
            thumb_executed(*old(self), *final(self), op as u32, ev),
    {
        let op = op as u32;
        proof {
            lemma_u32_masks(op);
            reveal(thumb_executed);
        }
        let top = op >> 13;
        if top == 0b000 {
            self.thumb_shift_add(op);
        } else if top == 0b001 {
            self.thumb_imm8(op);
        } else if top == 0b010 {
            self.thumb_group_010(op);
        } else if top == 0b011 {
            self.thumb_ls_imm(op);
        } else if top == 0b100 {
            self.thumb_100(op);
        } else if top == 0b101 {
            if !self.thumb_101(op) {
                return StepEvent::UndefinedThumb { op, pc: self.regs[15] };
            }
        } else if top == 0b110 {
            return self.thumb_110(op);
        } else {
            if !self.thumb_111(op) {
                return StepEvent::UndefinedThumb { op, pc: self.regs[15] };
            }
        }
        StepEvent::Executed
    }
}

} // verus!
