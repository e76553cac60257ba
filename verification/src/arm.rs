//! The 32-bit ARM instruction set.

use vstd::prelude::*;
use crate::alu::{
    lemma_fields, test_bit, lemma_with_flag_t,
    FLAG_C, FLAG_N, FLAG_Z, FLAG_T, flag, bit, barrel, shift, add_result, add_flags, with_flag, with_nz,
    add_with_flags, set_flag, set_nz,
};
use crate::bits::{rotr, rotate_right, count_ones16, byte_at, byte_of, popcount};
use crate::mem::{read8_value, read8_next, eeprom_port, load32, load16, read16_next};
use crate::store::{written8, wrote16, wrote32};
use crate::cpu::{Cpu, StepEvent, MODE_USR, valid_mode};
use crate::swi::{swi_done, swi_event};
use crate::bus::Bus;
use crate::bitfacts::{lemma_u32_masks, lemma_sign_casts, lemma_i64_as_u64, lemma_u64_join, lemma_list_bits};

verus! {

/// Data processing. With a destination other than r15: the flags, when
/// set (and always for a comparison), and the destination as computed;
/// nothing else changes. With r15: a comparison restores the CPSR from the
/// SPSR (see [`Cpu::psr_restored`]) and leaves the PC; any other operation
/// puts its result, aligned to the instruction size, in the PC, and with S
/// first restores the CPSR from the SPSR.
pub open spec fn dp_done(old: Cpu, new: Cpu, op: u32) -> bool {
    let opcode = (op >> 21u32) & 0xF;
    let set = op & 0x0010_0000 != 0;
    let rd = (op >> 12u32) & 0xF;
    let a = operand1(old, op);
    let (b, sh) = operand2(old, op);
    let carry: u32 = if flag(old.cpsr, FLAG_C) { 1 } else { 0 };
    let v = dp_value(opcode, a, b, carry);
    &&& rd != 15 ==> {
        &&& new.cpsr == (if set || dp_compares(opcode) { dp_flags(old.cpsr, opcode, a, b, carry, sh) } else { old.cpsr })
        &&& new.regs@ == (if dp_compares(opcode) { old.regs@ } else { old.regs@.update(rd as int, v) })
        &&& new == (Cpu { regs: new.regs, cpsr: new.cpsr, ..old })
    }
    &&& rd == 15 && dp_compares(opcode) ==> old.psr_restored(&new) && new.regs[15] == old.regs[15]
    &&& rd == 15 && !dp_compares(opcode) && set ==> old.psr_restored(&new)
        && new.regs[15] == v & (if flag(new.cpsr, FLAG_T) { !1u32 } else { !3u32 })
    &&& rd == 15 && !dp_compares(opcode) && !set ==> new.regs@ == old.regs@.update(15,
        v & (if flag(old.cpsr, FLAG_T) { !1u32 } else { !3u32 })) && new == (Cpu { regs: new.regs, ..old })
}

/// The flags of a data-processing operation leave the mode and the Thumb bit.
proof fn lemma_dp_flags_mode(cpsr: u32, opcode: u32, a: u32, b: u32, carry: u32, sh: bool)
    ensures
        dp_flags(cpsr, opcode, a, b, carry, sh) & 0x3F == cpsr & 0x3F,
{
    assert forall|c: u32, on: bool| #![auto] with_flag(c, FLAG_N, on) & 0x3F == c & 0x3F
        && with_flag(c, FLAG_Z, on) & 0x3F == c & 0x3F && with_flag(c, FLAG_C, on) & 0x3F == c & 0x3F
        && with_flag(c, crate::alu::FLAG_V, on) & 0x3F == c & 0x3F by {
        crate::bitfacts::lemma_high_flags(c);
    }
}

/// Two CPSR values equal in their low six bits have the same mode and
/// Thumb bit.
proof fn lemma_low_bits(x: u32, y: u32)
    by (bit_vector)
    requires
        x & 0x3F == y & 0x3F,
    ensures
        x & 0x1F == y & 0x1F,
        x & 0x20 == y & 0x20,
{
}

/// B, BL: the PC moves by the offset from PC+8; BL leaves the return
/// address in r14; nothing else changes.
pub open spec fn branch_done(old: Cpu, new: Cpu, op: u32) -> bool {
    &&& new.regs[15] == ((old.regs[15] + 8 + branch_offset(op)) % 0x1_0000_0000) as u32
    &&& op & 0x0100_0000 != 0 ==> new.regs[14] == ((old.regs[15] + 4) % 0x1_0000_0000) as u32
    &&& op & 0x0100_0000 == 0 ==> new.regs[14] == old.regs[14]
    &&& forall|i: int| 0 <= i < 14 ==> #[trigger] new.regs[i] == old.regs[i]
    &&& new == (Cpu { regs: new.regs, ..old })
}

/// BX: the Thumb bit from bit 0 of the target, the PC from the target
/// aligned to the new instruction size.
pub open spec fn bx_done(old: Cpu, new: Cpu, op: u32) -> bool {
    let v = old.reg_value(op & 0xF);
    &&& flag(new.cpsr, FLAG_T) == (v & 1 != 0)
    &&& new.cpsr == with_flag(old.cpsr, FLAG_T, v & 1 != 0)
    &&& new.regs@ == old.regs@.update(15, if v & 1 != 0 { v & !1u32 } else { v & !3u32 })
    &&& new == (Cpu { regs: new.regs, cpsr: new.cpsr, ..old })
}

/// MUL, MLA: Rd = Rm * Rs (+ Rn) modulo 2^32; with S, N and Z from it.
pub open spec fn multiply_done(old: Cpu, new: Cpu, op: u32) -> bool {
    let rd = (op >> 16u32) & 0xF;
    let p = (old.reg_value(op & 0xF) * old.reg_value((op >> 8u32) & 0xF)
        + if op & 0x0020_0000 != 0 { old.reg_value((op >> 12u32) & 0xF) as int } else { 0 }) % 0x1_0000_0000;
    &&& new.regs@ == old.regs@.update(rd as int, old.reg_written(rd, p as u32))
    &&& new.cpsr == (if op & 0x0010_0000 != 0 { with_nz(old.cpsr, p as u32) } else { old.cpsr })
    &&& new == (Cpu { regs: new.regs, cpsr: new.cpsr, ..old })
}

/// The base register after indexing by `offset`: added when U is set,
/// subtracted otherwise, modulo 2^32.
pub open spec fn indexed_base(c: Cpu, op: u32, offset: u32) -> u32 {
    let base = c.reg_value((op >> 16u32) & 0xF);
    if op & 0x0080_0000 != 0 {
        ((base + offset) % 0x1_0000_0000) as u32
    } else {
        ((base - offset) % 0x1_0000_0000) as u32
    }
}

/// The address of a load or store: the indexed base when pre-indexed (P),
/// the base itself when post-indexed.
pub open spec fn transfer_addr(c: Cpu, op: u32, offset: u32) -> u32 {
    if op & 0x0100_0000 != 0 { indexed_base(c, op, offset) } else { c.reg_value((op >> 16u32) & 0xF) }
}

/// The registers after a load or store: the indexed base written back when
/// post-indexed or with W, then, for a load, the loaded value in Rd (which
/// wins when Rd is the base).
pub open spec fn transfer_regs(c: Cpu, op: u32, offset: u32, loaded: Option<u32>) -> Seq<u32> {
    let rn = (op >> 16u32) & 0xF;
    let rd = (op >> 12u32) & 0xF;
    let r1 = if op & 0x0100_0000 == 0 || op & 0x0020_0000 != 0 {
        c.regs@.update(rn as int, c.reg_written(rn, indexed_base(c, op, offset)))
    } else {
        c.regs@
    };
    match loaded {
        Some(v) => r1.update(rd as int, c.reg_written(rd, v)),
        None => r1,
    }
}

/// The offset of LDR/STR: a 12-bit immediate, or a register shifted by an
/// immediate amount.
pub open spec fn ls_offset(c: Cpu, op: u32) -> u32 {
    if op & 0x0200_0000 != 0 {
        barrel((op >> 5u32) & 3, c.reg_value(op & 0xF), (op >> 7u32) & 0x1F, true, flag(c.cpsr, FLAG_C)).0
    } else {
        op & 0xFFF
    }
}

/// LDR, LDRB, STR, STRB. A word load reads the aligned word rotated so the
/// addressed byte is lowest; a store of r15 stores PC+12. Only the
/// registers and the bus change.
pub open spec fn single_transfer_done(old: Cpu, new: Cpu, op: u32) -> bool {
    let offset = ls_offset(old, op);
    let addr = transfer_addr(old, op, offset);
    let rd = (op >> 12u32) & 0xF;
    let byte = op & 0x0040_0000 != 0;
    &&& new == (Cpu { regs: new.regs, bus: new.bus, ..old })
    &&& if op & 0x0010_0000 != 0 {
        &&& byte ==> new.regs@ == transfer_regs(old, op, offset, Some(read8_value(old.bus, addr) as u32))
            && read8_next(old.bus, new.bus, addr)
        &&& !byte && !eeprom_port(old.bus, addr) ==> new.bus == old.bus
            && new.regs@ == transfer_regs(old, op, offset, Some(rotr(load32(old.bus, addr), ((addr & 3) * 8) as u32)))
    } else {
        let v = if rd == 15 { ((old.reg_value(15) + 4) % 0x1_0000_0000) as u32 } else { old.reg_value(rd) };
        &&& new.regs@ == transfer_regs(old, op, offset, None)
        &&& byte ==> written8(old.bus, new.bus, addr, byte_of(v, 0))
        &&& !byte ==> wrote32(old.bus, new.bus, addr, v)
    }
}

/// The offset of LDRH/STRH/LDRSB/LDRSH: a split 8-bit immediate or a
/// register.
pub open spec fn hw_offset(c: Cpu, op: u32) -> u32 {
    if op & 0x0040_0000 != 0 { ((op >> 4u32) & 0xF0) | (op & 0xF) } else { c.reg_value(op & 0xF) }
}

/// Whether a halfword-class load of type `ty` at `addr` reads one byte
/// (LDRSB, and LDRSH at an odd address) rather than a halfword.
pub open spec fn hw_reads_byte(addr: u32, ty: u32) -> bool {
    ty == 2 || (ty != 1 && addr & 1 != 0)
}

/// What LDRH (type 1), LDRSB (type 2) and LDRSH (type 3) load: LDRH
/// rotates an unaligned halfword like LDR; an unaligned LDRSH loads the
/// byte sign-extended, as LDRSB does.
pub open spec fn hw_loaded(b: Bus, addr: u32, ty: u32) -> u32 {
    if ty == 1 {
        rotr(load16(b, addr) as u32, ((addr & 1) * 8) as u32)
    } else if hw_reads_byte(addr, ty) {
        sext8(read8_value(b, addr))
    } else {
        sext16(load16(b, addr))
    }
}

/// LDRH, STRH, LDRSB, LDRSH: as [`single_transfer_done`], with the
/// halfword-class offset and loads, and STRH storing the low halfword of Rd.
pub open spec fn halfword_done(old: Cpu, new: Cpu, op: u32) -> bool {
    let offset = hw_offset(old, op);
    let addr = transfer_addr(old, op, offset);
    let ty = (op >> 5u32) & 3;
    &&& new == (Cpu { regs: new.regs, bus: new.bus, ..old })
    &&& if op & 0x0010_0000 != 0 {
        &&& new.regs@ == transfer_regs(old, op, offset, Some(hw_loaded(old.bus, addr, ty)))
        &&& if hw_reads_byte(addr, ty) { read8_next(old.bus, new.bus, addr) } else { read16_next(old.bus, new.bus, addr) }
    } else {
        &&& new.regs@ == transfer_regs(old, op, offset, None)
        &&& wrote16(old.bus, new.bus, addr, (old.reg_value((op >> 12u32) & 0xF) & 0xFFFF) as u16)
    }
}

/// SWP, SWPB away from the EEPROM port: Rd takes the old memory contents
/// (a word rotated as LDR does), and Rm is stored in their place.
pub open spec fn swap_done(old: Cpu, new: Cpu, op: u32) -> bool {
    let addr = old.reg_value((op >> 16u32) & 0xF);
    let rm = old.reg_value(op & 0xF);
    let rd = (op >> 12u32) & 0xF;
    &&& new == (Cpu { regs: new.regs, bus: new.bus, ..old })
    &&& !eeprom_port(old.bus, addr) ==> if op & 0x0040_0000 != 0 {
        &&& new.regs@ == old.regs@.update(rd as int, old.reg_written(rd, read8_value(old.bus, addr) as u32))
        &&& written8(old.bus, new.bus, addr, byte_of(rm, 0))
    } else {
        &&& new.regs@ == old.regs@.update(rd as int, old.reg_written(rd, rotr(load32(old.bus, addr), ((addr & 3) * 8) as u32)))
        &&& wrote32(old.bus, new.bus, addr, rm)
    }
}

/// The lowest address LDM/STM transfers for `n` registers from `base`:
/// increment-after from the base, increment-before one word above it, the
/// decrementing forms so that the block ends at or just below the base.
pub open spec fn block_start(op: u32, base: u32, n: nat) -> u32 {
    if op & 0x0080_0000 != 0 {
        if op & 0x0100_0000 != 0 { ((base + 4) % 0x1_0000_0000) as u32 } else { base }
    } else {
        let s = (base - 4 * n) % 0x1_0000_0000;
        if op & 0x0100_0000 != 0 { s as u32 } else { ((s + 4) % 0x1_0000_0000) as u32 }
    }
}

/// The base after LDM/STM moves it by `m` words (the number of registers
/// listed; sixteen for the empty list).
pub open spec fn block_new_base(op: u32, base: u32, m: nat) -> u32 {
    if op & 0x0080_0000 != 0 {
        ((base + 4 * m) % 0x1_0000_0000) as u32
    } else {
        ((base - 4 * m) % 0x1_0000_0000) as u32
    }
}

/// Word `k` of a block starting at `start`.
pub open spec fn slot_addr(start: u32, k: nat) -> u32 {
    ((start + 4 * k) % 0x1_0000_0000) as u32
}

/// The slot of listed register `i`: how many listed registers are below it.
pub open spec fn list_rank(list: u32, i: u32) -> nat {
    popcount(list, i as nat)
}

/// The registers with the base written back, when W is set.
pub open spec fn written_back(c: Cpu, regs: Seq<u32>, op: u32, v: u32) -> Seq<u32> {
    let rn = (op >> 16u32) & 0xF;
    if op & 0x0020_0000 != 0 { regs.update(rn as int, c.reg_written(rn, v)) } else { regs }
}

/// The word STM stores for listed register `i`: PC+12 for r15; the
/// written-back base for the base register when it is not the first
/// listed; with S, the user-mode register.
pub open spec fn stm_value(c: Cpu, op: u32, i: u32) -> u32 {
    let rn = (op >> 16u32) & 0xF;
    let list = op & 0xFFFF;
    if i == 15 {
        ((c.reg_value(15) + 4) % 0x1_0000_0000) as u32
    } else if i == rn && !lowest_set(list, i) && op & 0x0020_0000 != 0 {
        block_new_base(op, c.reg_value(rn), popcount(list, 16))
    } else if op & 0x0040_0000 != 0 {
        c.user_reg_value(i)
    } else {
        c.regs[i as int]
    }
}

/// The buses STM passes through, from `c.bus` to `fin`: one word write
/// per listed register, lowest register first, at consecutive words from
/// `start`.
pub open spec fn stm_trace(c: Cpu, op: u32, start: u32, bs: Seq<Bus>, fin: Bus) -> bool {
    let list = op & 0xFFFF;
    let n = popcount(list, 16);
    &&& bs.len() == n + 1
    &&& bs[0] == c.bus
    &&& bs[n as int] == fin
    &&& forall|i: u32| i < 16 && #[trigger] bit(list, i) ==> wrote32(bs[list_rank(list, i) as int],
        bs[list_rank(list, i) + 1int], slot_addr(start, list_rank(list, i)), stm_value(c, op, i))
}

/// The registers after LDM (without S) from a block at `start`: each listed
/// register takes its word, the others are as after write-back.
pub open spec fn ldm_regs(c: Cpu, op: u32, start: u32, new_base: u32) -> Seq<u32> {
    let list = op & 0xFFFF;
    Seq::new(16, |j: int| if bit(list, j as u32) {
        c.reg_written(j as u32, load32(c.bus, slot_addr(start, list_rank(list, j as u32))))
    } else {
        written_back(c, c.regs@, op, new_base)[j]
    })
}

/// The word LDM loads for listed register `j`.
pub open spec fn ldm_word(c: Cpu, op: u32, start: u32, j: u32) -> u32 {
    load32(c.bus, slot_addr(start, list_rank(op & 0xFFFF, j)))
}

/// LDM with S and without r15: after the base is written back in the
/// current mode's bank, the listed registers are loaded into the registers
/// user mode sees (the user bank where the current mode banks them);
/// nothing else changes.
pub open spec fn ldm_user_done(old: Cpu, new: Cpu, op: u32, start: u32, new_base: u32) -> bool {
    let list = op & 0xFFFF;
    let wb = written_back(old, old.regs@, op, new_base);
    &&& new == (Cpu { regs: new.regs, bank_usr: new.bank_usr, bank_fiq_usr: new.bank_fiq_usr, ..old })
    &&& forall|j: int| 0 <= j < 16 ==> #[trigger] new.regs@[j] == (if bit(list, j as u32) && old.user_in_regs(j as u32) {
        ldm_word(old, op, start, j as u32) } else { wb[j] })
    &&& forall|k: int| 0 <= k < 2 ==> #[trigger] new.bank_usr@[k] == (if bit(list, (13 + k) as u32)
        && !old.user_in_regs((13 + k) as u32) { ldm_word(old, op, start, (13 + k) as u32) } else { old.bank_usr@[k] })
    &&& forall|k: int| 0 <= k < 5 ==> #[trigger] new.bank_fiq_usr@[k] == (if bit(list, (8 + k) as u32)
        && !old.user_in_regs((8 + k) as u32) { ldm_word(old, op, start, (8 + k) as u32) } else { old.bank_fiq_usr@[k] })
}

/// LDM with S and r15 (return from an exception): the registers below r15
/// loaded in the current mode (to `mid`), then the CPSR restored from the
/// SPSR with the registers switched to the new mode's banks, and the PC
/// loaded, aligned to the instruction size of the new state.
pub open spec fn ldm_return_done(old: Cpu, new: Cpu, op: u32, start: u32, new_base: u32) -> bool {
    exists|mid: Cpu| {
        &&& mid == (Cpu { regs: mid.regs, ..old })
        &&& forall|j: int| 0 <= j < 15 ==> #[trigger] mid.regs@[j] == ldm_regs(old, op, start, new_base)[j]
        &&& #[trigger] mid.psr_restored(&new)
        &&& new.regs[15] == ldm_word(old, op, start, 15) & (if flag(new.cpsr, FLAG_T) { !1u32 } else { !3u32 })
    }
}

/// LDM, STM. STM stores its words in order and writes the base back; LDM,
/// from a block clear of the EEPROM port, loads its registers (with S, as
/// [`ldm_user_done`] or [`ldm_return_done`] say), and changes nothing else.
/// The empty list transfers r15 alone.
pub open spec fn block_transfer_done(old: Cpu, new: Cpu, op: u32) -> bool {
    let list = op & 0xFFFF;
    let base = old.reg_value((op >> 16u32) & 0xF);
    if list == 0 {
        let start = block_start(op, base, 16);
        let new_base = block_new_base(op, base, 16);
        if op & 0x0010_0000 == 0 {
            &&& new == (Cpu { regs: new.regs, bus: new.bus, ..old })
            &&& new.regs@ == written_back(old, old.regs@, op, new_base)
            &&& wrote32(old.bus, new.bus, start, ((old.reg_value(15) + 4) % 0x1_0000_0000) as u32)
        } else {
            !eeprom_port(old.bus, start) ==> {
                &&& new == (Cpu { regs: new.regs, ..old })
                &&& new.regs@ == written_back(old, old.regs@.update(15, load32(old.bus, start) & !3u32), op, new_base)
            }
        }
    } else {
        let n = popcount(list, 16);
        let start = block_start(op, base, n);
        let new_base = block_new_base(op, base, n);
        if op & 0x0010_0000 == 0 {
            &&& new == (Cpu { regs: new.regs, bus: new.bus, ..old })
            &&& new.regs@ == written_back(old, old.regs@, op, new_base)
            &&& exists|bs: Seq<Bus>| #[trigger] stm_trace(old, op, start, bs, new.bus)
        } else {
            (forall|i: u32| i < 16 && #[trigger] bit(list, i)
                ==> !eeprom_port(old.bus, slot_addr(start, list_rank(list, i)))) ==> {
                &&& op & 0x0040_0000 == 0 ==> {
                    &&& new == (Cpu { regs: new.regs, ..old })
                    &&& new.regs@ == ldm_regs(old, op, start, new_base)
                }
                &&& op & 0x0040_0000 != 0 && !bit(list, 15) ==> ldm_user_done(old, new, op, start, new_base)
                &&& op & 0x0040_0000 != 0 && bit(list, 15) ==> ldm_return_done(old, new, op, start, new_base)
            }
        }
    }
}

/// Successive slots are a word apart, modulo 2^32.
pub proof fn lemma_slot_next(start: u32, k: nat)
    ensures
        slot_addr(start, k + 1) == ((slot_addr(start, k) + 4) % 0x1_0000_0000) as u32,
{
    vstd::arithmetic::div_mod::lemma_add_mod_noop(start + 4 * k, 4, 0x1_0000_0000);
}

/// UMULL, UMLAL, SMULL, SMLAL into two distinct registers other than r15:
/// the low and high words of the 64-bit result, and N and Z from it when S
/// is set.
pub open spec fn mul_long_done(old: Cpu, new: Cpu, op: u32) -> bool {
    let rdhi = (op >> 16u32) & 0xF;
    let rdlo = (op >> 12u32) & 0xF;
    let r = long_product(op, old.reg_value(op & 0xF), old.reg_value((op >> 8u32) & 0xF),
        old.reg_value(rdhi), old.reg_value(rdlo));
    rdhi != 15 && rdlo != 15 && rdhi != rdlo ==> {
        &&& new.regs[rdlo as int] == r % 0x1_0000_0000
        &&& new.regs[rdhi as int] == r / 0x1_0000_0000
        &&& new.cpsr == (if op & 0x0010_0000 != 0 {
            with_flag(with_flag(old.cpsr, FLAG_N, r >= 0x8000_0000_0000_0000), FLAG_Z, r == 0)
        } else { old.cpsr })
    }
}

/// MRS: Rd takes the CPSR, or the current mode's SPSR.
pub open spec fn mrs_done(old: Cpu, new: Cpu, op: u32) -> bool {
    &&& new.regs@ == old.regs@.update(((op >> 12u32) & 0xF) as int,
        old.reg_written((op >> 12u32) & 0xF, if op & 0x0040_0000 != 0 { old.spsr_of() } else { old.cpsr }))
    &&& new == (Cpu { regs: new.regs, ..old })
}

/// MSR: the masked bytes of the CPSR or the current SPSR take the value;
/// user mode keeps its control byte.
pub open spec fn msr_done(old: Cpu, new: Cpu, op: u32) -> bool {
    let val = if op & 0x0200_0000 != 0 { rotr(op & 0xFF, (((op >> 8u32) & 0xF) * 2) as u32) } else { old.reg_value(op & 0xF) };
    let mask = (if op & 0x0008_0000 != 0 { 0xFF00_0000u32 } else { 0u32 })
        | (if op & 0x0001_0000 != 0 { 0xFFu32 } else { 0u32 });
    if op & 0x0040_0000 != 0 {
        new.spsr_of() == (old.spsr_of() & !mask) | (val & mask) && new.cpsr == old.cpsr
    } else {
        let m = if old.mode_of() == MODE_USR { mask & 0xFF00_0000u32 } else { mask };
        new.cpsr == (old.cpsr & !m) | (val & m)
    }
}

/// Instruction classes, in the order the decoder tries them.
pub open spec fn arm_is_bx(op: u32) -> bool {
    op & 0x0FFF_FFF0 == 0x012F_FF10
}

pub open spec fn arm_is_branch(op: u32) -> bool {
    op & 0x0E00_0000 == 0x0A00_0000
}

pub open spec fn arm_is_multiply(op: u32) -> bool {
    op & 0x0FC0_00F0 == 0x0000_0090
}

pub open spec fn arm_is_swap(op: u32) -> bool {
    &&& !arm_is_bx(op)
    &&& !arm_is_branch(op)
    &&& !arm_is_multiply(op)
    &&& op & 0x0F80_00F0 != 0x0080_0090
    &&& op & 0x0FB0_0FF0 == 0x0100_0090
}

pub open spec fn arm_is_halfword(op: u32) -> bool {
    &&& !arm_is_bx(op)
    &&& !arm_is_branch(op)
    &&& !arm_is_multiply(op)
    &&& op & 0x0F80_00F0 != 0x0080_0090
    &&& op & 0x0FB0_0FF0 != 0x0100_0090
    &&& op & 0x0E00_0090 == 0x0000_0090 && op & 0x60 != 0
}

pub open spec fn arm_is_single_transfer(op: u32) -> bool {
    op & 0x0C00_0000 == 0x0400_0000
}

pub open spec fn arm_is_multiply_long(op: u32) -> bool {
    &&& !arm_is_bx(op)
    &&& !arm_is_branch(op)
    &&& !arm_is_multiply(op)
    &&& op & 0x0F80_00F0 == 0x0080_0090
}

pub open spec fn arm_is_mrs(op: u32) -> bool {
    &&& !arm_is_bx(op)
    &&& !arm_is_branch(op)
    &&& !arm_is_multiply(op)
    &&& op & 0x0F80_00F0 != 0x0080_0090
    &&& op & 0x0FB0_0FF0 != 0x0100_0090
    &&& !(op & 0x0E00_0090 == 0x0000_0090 && op & 0x60 != 0)
    &&& op & 0x0FBF_0FFF == 0x010F_0000
}

pub open spec fn arm_is_msr(op: u32) -> bool {
    &&& !arm_is_bx(op)
    &&& !arm_is_branch(op)
    &&& !arm_is_multiply(op)
    &&& op & 0x0F80_00F0 != 0x0080_0090
    &&& op & 0x0FB0_0FF0 != 0x0100_0090
    &&& !(op & 0x0E00_0090 == 0x0000_0090 && op & 0x60 != 0)
    &&& op & 0x0FBF_0FFF != 0x010F_0000
    &&& op & 0x0DB0_F000 == 0x0120_F000
}

pub open spec fn arm_is_block_transfer(op: u32) -> bool {
    op & 0x0E00_0000 == 0x0800_0000
}

pub open spec fn arm_is_data_processing(op: u32) -> bool {
    &&& op & 0x0C00_0000 == 0
    &&& !arm_is_bx(op)
    &&& !arm_is_multiply(op)
    &&& op & 0x0F80_00F0 != 0x0080_0090
    &&& op & 0x0FB0_0FF0 != 0x0100_0090
    &&& !(op & 0x0E00_0090 == 0x0000_0090 && op & 0x60 != 0)
    &&& op & 0x0FBF_0FFF != 0x010F_0000
    &&& op & 0x0DB0_F000 != 0x0120_F000
}

/// Operand 2 of a data-processing instruction and the shifter carry: a
/// rotated 8-bit immediate, or a register shifted by an immediate or by a
/// register (where r15 reads 4 further on).
pub open spec fn operand2(c: Cpu, op: u32) -> (u32, bool) {
    let c_in = flag(c.cpsr, FLAG_C);
    if op & 0x0200_0000 != 0 {
        let imm = op & 0xFF;
        let rot = ((op >> 8u32) & 0xF) * 2;
        if rot == 0 { (imm, c_in) } else { (rotr(imm, rot as u32), bit(rotr(imm, rot as u32), 31)) }
    } else {
        let rm = op & 0xF;
        let ty = (op >> 5u32) & 3;
        if op & 0x10 != 0 {
            let amount = c.reg_value((op >> 8u32) & 0xF) & 0xFF;
            let val = if rm == 15 { ((c.reg_value(15) + 4) % 0x1_0000_0000) as u32 } else { c.reg_value(rm) };
            barrel(ty, val, amount, false, c_in)
        } else {
            barrel(ty, c.reg_value(rm), (op >> 7u32) & 0x1F, true, c_in)
        }
    }
}

/// The value a data-processing opcode computes from `a` and `b`.
pub open spec fn dp_value(opcode: u32, a: u32, b: u32, carry: u32) -> u32 {
    if opcode == 0x0 || opcode == 0x8 { a & b }
    else if opcode == 0x1 || opcode == 0x9 { a ^ b }
    else if opcode == 0x2 || opcode == 0xA { add_result(a, !b, 1) }
    else if opcode == 0x3 { add_result(b, !a, 1) }
    else if opcode == 0x4 || opcode == 0xB { add_result(a, b, 0) }
    else if opcode == 0x5 { add_result(a, b, carry) }
    else if opcode == 0x6 { add_result(a, !b, carry) }
    else if opcode == 0x7 { add_result(b, !a, carry) }
    else if opcode == 0xC { a | b }
    else if opcode == 0xD { b }
    else if opcode == 0xE { a & !b }
    else { !b }
}

/// The flags a data-processing opcode sets: logical operations set N and Z
/// from the result and C from the shifter; arithmetic ones set all four
/// from the addition (a subtraction adds the complement with carry 1, so C
/// is "no borrow").
pub open spec fn dp_flags(cpsr: u32, opcode: u32, a: u32, b: u32, carry: u32, sh_carry: bool) -> u32 {
    if opcode == 0x2 || opcode == 0xA { add_flags(cpsr, a, !b, 1) }
    else if opcode == 0x3 { add_flags(cpsr, b, !a, 1) }
    else if opcode == 0x4 || opcode == 0xB { add_flags(cpsr, a, b, 0) }
    else if opcode == 0x5 { add_flags(cpsr, a, b, carry) }
    else if opcode == 0x6 { add_flags(cpsr, a, !b, carry) }
    else if opcode == 0x7 { add_flags(cpsr, b, !a, carry) }
    else { with_flag(with_nz(cpsr, dp_value(opcode, a, b, carry)), FLAG_C, sh_carry) }
}

/// Whether an opcode only compares (TST, TEQ, CMP, CMN): no result is
/// written and the flags are always set.
pub open spec fn dp_compares(opcode: u32) -> bool {
    0x8 <= opcode <= 0xB
}

/// The first operand: Rn, reading r15 four further on when operand 2 is a
/// register shifted by a register.
pub open spec fn operand1(c: Cpu, op: u32) -> u32 {
    let rn = (op >> 16u32) & 0xF;
    if rn == 15 && op & 0x0200_0000 == 0 && op & 0x10 != 0 {
        ((c.reg_value(15) + 4) % 0x1_0000_0000) as u32
    } else {
        c.reg_value(rn)
    }
}

/// The ARM opcodes this core implements: all but the coprocessor space.
pub open spec fn arm_implemented(op: u32) -> bool {
    !(op & 0x0C00_0000 == 0x0C00_0000 && op & 0x0F00_0000 != 0x0F00_0000)
}

impl Cpu {
    /// Operand 2 of a data-processing instruction, with the shifter carry.
    pub fn dp_operand2(&self, op: u32) -> (r: (u32, bool))
        ensures
            r == operand2(*self, op),
    {
        proof { lemma_fields(op); }
        let c_in = self.cpsr & FLAG_C != 0;
        if op & 0x0200_0000 != 0 {
            let imm = op & 0xFF;
            let rot = (op >> 8 & 0xF) * 2;
            if rot == 0 {
                (imm, c_in)
            } else {
                let v = rotate_right(imm, rot);
                (v, test_bit(v, 31))
            }
        } else {
            let rm = op & 0xF;
            let ty = op >> 5 & 3;
            if op & 0x10 != 0 {
                // Register shift amount: r15 reads +12 here (pipeline quirk).
                let amount = self.r(op >> 8 & 0xF) & 0xFF;
                let val = if rm == 15 { self.r(15).wrapping_add(4) } else { self.r(rm) };
                shift(ty, val, amount, false, c_in)
            } else {
                let amount = op >> 7 & 0x1F;
                shift(ty, self.r(rm), amount, true, c_in)
            }
        }
    }

    /// Data processing: AND, EOR, SUB, RSB, ADD, ADC, SBC, RSC, TST, TEQ,
    /// CMP, CMN, ORR, MOV, BIC, MVN. A comparison with Rd = r15 restores the
    /// CPSR from the SPSR; a flag-setting write of r15 returns from an
    /// exception the same way.
    #[verifier::spinoff_prover]
    pub fn arm_data_processing(&mut self, op: u32)
        requires
            old(self).wf(),
        ensures
            final(self).wf(),
            final(self).bus == old(self).bus,
            final(self).halted == old(self).halted,
            dp_done(*old(self), *final(self), op),
    {
        proof { lemma_fields(op); }
        let opcode = op >> 21 & 0xF;
        let set = op & 0x0010_0000 != 0;
        let rn = op >> 16 & 0xF;
        let rd = op >> 12 & 0xF;
        // TST/TEQ/CMP/CMN with Rd=15: result discarded, CPSR <- SPSR (TEQP idiom).
        if 0x8 <= opcode && opcode <= 0xB && rd == 15 {
            let old_mode = self.mode();
            self.cpsr = self.spsr_get();
            let ghost pre = *self;
            self.switch_mode(old_mode);
            proof {
                assert(old_mode == old(self).mode_of());
                assert forall|m: u32, i: int| valid_mode(m) && 0 <= i < 15 implies
                    pre.banked(old_mode, m, i) == #[trigger] old(self).banked(old(self).mode_of(), m, i) by {}
                assert(self.cpsr == old(self).spsr_of());
                assert(self.mode_of() == pre.mode_of());
                assert(self.spsr == old(self).spsr && self.spsr_irq == old(self).spsr_irq);
                assert(self.bus == old(self).bus && self.halted == old(self).halted);
                assert(self.wait_flags == old(self).wait_flags);
                assert(old(self).psr_restored(&*self));
            }
            return;
        }
        let (b, sh_carry) = self.dp_operand2(op);
        let a = if rn == 15 && op & 0x0200_0000 == 0 && op & 0x10 != 0 {
            self.r(15).wrapping_add(4)
        } else {
            self.r(rn)
        };
        let carry: u32 = if self.cpsr & FLAG_C != 0 { 1 } else { 0 };
        let logical = !(0x2 <= opcode && opcode <= 0x7) && !(opcode == 0xA || opcode == 0xB);
        let (r, flags) = if opcode == 0x2 || opcode == 0xA {
            add_with_flags(self.cpsr, a, !b, 1)
        } else if opcode == 0x3 {
            add_with_flags(self.cpsr, b, !a, 1)
        } else if opcode == 0x4 || opcode == 0xB {
            add_with_flags(self.cpsr, a, b, 0)
        } else if opcode == 0x5 {
            add_with_flags(self.cpsr, a, b, carry)
        } else if opcode == 0x6 {
            add_with_flags(self.cpsr, a, !b, carry)
        } else if opcode == 0x7 {
            add_with_flags(self.cpsr, b, !a, carry)
        } else {
            let r = if opcode == 0x0 || opcode == 0x8 {
                a & b
            } else if opcode == 0x1 || opcode == 0x9 {
                a ^ b
            } else if opcode == 0xC {
                a | b
            } else if opcode == 0xD {
                b
            } else if opcode == 0xE {
                a & !b
            } else {
                !b
            };
            (r, set_flag(set_nz(self.cpsr, r), FLAG_C, sh_carry))
        };
        if set || (0x8 <= opcode && opcode <= 0xB) {
            self.cpsr = flags;
        }
        if !(0x8 <= opcode && opcode <= 0xB) {
            if rd == 15 {
                if set {
                    // Return from exception: restore CPSR from SPSR.
                    proof {
                        lemma_dp_flags_mode(old(self).cpsr, opcode, a, b, carry, sh_carry);
                        lemma_low_bits(self.cpsr, old(self).cpsr);
                        assert(self.mode_of() == old(self).mode_of());
                        assert(self.spsr_of() == old(self).spsr_of());
                    }
                    let old_mode = self.mode();
                    self.cpsr = self.spsr_get();
                    let ghost pre = *self;
                    self.switch_mode(old_mode);
                    proof {
                        assert forall|m: u32, i: int| valid_mode(m) && 0 <= i < 15 implies
                            pre.banked(old_mode, m, i) == #[trigger] old(self).banked(old(self).mode_of(), m, i) by {}
                        assert(self.cpsr == old(self).spsr_of());
                        assert(self.mode_of() == pre.mode_of());
                        assert(self.spsr == old(self).spsr && self.spsr_irq == old(self).spsr_irq);
                        assert(self.bus == old(self).bus && self.halted == old(self).halted);
                        assert(self.wait_flags == old(self).wait_flags);
                        assert(old(self).psr_restored(&*self));
                    }
                }
                let ghost before = *self;
                self.regs[15] = r & if self.thumb() { !1u32 } else { !3u32 };
                proof {
                    if set {
                        assert(old(self).psr_restored(&before));
                        assert(self.mode_of() == before.mode_of());
                        if valid_mode(old(self).mode_of()) && valid_mode(self.mode_of()) {
                            assert forall|m: u32, i: int| valid_mode(m) && 0 <= i < 15 implies
                                #[trigger] self.banked(self.mode_of(), m, i) == old(self).banked(old(self).mode_of(), m, i) by {
                                assert(self.banked(self.mode_of(), m, i) == before.banked(before.mode_of(), m, i));
                                assert(before.banked(before.mode_of(), m, i) == old(self).banked(old(self).mode_of(), m, i));
                            }
                        }
                        assert(old(self).psr_restored(&*self));
                    }
                }
            } else {
                self.set_r(rd, r);
            }
        }
    }
}

/// Two's-complement value of a word.
pub open spec fn signed32(x: u32) -> int {
    if x >= 0x8000_0000 { x - 0x1_0000_0000 } else { x as int }
}

/// A branch offset: the 24-bit field sign-extended and scaled by 4.
pub open spec fn branch_offset(op: u32) -> u32 {
    (((op << 8u32) as i32) >> 6u32) as u32
}

impl Cpu {
    /// B, BL: branch by the offset from PC+8; BL saves the next address in r14.
    pub fn arm_branch(&mut self, op: u32)
        ensures
            branch_done(*old(self), *final(self), op),
    {
        let off = (((op << 8) as i32) >> 6) as u32;
        if op & 0x0100_0000 != 0 {
            self.regs[14] = self.regs[15].wrapping_add(4);
        }
        self.regs[15] = self.regs[15].wrapping_add(8).wrapping_add(off);
    }

    /// BX: branch to a register, switching to Thumb state when its bit 0 is set.
    pub fn arm_bx(&mut self, op: u32)
        ensures
            bx_done(*old(self), *final(self), op),
            final(self).bus == old(self).bus && final(self).halted == old(self).halted,
    {
        proof { lemma_fields(op); }
        let v = self.r(op & 0xF);
        self.cpsr = set_flag(self.cpsr, FLAG_T, v & 1 != 0);
        proof { lemma_u32_masks(v); }
        self.regs[15] = v & !1 & if v & 1 != 0 { !0u32 } else { !3u32 };
        proof { lemma_with_flag_t(old(self).cpsr, v & 1 != 0); }
    }

    /// MUL, MLA: Rd = Rm * Rs (+ Rn) modulo 2^32; with S, N and Z from the result.
    pub fn arm_multiply(&mut self, op: u32)
        ensures
            multiply_done(*old(self), *final(self), op),
            final(self).bus == old(self).bus && final(self).halted == old(self).halted,
    {
        proof { lemma_fields(op); }
        let rd = op >> 16 & 0xF;
        let rn = op >> 12 & 0xF;
        let rs = op >> 8 & 0xF;
        let rm = op & 0xF;
        let mut r = self.r(rm).wrapping_mul(self.r(rs));
        if op & 0x0020_0000 != 0 {
            r = r.wrapping_add(self.r(rn));
        }
        proof {
            let (x, y) = (self.reg_value(rm) as int, self.reg_value(rs) as int);
            let z: int = if op & 0x0020_0000 != 0 { self.reg_value(rn) as int } else { 0 };
            vstd::arithmetic::div_mod::lemma_add_mod_noop(x * y, z, 0x1_0000_0000);
            vstd::arithmetic::div_mod::lemma_mod_twice(z, 0x1_0000_0000);
            assert(0 <= z < 0x1_0000_0000);
            vstd::arithmetic::div_mod::lemma_small_mod(z as nat, 0x1_0000_0000);
        }
        let c = self.cpsr;
        self.set_r(rd, r);
        if op & 0x0010_0000 != 0 {
            self.cpsr = set_nz(c, r);
        }
    }
}

/// The 64-bit product of UMULL/SMULL (with UMLAL/SMLAL's accumulator),
/// modulo 2^64.
pub open spec fn long_product(op: u32, m: u32, s: u32, hi: u32, lo: u32) -> int {
    let p = if op & 0x0040_0000 != 0 { signed32(m) * signed32(s) } else { m as int * s as int };
    let acc = if op & 0x0020_0000 != 0 { hi as int * 0x1_0000_0000 + lo as int } else { 0 };
    (p + acc) % 0x1_0000_0000_0000_0000
}

impl Cpu {
    /// UMULL, UMLAL, SMULL, SMLAL: RdHi:RdLo = Rm * Rs (+ RdHi:RdLo), with S
    /// setting N and Z from the 64-bit result.
    #[verifier::spinoff_prover]
    #[verifier::rlimit(40)]
    pub fn arm_multiply_long(&mut self, op: u32)
        requires
            old(self).wf(),
        ensures
            final(self).wf(),
            final(self).bus == old(self).bus && final(self).halted == old(self).halted,
            mul_long_done(*old(self), *final(self), op),
    {
        proof { lemma_fields(op); }
        let rdhi = op >> 16 & 0xF;
        let rdlo = op >> 12 & 0xF;
        let rs = op >> 8 & 0xF;
        let rm = op & 0xF;
        let signed = op & 0x0040_0000 != 0;
        let acc = op & 0x0020_0000 != 0;
        let m = self.r(rm);
        let sv = self.r(rs);
        let p: u64 = if signed {
            let x = m as i32 as i64;
            let y = sv as i32 as i64;
            proof { lemma_sign_casts(m); lemma_sign_casts(sv); }
            proof {
                vstd::arithmetic::mul::lemma_mul_upper_bound(if x >= 0 { x as int } else { -x }, 0x8000_0000, if y >= 0 { y as int } else { -y }, 0x8000_0000);
                assert(-0x4000_0000_0000_0000 <= x * y <= 0x4000_0000_0000_0000) by (nonlinear_arith)
                    requires -0x8000_0000 <= x <= 0x7FFF_FFFF, -0x8000_0000 <= y <= 0x7FFF_FFFF;
            }
            let q = x * y;
            let pq = #[verifier::truncate] (q as u64);
            proof { lemma_i64_as_u64(q); }
            pq
        } else {
            proof {
                assert(m as int * sv as int <= 0xFFFF_FFFF * 0xFFFF_FFFF) by (nonlinear_arith)
                    requires m <= 0xFFFF_FFFF, sv <= 0xFFFF_FFFF;
            }
            m as u64 * sv as u64
        };
        let a: u64 = if acc { ((self.r(rdhi) as u64) << 32) | self.r(rdlo) as u64 } else { 0 };
        proof {
            let (h, l) = (self.reg_value(rdhi), self.reg_value(rdlo));
            if acc {
                lemma_u64_join(h, l);
            }
            let pi: int = if signed { signed32(m) * signed32(sv) } else { m as int * sv as int };
            assert(p as int == pi % 0x1_0000_0000_0000_0000) by {
                if signed {
                } else {
                    vstd::arithmetic::div_mod::lemma_small_mod(pi as nat, 0x1_0000_0000_0000_0000);
                }
            }
            vstd::arithmetic::div_mod::lemma_add_mod_noop(pi, a as int, 0x1_0000_0000_0000_0000);
            vstd::arithmetic::div_mod::lemma_small_mod(a as nat, 0x1_0000_0000_0000_0000);
        }
        let r = p.wrapping_add(a);
        let lo = (r % 0x1_0000_0000) as u32;
        let hi = (r / 0x1_0000_0000) as u32;
        let c = self.cpsr;
        self.set_r(rdlo, lo);
        self.set_r(rdhi, hi);
        if op & 0x0010_0000 != 0 {
            self.cpsr = set_flag(set_flag(c, FLAG_N, r >= 0x8000_0000_0000_0000), FLAG_Z, r == 0);
        }
    }

    /// MRS: a register takes the CPSR, or the current mode's SPSR.
    pub fn arm_mrs(&mut self, op: u32)
        ensures
            mrs_done(*old(self), *final(self), op),
    {
        proof { lemma_fields(op); }
        let v = if op & 0x0040_0000 != 0 { self.spsr_get() } else { self.cpsr };
        self.set_r(op >> 12 & 0xF, v);
    }

    /// MSR: write the flag byte and/or the control byte of the CPSR or the
    /// current SPSR; user mode cannot change the control byte.
    pub fn arm_msr(&mut self, op: u32)
        ensures
            final(self).bus == old(self).bus && final(self).halted == old(self).halted,
            msr_done(*old(self), *final(self), op),
    {
        proof { lemma_fields(op); }
        let val = if op & 0x0200_0000 != 0 {
            let imm = op & 0xFF;
            rotate_right(imm, (op >> 8 & 0xF) * 2)
        } else {
            self.r(op & 0xF)
        };
        let hi: u32 = if op & 0x0008_0000 != 0 { 0xFF00_0000 } else { 0 };
        let lo: u32 = if op & 0x0001_0000 != 0 { 0xFF } else { 0 };
        let mut mask = hi | lo;
        if op & 0x0040_0000 != 0 {
            let sp = self.spsr_get();
            self.spsr_set((sp & !mask) | (val & mask));
        } else {
            if self.mode() == MODE_USR {
                mask = mask & 0xFF00_0000; // user mode can't change control bits
            }
            let old_mode = self.mode();
            self.cpsr = (self.cpsr & !mask) | (val & mask);
            self.switch_mode(old_mode);
        }
    }
}

impl Cpu {
    /// SWP, SWPB: swap a register with memory.
    #[verifier::spinoff_prover]
    #[verifier::rlimit(80)]
    pub fn arm_swap(&mut self, op: u32)
        requires
            old(self).wf(),
        ensures
            final(self).wf(),
            swap_done(*old(self), *final(self), op),
    {
        proof { lemma_fields(op); }
        let addr = self.r(op >> 16 & 0xF);
        let rm = self.r(op & 0xF);
        let rd = op >> 12 & 0xF;
        if op & 0x0040_0000 != 0 {
            let v = self.bus.read8(addr) as u32;
            self.bus.write8(addr, byte_at(rm, 0));
            self.set_r(rd, v);
        } else {
            proof { lemma_u32_masks(addr); }
            let v = rotate_right(self.bus.read32(addr), (addr & 3) * 8);
            self.bus.write32(addr, rm);
            self.set_r(rd, v);
        }
    }

    /// LDR, STR, LDRB, STRB with an immediate or shifted-register offset,
    /// pre- or post-indexed, with optional write-back.
    #[verifier::spinoff_prover]
    #[verifier::rlimit(80)]
    pub fn arm_single_transfer(&mut self, op: u32)
        requires
            old(self).wf(),
        ensures
            final(self).wf(),
            single_transfer_done(*old(self), *final(self), op),
    {
        proof { lemma_fields(op); }
        let rn = op >> 16 & 0xF;
        let rd = op >> 12 & 0xF;
        let offset = if op & 0x0200_0000 != 0 {
            let (v, _) = shift(op >> 5 & 3, self.r(op & 0xF), op >> 7 & 0x1F, true, self.cpsr & FLAG_C != 0);
            v
        } else {
            op & 0xFFF
        };
        assert(offset == ls_offset(*old(self), op));
        let base = self.r(rn);
        let up = op & 0x0080_0000 != 0;
        let pre = op & 0x0100_0000 != 0;
        let off_base = if up { base.wrapping_add(offset) } else { base.wrapping_sub(offset) };
        let addr = if pre { off_base } else { base };
        assert(off_base == indexed_base(*old(self), op, offset));
        assert(addr == transfer_addr(*old(self), op, offset));
        if op & 0x0010_0000 != 0 {
            self.load_word_or_byte(op, addr, off_base);
        } else {
            self.store_word_or_byte(op, addr, off_base);
        }
    }

    /// The load half of LDR/LDRB, from the computed address.
    #[verifier::spinoff_prover]
    #[verifier::rlimit(80)]
    fn load_word_or_byte(&mut self, op: u32, addr: u32, off_base: u32)
        requires
            old(self).wf(),
        ensures
            final(self).wf(),
            *final(self) == (Cpu { regs: final(self).regs, bus: final(self).bus, ..*old(self) }),
            ({
                let rn = (op >> 16u32) & 0xF;
                let rd = (op >> 12u32) & 0xF;
                let r1 = if op & 0x0100_0000 == 0 || op & 0x0020_0000 != 0 {
                    old(self).regs@.update(rn as int, old(self).reg_written(rn, off_base))
                } else {
                    old(self).regs@
                };
                &&& op & 0x0040_0000 != 0 ==> final(self).regs@ == r1.update(rd as int, old(self).reg_written(rd, read8_value(old(self).bus, addr) as u32))
                    && read8_next(old(self).bus, final(self).bus, addr)
                &&& op & 0x0040_0000 == 0 && !eeprom_port(old(self).bus, addr) ==> final(self).bus == old(self).bus
                    && final(self).regs@ == r1.update(rd as int, old(self).reg_written(rd, rotr(load32(old(self).bus, addr), ((addr & 3) * 8) as u32)))
            }),
    {
        proof { lemma_fields(op); lemma_u32_masks(addr); }
        let rn = op >> 16 & 0xF;
        let rd = op >> 12 & 0xF;
        let v = if op & 0x0040_0000 != 0 {
            self.bus.read8(addr) as u32
        } else {
            rotate_right(self.bus.read32(addr), (addr & 3) * 8)
        };
        if op & 0x0100_0000 == 0 || op & 0x0020_0000 != 0 {
            self.set_r(rn, off_base);
        }
        self.set_r(rd, v); // load wins over writeback on same register
    }

    /// The store half of STR/STRB, to the computed address; r15 stores as
    /// PC+12.
    #[verifier::spinoff_prover]
    #[verifier::rlimit(80)]
    fn store_word_or_byte(&mut self, op: u32, addr: u32, off_base: u32)
        requires
            old(self).wf(),
        ensures
            final(self).wf(),
            *final(self) == (Cpu { regs: final(self).regs, bus: final(self).bus, ..*old(self) }),
            ({
                let rn = (op >> 16u32) & 0xF;
                let rd = (op >> 12u32) & 0xF;
                let v = if rd == 15 { ((old(self).reg_value(15) + 4) % 0x1_0000_0000) as u32 } else { old(self).reg_value(rd) };
                &&& final(self).regs@ == (if op & 0x0100_0000 == 0 || op & 0x0020_0000 != 0 {
                    old(self).regs@.update(rn as int, old(self).reg_written(rn, off_base))
                } else {
                    old(self).regs@
                })
                &&& op & 0x0040_0000 != 0 ==> written8(old(self).bus, final(self).bus, addr, byte_of(v, 0))
                &&& op & 0x0040_0000 == 0 ==> wrote32(old(self).bus, final(self).bus, addr, v)
            }),
    {
        proof { lemma_fields(op); }
        let rn = op >> 16 & 0xF;
        let rd = op >> 12 & 0xF;
        let v = if rd == 15 { self.r(15).wrapping_add(4) } else { self.r(rd) };
        if op & 0x0040_0000 != 0 {
            self.bus.write8(addr, byte_at(v, 0));
        } else {
            self.bus.write32(addr, v);
        }
        if op & 0x0100_0000 == 0 || op & 0x0020_0000 != 0 {
            self.set_r(rn, off_base);
        }
    }

    /// LDRH, STRH, LDRSB, LDRSH. An unaligned LDRH rotates like LDR; an
    /// unaligned LDRSH behaves as LDRSB.
    #[verifier::spinoff_prover]
    #[verifier::rlimit(80)]
    pub fn arm_halfword(&mut self, op: u32)
        requires
            old(self).wf(),
        ensures
            final(self).wf(),
            halfword_done(*old(self), *final(self), op),
    {
        proof { lemma_fields(op); }
        let rn = op >> 16 & 0xF;
        let offset = if op & 0x0040_0000 != 0 {
            (op >> 4 & 0xF0) | (op & 0xF)
        } else {
            self.r(op & 0xF)
        };
        let base = self.r(rn);
        let up = op & 0x0080_0000 != 0;
        let pre = op & 0x0100_0000 != 0;
        let off_base = if up { base.wrapping_add(offset) } else { base.wrapping_sub(offset) };
        let addr = if pre { off_base } else { base };
        assert(off_base == indexed_base(*old(self), op, offset));
        assert(addr == transfer_addr(*old(self), op, offset));
        if op & 0x0010_0000 != 0 {
            self.load_halfword(op, addr, off_base);
        } else {
            self.store_halfword(op, addr, off_base);
        }
    }

    /// The load half of LDRH/LDRSB/LDRSH, from the computed address.
    #[verifier::spinoff_prover]
    #[verifier::rlimit(80)]
    fn load_halfword(&mut self, op: u32, addr: u32, off_base: u32)
        requires
            old(self).wf(),
        ensures
            final(self).wf(),
            *final(self) == (Cpu { regs: final(self).regs, bus: final(self).bus, ..*old(self) }),
            ({
                let rn = (op >> 16u32) & 0xF;
                let rd = (op >> 12u32) & 0xF;
                let ty = (op >> 5u32) & 3;
                let r1 = if op & 0x0100_0000 == 0 || op & 0x0020_0000 != 0 {
                    old(self).regs@.update(rn as int, old(self).reg_written(rn, off_base))
                } else {
                    old(self).regs@
                };
                &&& final(self).regs@ == r1.update(rd as int, old(self).reg_written(rd, hw_loaded(old(self).bus, addr, ty)))
                &&& if hw_reads_byte(addr, ty) { read8_next(old(self).bus, final(self).bus, addr) }
                    else { read16_next(old(self).bus, final(self).bus, addr) }
            }),
    {
        proof { lemma_fields(op); lemma_u32_masks(addr); }
        let rn = op >> 16 & 0xF;
        let rd = op >> 12 & 0xF;
        let ty = op >> 5 & 3;
        let v = if ty == 1 {
            let h = self.bus.read16(addr) as u32;
            rotate_right(h, (addr & 1) * 8)
        } else if ty == 2 {
            sign_extend8(self.bus.read8(addr))
        } else if addr & 1 != 0 {
            sign_extend8(self.bus.read8(addr))
        } else {
            sign_extend16(self.bus.read16(addr))
        };
        if op & 0x0100_0000 == 0 || op & 0x0020_0000 != 0 {
            self.set_r(rn, off_base);
        }
        self.set_r(rd, v);
    }

    /// STRH: the low halfword of Rd, to the computed address.
    #[verifier::spinoff_prover]
    #[verifier::rlimit(80)]
    fn store_halfword(&mut self, op: u32, addr: u32, off_base: u32)
        requires
            old(self).wf(),
        ensures
            final(self).wf(),
            *final(self) == (Cpu { regs: final(self).regs, bus: final(self).bus, ..*old(self) }),
            final(self).regs@ == (if op & 0x0100_0000 == 0 || op & 0x0020_0000 != 0 {
                old(self).regs@.update(((op >> 16u32) & 0xF) as int, old(self).reg_written((op >> 16u32) & 0xF, off_base))
            } else {
                old(self).regs@
            }),
            wrote16(old(self).bus, final(self).bus, addr, (old(self).reg_value((op >> 12u32) & 0xF) & 0xFFFF) as u16),
    {
        proof { lemma_fields(op); }
        let rn = op >> 16 & 0xF;
        let v = self.r(op >> 12 & 0xF);
        self.bus.write16(addr, (v & 0xFFFF) as u16);
        if op & 0x0100_0000 == 0 || op & 0x0020_0000 != 0 {
            self.set_r(rn, off_base);
        }
    }
}

/// A byte sign-extended to a word.
pub open spec fn sext8(b: u8) -> u32 {
    if b >= 0x80 { (b as int + 0xFFFF_FF00) as u32 } else { b as u32 }
}

/// A halfword sign-extended to a word.
pub open spec fn sext16(h: u16) -> u32 {
    if h >= 0x8000 { (h as int + 0xFFFF_0000) as u32 } else { h as u32 }
}

pub fn sign_extend8(b: u8) -> (r: u32)
    ensures
        r == sext8(b),
{
    if b >= 0x80 { b as u32 + 0xFFFF_FF00 } else { b as u32 }
}

pub fn sign_extend16(h: u16) -> (r: u32)
    ensures
        r == sext16(h),
{
    if h >= 0x8000 { h as u32 + 0xFFFF_0000 } else { h as u32 }
}

/// Index of the lowest set bit of a non-empty 16-bit register list.
pub open spec fn lowest_set(list: u32, i: u32) -> bool {
    i < 16 && bit(list, i) && forall|j: u32| j < i ==> !#[trigger] bit(list, j)
}

pub fn first_reg(list: u32) -> (r: u32)
    requires
        list & 0xFFFF != 0,
    ensures
        lowest_set(list, r),
{
    let mut i: u32 = 0;
    while i < 16
        invariant
            i <= 16,
            forall|j: u32| j < i ==> !#[trigger] bit(list, j),
        decreases 16 - i,
    {
        if test_bit(list, i) {
            return i;
        }
        i = i + 1;
    }
    proof {
        assert(!bit(list, 0u32) && !bit(list, 1u32) && !bit(list, 2u32) && !bit(list, 3u32) && !bit(list, 4u32)
            && !bit(list, 5u32) && !bit(list, 6u32) && !bit(list, 7u32) && !bit(list, 8u32) && !bit(list, 9u32)
            && !bit(list, 10u32) && !bit(list, 11u32) && !bit(list, 12u32) && !bit(list, 13u32) && !bit(list, 14u32)
            && !bit(list, 15u32));
        lemma_list_bits(list, 0);
    }
    0
}

impl Cpu {
    /// LDM, STM: transfer a list of registers to or from consecutive words,
    /// incrementing or decrementing, before or after, with optional
    /// write-back; with S, the user bank (or, for LDM with r15, a return
    /// from exception restoring the CPSR). An empty list transfers r15 and
    /// moves the base by 0x40.
    #[verifier::spinoff_prover]
    #[verifier::rlimit(80)]
    pub fn arm_block_transfer(&mut self, op: u32)
        requires
            old(self).wf(),
        ensures
            final(self).wf(),
            final(self).halted == old(self).halted,
            !(op & 0x0040_0000 != 0 && op & 0x0010_0000 != 0 && op & 0x8000 != 0) ==> final(self).cpsr == old(self).cpsr,
            block_transfer_done(*old(self), *final(self), op),
    {
        proof { lemma_fields(op); }
        let rn = op >> 16 & 0xF;
        let list = op & 0xFFFF;
        proof { lemma_list_bits(list, op); }
        let up = op & 0x0080_0000 != 0;
        let pre = op & 0x0100_0000 != 0;
        let n = count_ones16(list);
        let base = self.r(rn);
        let m = if list == 0 { 16 } else { n };
        let start = if up {
            if pre { base.wrapping_add(4) } else { base }
        } else {
            let s = base.wrapping_sub(m * 4);
            if pre { s } else { s.wrapping_add(4) }
        };
        let new_base = if up { base.wrapping_add(m * 4) } else { base.wrapping_sub(m * 4) };
        assert(start == block_start(op, base, m as nat));
        assert(new_base == block_new_base(op, base, m as nat));
        if list == 0 {
            self.block_empty(op, start, new_base);
        } else if op & 0x0010_0000 != 0 {
            self.block_load(op, start, new_base);
        } else {
            self.block_store(op, start, new_base);

        }
    }

    /// LDM, STM of the empty list: r15 alone is transferred (ARM7 quirk).
    #[verifier::spinoff_prover]
    #[verifier::rlimit(80)]
    fn block_empty(&mut self, op: u32, start: u32, new_base: u32)
        requires
            old(self).wf(),
        ensures
            final(self).wf(),
            op & 0x0010_0000 == 0 ==> {
                &&& *final(self) == (Cpu { regs: final(self).regs, bus: final(self).bus, ..*old(self) })
                &&& final(self).regs@ == written_back(*old(self), old(self).regs@, op, new_base)
                &&& wrote32(old(self).bus, final(self).bus, start, ((old(self).reg_value(15) + 4) % 0x1_0000_0000) as u32)
            },
            op & 0x0010_0000 != 0 ==> *final(self) == (Cpu { regs: final(self).regs, bus: final(self).bus, ..*old(self) }),
            op & 0x0010_0000 != 0 && !eeprom_port(old(self).bus, start) ==> {
                &&& *final(self) == (Cpu { regs: final(self).regs, ..*old(self) })
                &&& final(self).regs@ == written_back(*old(self), old(self).regs@.update(15, load32(old(self).bus, start) & !3u32), op, new_base)
            },
    {
        proof { lemma_fields(op); }
        if op & 0x0010_0000 != 0 {
            self.regs[15] = self.bus.read32(start) & !3u32;
        } else {
            let v = self.r(15).wrapping_add(4);
            self.bus.write32(start, v);
        }
        if op & 0x0020_0000 != 0 {
            self.set_r(op >> 16 & 0xF, new_base);
        }
    }

    /// LDM of a non-empty list from consecutive words at `start`.
    #[verifier::spinoff_prover]
    #[verifier::rlimit(80)]
    fn block_load(&mut self, op: u32, start: u32, new_base: u32)
        requires
            old(self).wf(),
            op & 0xFFFF != 0,
        ensures
            final(self).wf(),
            final(self).halted == old(self).halted,
            !(op & 0x0040_0000 != 0 && op & 0x8000 != 0) ==> final(self).cpsr == old(self).cpsr,
            op & 0x0040_0000 == 0 && (forall|i: u32| i < 16 && #[trigger] bit(op & 0xFFFF, i)
                ==> !eeprom_port(old(self).bus, slot_addr(start, list_rank(op & 0xFFFF, i)))) ==> {
                &&& *final(self) == (Cpu { regs: final(self).regs, ..*old(self) })
                &&& final(self).regs@ == ldm_regs(*old(self), op, start, new_base)
            },
            op & 0x0040_0000 != 0 && (forall|i: u32| i < 16 && #[trigger] bit(op & 0xFFFF, i)
                ==> !eeprom_port(old(self).bus, slot_addr(start, list_rank(op & 0xFFFF, i)))) ==> {
                &&& !bit(op & 0xFFFF, 15) ==> ldm_user_done(*old(self), *final(self), op, start, new_base)
                &&& bit(op & 0xFFFF, 15) ==> ldm_return_done(*old(self), *final(self), op, start, new_base)
            },
    {
        proof { lemma_fields(op); }
        let rn = op >> 16 & 0xF;
        let list = op & 0xFFFF;
        proof { lemma_list_bits(list, op); }
        let s_bit = op & 0x0040_0000 != 0;
        // S bit without r15 in a load: transfer the user-mode register bank.
        let user_bank = s_bit && list & 0x8000 == 0;
        if op & 0x0020_0000 != 0 {
            self.set_r(rn, new_base);
        }
        let ghost after_wb = self.regs@;
        assert(after_wb == written_back(*old(self), old(self).regs@, op, new_base));
        let mut addr = start;
        let mut i: u32 = 0;
        while i < 16
            invariant
                i <= 16,
                rn < 16,
                self.wf(),
                self.halted == old(self).halted,
                !(s_bit && list & 0x8000 != 0) ==> self.cpsr == old(self).cpsr,
                list == op & 0xFFFF,
                s_bit == (op & 0x0040_0000 != 0),
                user_bank == (s_bit && list & 0x8000 == 0),
                addr == slot_addr(start, popcount(list, i as nat)),
                after_wb == written_back(*old(self), old(self).regs@, op, new_base),
                !s_bit && (forall|j: u32| j < i && #[trigger] bit(list, j)
                    ==> !eeprom_port(old(self).bus, slot_addr(start, list_rank(list, j)))) ==> {
                    &&& *self == (Cpu { regs: self.regs, ..*old(self) })
                    &&& forall|j: int| 0 <= j < 16 ==> #[trigger] self.regs@[j] == (if j < i && bit(list, j as u32) {
                        old(self).reg_written(j as u32, load32(old(self).bus, slot_addr(start, list_rank(list, j as u32))))
                    } else {
                        after_wb[j]
                    })
                },
                user_bank && (forall|j: u32| j < i && #[trigger] bit(list, j)
                    ==> !eeprom_port(old(self).bus, slot_addr(start, list_rank(list, j)))) ==> {
                    &&& *self == (Cpu { regs: self.regs, bank_usr: self.bank_usr, bank_fiq_usr: self.bank_fiq_usr, ..*old(self) })
                    &&& forall|j: int| 0 <= j < 16 ==> #[trigger] self.regs@[j] == (if j < i && bit(list, j as u32)
                        && old(self).user_in_regs(j as u32) { ldm_word(*old(self), op, start, j as u32) } else { after_wb[j] })
                    &&& forall|k: int| 0 <= k < 2 ==> #[trigger] self.bank_usr@[k] == (if 13 + k < i && bit(list, (13 + k) as u32)
                        && !old(self).user_in_regs((13 + k) as u32) { ldm_word(*old(self), op, start, (13 + k) as u32) }
                        else { old(self).bank_usr@[k] })
                    &&& forall|k: int| 0 <= k < 5 ==> #[trigger] self.bank_fiq_usr@[k] == (if 8 + k < i && bit(list, (8 + k) as u32)
                        && !old(self).user_in_regs((8 + k) as u32) { ldm_word(*old(self), op, start, (8 + k) as u32) }
                        else { old(self).bank_fiq_usr@[k] })
                },
                s_bit && list & 0x8000 != 0 && (forall|j: u32| j < i && #[trigger] bit(list, j)
                    ==> !eeprom_port(old(self).bus, slot_addr(start, list_rank(list, j)))) ==> {
                    &&& i <= 15 ==> *self == (Cpu { regs: self.regs, ..*old(self) })
                    &&& i <= 15 ==> forall|j: int| 0 <= j < 15 ==> #[trigger] self.regs@[j] == (if j < i && bit(list, j as u32) {
                        ldm_word(*old(self), op, start, j as u32) } else { after_wb[j] })
                    &&& i == 16 ==> ldm_return_done(*old(self), *self, op, start, new_base)
                },
            decreases 16 - i,
        {
            proof {
                lemma_u32_masks(list >> i);
                lemma_slot_next(start, popcount(list, i as nat));
                lemma_list_bits(list, op);
            }
            if test_bit(list, i) {
                let v = self.bus.read32(addr);
                let ghost before = *self;
                if user_bank && i < 15 {
                    self.set_user_reg(i, v);
                } else if i == 15 {
                    proof { lemma_list_bits(list, op); }
                    if s_bit {
                        let old_mode = self.mode();
                        self.cpsr = self.spsr_get();
                        let ghost pre = *self;
                        self.switch_mode(old_mode);
                        proof {
                            assert forall|m: u32, k: int| valid_mode(m) && 0 <= k < 15 implies
                                pre.banked(old_mode, m, k) == #[trigger] before.banked(before.mode_of(), m, k) by {}
                            assert(self.cpsr == before.spsr_of());
                            assert(self.mode_of() == pre.mode_of());
                            assert(self.bus == before.bus && self.halted == before.halted);
                            assert(before.psr_restored(&*self));
                        }
                    }
                    let ghost restored = *self;
                    self.regs[15] = v & if self.thumb() { !1u32 } else { !3u32 };
                    proof {
                        if s_bit {
                            assert(self.mode_of() == restored.mode_of());
                            if valid_mode(before.mode_of()) && valid_mode(self.mode_of()) {
                                assert forall|m: u32, k: int| valid_mode(m) && 0 <= k < 15 implies
                                    #[trigger] self.banked(self.mode_of(), m, k) == before.banked(before.mode_of(), m, k) by {
                                    assert(self.banked(self.mode_of(), m, k) == restored.banked(restored.mode_of(), m, k));
                                }
                            }
                            assert(before.psr_restored(&*self));
                            if (forall|j: u32| j < 16 && #[trigger] bit(list, j)
                                ==> !eeprom_port(old(self).bus, slot_addr(start, list_rank(list, j)))) {
                                assert(bit(list, 15));
                                assert(before == (Cpu { regs: before.regs, ..*old(self) }));
                                assert(v == ldm_word(*old(self), op, start, 15));
                                assert forall|j: int| 0 <= j < 15 implies #[trigger] before.regs@[j]
                                    == ldm_regs(*old(self), op, start, new_base)[j] by {}
                                assert(ldm_return_done(*old(self), *self, op, start, new_base));
                            }
                        }
                    }
                } else {
                    self.regs[i as usize] = v;
                }
                addr = addr.wrapping_add(4);
            }
            proof {
                if s_bit && list & 0x8000 != 0 && (forall|j: u32| j < i + 1 && #[trigger] bit(list, j)
                    ==> !eeprom_port(old(self).bus, slot_addr(start, list_rank(list, j)))) && i < 15 {
                    assert(*self == (Cpu { regs: self.regs, ..*old(self) }));
                    assert forall|j: int| 0 <= j < 15 implies #[trigger] self.regs@[j] == (if j < i + 1 && bit(list, j as u32) {
                        ldm_word(*old(self), op, start, j as u32) } else { after_wb[j] }) by {}
                }
            }
            i = i + 1;
        }
        proof {
            lemma_list_bits(list, op);
            if !s_bit && (forall|j: u32| j < 16 && #[trigger] bit(list, j)
                ==> !eeprom_port(old(self).bus, slot_addr(start, list_rank(list, j)))) {
                assert(self.regs@ =~= ldm_regs(*old(self), op, start, new_base));
            }
            if user_bank && (forall|j: u32| j < 16 && #[trigger] bit(list, j)
                ==> !eeprom_port(old(self).bus, slot_addr(start, list_rank(list, j)))) {
                assert(ldm_user_done(*old(self), *self, op, start, new_base));
            }
        }
    }

    /// STM of a non-empty list to consecutive words at `start`.
    #[verifier::spinoff_prover]
    #[verifier::rlimit(80)]
    fn block_store(&mut self, op: u32, start: u32, new_base: u32)
        requires
            old(self).wf(),
            op & 0xFFFF != 0,
            new_base == block_new_base(op, old(self).reg_value((op >> 16u32) & 0xF), popcount(op & 0xFFFF, 16)),
        ensures
            final(self).wf(),
            *final(self) == (Cpu { regs: final(self).regs, bus: final(self).bus, ..*old(self) }),
            final(self).regs@ == written_back(*old(self), old(self).regs@, op, new_base),
            exists|bs: Seq<Bus>| #[trigger] stm_trace(*old(self), op, start, bs, final(self).bus),
    {
        proof { lemma_fields(op); }
        let rn = op >> 16 & 0xF;
        let list = op & 0xFFFF;
        proof { lemma_list_bits(list, op); }
        let wb = op & 0x0020_0000 != 0;
        let user_bank = op & 0x0040_0000 != 0;
        let first = first_reg(list);
        let ghost mut bs: Seq<Bus> = seq![self.bus];
        let mut addr = start;
        let mut i: u32 = 0;
        while i < 16
            invariant
                i <= 16,
                rn == (op >> 16u32) & 0xF,
                rn < 16,
                list == op & 0xFFFF,
                lowest_set(list, first),
                wb == (op & 0x0020_0000 != 0),
                user_bank == (op & 0x0040_0000 != 0),
                new_base == block_new_base(op, old(self).reg_value(rn), popcount(list, 16)),
                self.wf(),
                *self == (Cpu { bus: self.bus, ..*old(self) }),
                bs.len() == popcount(list, i as nat) + 1,
                bs[0] == old(self).bus,
                bs[bs.len() - 1] == self.bus,
                addr == slot_addr(start, popcount(list, i as nat)),
                forall|j: u32| j < i && #[trigger] bit(list, j) ==> wrote32(bs[list_rank(list, j) as int],
                    bs[list_rank(list, j) + 1int], slot_addr(start, list_rank(list, j)), stm_value(*old(self), op, j)),
            decreases 16 - i,
        {
            proof {
                lemma_u32_masks(list >> i);
                lemma_slot_next(start, popcount(list, i as nat));
            }
            if test_bit(list, i) {
                let v = if i == 15 {
                    self.r(15).wrapping_add(4)
                } else if i == rn && i != first && wb {
                    new_base // store of base after writeback point
                } else if user_bank {
                    self.user_reg(i)
                } else {
                    self.regs[i as usize]
                };
                assert(v == stm_value(*old(self), op, i));
                let ghost before = bs;
                self.bus.write32(addr, v);
                proof {
                    bs = bs.push(self.bus);
                    lemma_popcount_step(list, i);
                    assert forall|j: u32| j < i && #[trigger] bit(list, j) implies wrote32(bs[list_rank(list, j) as int],
                        bs[list_rank(list, j) + 1int], slot_addr(start, list_rank(list, j)), stm_value(*old(self), op, j)) by {
                        lemma_popcount_step(list, j);
                        lemma_popcount_mono(list, (j + 1) as nat, i as nat);
                        assert(bs[list_rank(list, j) as int] == before[list_rank(list, j) as int]);
                        assert(bs[list_rank(list, j) + 1int] == before[list_rank(list, j) + 1int]);
                    }
                }
                addr = addr.wrapping_add(4);
            }
            i = i + 1;
        }
        if wb {
            self.set_r(rn, new_base);
        }
        proof {
            assert(stm_trace(*old(self), op, start, bs, self.bus));
        }
    }
}

/// Counting the set bits below `j + 1` adds bit `j` to those below `j`.
pub proof fn lemma_popcount_step(v: u32, j: u32)
    requires
        j < 32,
    ensures
        popcount(v, (j + 1) as nat) == popcount(v, j as nat) + (if bit(v, j) { 1nat } else { 0nat }),
{
    lemma_u32_masks(v >> j);
}

/// A list in the low byte has no set bits above bit 7.
pub proof fn lemma_popcount_byte(list: u32)
    requires
        list <= 0xFF,
    ensures
        popcount(list, 16) == popcount(list, 8),
{
    assert((list >> 8u32) & 1 == 0 && (list >> 9u32) & 1 == 0 && (list >> 10u32) & 1 == 0 && (list >> 11u32) & 1 == 0
        && (list >> 12u32) & 1 == 0 && (list >> 13u32) & 1 == 0 && (list >> 14u32) & 1 == 0 && (list >> 15u32) & 1 == 0)
        by (bit_vector)
        requires
            list <= 0xFF,
    ;
    reveal_with_fuel(popcount, 9);
}

/// More low bits hold at least as many set bits.
pub proof fn lemma_popcount_mono(v: u32, a: nat, b: nat)
    requires
        a <= b,
    ensures
        popcount(v, a) <= popcount(v, b),
    decreases b,
{
    if a < b {
        lemma_popcount_mono(v, a, (b - 1) as nat);
    }
}

/// What executing ARM instruction `op` (its condition passed) does, class
/// by class, and the event it reports: undefined encodings change nothing,
/// SWI reports the BIOS call's event and does what the call does.
#[verifier::opaque]
pub open spec fn arm_executed(old: Cpu, new: Cpu, op: u32, ev: StepEvent) -> bool {
    &&& !arm_implemented(op) ==> ev == (StepEvent::UndefinedArm { op, pc: old.regs[15] }) && new == old
    &&& arm_implemented(op) && op & 0x0F00_0000 != 0x0F00_0000 ==> ev == StepEvent::Executed
    &&& arm_implemented(op) ==> ev != (StepEvent::UndefinedArm { op, pc: old.regs[15] })
    &&& op & 0x0F00_0000 == 0x0F00_0000 ==> ev == swi_event((op >> 16u32) & 0xFF)
    &&& arm_is_bx(op) ==> bx_done(old, new, op)
    &&& arm_is_branch(op) ==> branch_done(old, new, op)
    &&& arm_is_multiply(op) ==> multiply_done(old, new, op)
    &&& arm_is_data_processing(op) ==> dp_done(old, new, op)
    &&& arm_is_swap(op) ==> swap_done(old, new, op)
    &&& arm_is_halfword(op) ==> halfword_done(old, new, op)
    &&& arm_is_single_transfer(op) ==> single_transfer_done(old, new, op)
    &&& arm_is_block_transfer(op) ==> block_transfer_done(old, new, op)
    &&& arm_is_multiply_long(op) ==> mul_long_done(old, new, op)
        && new.bus == old.bus
    &&& arm_is_mrs(op) ==> mrs_done(old, new, op)
    &&& arm_is_msr(op) ==> msr_done(old, new, op) && new.bus == old.bus
    &&& op & 0x0F00_0000 == 0x0F00_0000 ==> swi_done(old, new, (op >> 16u32) & 0xFF)
}

proof fn lemma_arm_classes(op: u32)
    by (bit_vector)
    ensures
        op & 0x0C00_0000 == 0 ==> arm_implemented(op),
        op & 0x0C00_0000 == 0x0400_0000 ==> arm_implemented(op),
        op & 0x0E00_0000 == 0x0800_0000 ==> arm_implemented(op),
        op & 0x0E00_0000 == 0x0A00_0000 ==> arm_implemented(op),
        op & 0x0F00_0000 == 0x0F00_0000 ==> arm_implemented(op),
        op & 0x0FFF_FFF0 == 0x012F_FF10 ==> op & 0x0C00_0000 == 0,
        op & 0x0FC0_00F0 == 0x0000_0090 ==> op & 0x0C00_0000 == 0,
        op & 0x0F80_00F0 == 0x0080_0090 ==> op & 0x0C00_0000 == 0,
        op & 0x0FB0_0FF0 == 0x0100_0090 ==> op & 0x0C00_0000 == 0,
        op & 0x0E00_0090 == 0x0000_0090 ==> op & 0x0C00_0000 == 0,
        op & 0x0FBF_0FFF == 0x010F_0000 ==> op & 0x0C00_0000 == 0,
        op & 0x0DB0_F000 == 0x0120_F000 ==> op & 0x0C00_0000 == 0,
        op & 0x0C00_0000 != 0 && op & 0x0C00_0000 != 0x0400_0000 && op & 0x0E00_0000 != 0x0800_0000
            && op & 0x0E00_0000 != 0x0A00_0000 && op & 0x0F00_0000 != 0x0F00_0000 ==> !arm_implemented(op),
        op & 0x0F00_0000 == 0x0F00_0000 ==> op & 0x0C00_0000 == 0x0C00_0000 && op & 0x0E00_0000 == 0x0E00_0000,
        op & 0x0E00_0000 == 0x0A00_0000 ==> op & 0x0FFF_FFF0 != 0x012F_FF10,
        op & 0x0FC0_00F0 == 0x0000_0090 ==> op & 0x0FFF_FFF0 != 0x012F_FF10 && op & 0x0E00_0000 != 0x0A00_0000,
        op & 0x0C00_0000 == 0 ==> op & 0x0E00_0000 != 0x0A00_0000,
        op & 0x0E00_0000 == 0x0A00_0000 ==> op & 0x0C00_0000 == 0x0800_0000,
        op & 0x0E00_0000 == 0x0800_0000 ==> op & 0x0C00_0000 == 0x0800_0000,
{
}

impl Cpu {
    /// Execute one ARM instruction whose condition passed.
    pub fn exec_arm(&mut self, op: u32) -> (ev: StepEvent)
        requires
            old(self).wf(),
        ensures
            final(self).wf(),
            arm_executed(*old(self), *final(self), op, ev),
    {
        proof {
            lemma_arm_classes(op);
            reveal(arm_executed);
        }
        if op & 0x0FFF_FFF0 == 0x012F_FF10 {
            self.arm_bx(op);
        } else if op & 0x0E00_0000 == 0x0A00_0000 {
            self.arm_branch(op);
        } else if op & 0x0FC0_00F0 == 0x0000_0090 {
            self.arm_multiply(op);
        } else if op & 0x0F80_00F0 == 0x0080_0090 {
            self.arm_multiply_long(op);
        } else if op & 0x0FB0_0FF0 == 0x0100_0090 {
            self.arm_swap(op);
        } else if op & 0x0E00_0090 == 0x0000_0090 && op & 0x60 != 0 {
            self.arm_halfword(op);
        } else if op & 0x0FBF_0FFF == 0x010F_0000 {
            self.arm_mrs(op);
        } else if op & 0x0DB0_F000 == 0x0120_F000 {
            self.arm_msr(op);
        } else if op & 0x0C00_0000 == 0x0000_0000 {
            self.arm_data_processing(op);
        } else if op & 0x0C00_0000 == 0x0400_0000 {
            self.arm_single_transfer(op);
        } else if op & 0x0E00_0000 == 0x0800_0000 {
            self.arm_block_transfer(op);
        } else if op & 0x0F00_0000 == 0x0F00_0000 {
            return self.hle_swi(op >> 16 & 0xFF);
        } else {
            return StepEvent::UndefinedArm { op, pc: self.regs[15] };
        }
        StepEvent::Executed
    }
}

} // verus!
