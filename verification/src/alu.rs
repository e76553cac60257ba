//! The ARM7TDMI's arithmetic: condition codes, the barrel shifter, and
//! addition with its NZCV flags.

use vstd::prelude::*;
use crate::bits::{rotr, rotate_right};

verus! {

/// CPSR flag bits.
pub const FLAG_N: u32 = 0x8000_0000;
pub const FLAG_Z: u32 = 0x4000_0000;
pub const FLAG_C: u32 = 0x2000_0000;
pub const FLAG_V: u32 = 0x1000_0000;
/// Thumb state.
pub const FLAG_T: u32 = 0x20;

pub open spec fn flag(cpsr: u32, f: u32) -> bool {
    cpsr & f != 0
}

/// Whether condition field `c` passes under the flags of `cpsr`.
pub open spec fn cond_passed(cpsr: u32, c: u32) -> bool {
    let n = flag(cpsr, FLAG_N);
    let z = flag(cpsr, FLAG_Z);
    let cy = flag(cpsr, FLAG_C);
    let v = flag(cpsr, FLAG_V);
    if c == 0x0 { z }                       // EQ
    else if c == 0x1 { !z }                 // NE
    else if c == 0x2 { cy }                 // CS
    else if c == 0x3 { !cy }                // CC
    else if c == 0x4 { n }                  // MI
    else if c == 0x5 { !n }                 // PL
    else if c == 0x6 { v }                  // VS
    else if c == 0x7 { !v }                 // VC
    else if c == 0x8 { cy && !z }           // HI
    else if c == 0x9 { !cy || z }           // LS
    else if c == 0xA { n == v }             // GE
    else if c == 0xB { n != v }             // LT
    else if c == 0xC { !z && n == v }       // GT
    else if c == 0xD { z || n != v }        // LE
    else { true }                           // AL
}

pub fn cond(cpsr: u32, c: u32) -> (r: bool)
    ensures
        r == cond_passed(cpsr, c),
{
    let n = cpsr & FLAG_N != 0;
    let z = cpsr & FLAG_Z != 0;
    let cy = cpsr & FLAG_C != 0;
    let v = cpsr & FLAG_V != 0;
    if c == 0x0 { z }
    else if c == 0x1 { !z }
    else if c == 0x2 { cy }
    else if c == 0x3 { !cy }
    else if c == 0x4 { n }
    else if c == 0x5 { !n }
    else if c == 0x6 { v }
    else if c == 0x7 { !v }
    else if c == 0x8 { cy && !z }
    else if c == 0x9 { !cy || z }
    else if c == 0xA { n == v }
    else if c == 0xB { n != v }
    else if c == 0xC { !z && n == v }
    else if c == 0xD { z || n != v }
    else { true }
}

/// Bit `i` of `v`.
pub open spec fn bit(v: u32, i: u32) -> bool {
    (v >> i) & 1 != 0
}

/// The barrel shifter: shift type `ty` (LSL, LSR, ASR, ROR) of `val` by
/// `amount`, with the carry-in `c_in`; `imm` marks an amount taken from an
/// immediate field, where 0 encodes LSR/ASR #32 and RRX. Returns the result
/// and the shifter carry-out.
pub open spec fn barrel(ty: u32, val: u32, amount: u32, imm: bool, c_in: bool) -> (u32, bool) {
    if ty == 0 {
        // LSL
        if amount == 0 { (val, c_in) }
        else if amount < 32 { (val << amount, bit(val, (32 - amount) as u32)) }
        else if amount == 32 { (0, bit(val, 0)) }
        else { (0, false) }
    } else if ty == 1 {
        // LSR
        let a = if imm && amount == 0 { 32 } else { amount };
        if a == 0 { (val, c_in) }
        else if a < 32 { (val >> a, bit(val, (a - 1) as u32)) }
        else if a == 32 { (0, bit(val, 31)) }
        else { (0, false) }
    } else if ty == 2 {
        // ASR
        let a = if imm && amount == 0 { 32 } else { amount };
        if a == 0 { (val, c_in) }
        else if a < 32 { (((val as i32) >> a) as u32, bit(val, (a - 1) as u32)) }
        else { (if bit(val, 31) { 0xFFFF_FFFFu32 } else { 0u32 }, bit(val, 31)) }
    } else {
        // ROR, and RRX for an immediate 0
        if imm && amount == 0 { ((val >> 1u32) | (if c_in { 0x8000_0000u32 } else { 0u32 }), bit(val, 0)) }
        else if amount == 0 { (val, c_in) }
        else if amount % 32 == 0 { (val, bit(val, 31)) }
        else { (rotr(val, amount), bit(val, (amount % 32 - 1) as u32)) }
    }
}

pub fn test_bit(v: u32, i: u32) -> (r: bool)
    requires
        i < 32,
    ensures
        r == bit(v, i),
{
    (v >> i) & 1 != 0
}

pub fn shift(ty: u32, val: u32, amount: u32, imm: bool, c_in: bool) -> (r: (u32, bool))
    ensures
        r == barrel(ty, val, amount, imm, c_in),
{
    if ty == 0 {
        if amount == 0 { (val, c_in) }
        else if amount < 32 { (val << amount, test_bit(val, 32 - amount)) }
        else if amount == 32 { (0, test_bit(val, 0)) }
        else { (0, false) }
    } else if ty == 1 {
        let a = if imm && amount == 0 { 32 } else { amount };
        if a == 0 { (val, c_in) }
        else if a < 32 { (val >> a, test_bit(val, a - 1)) }
        else if a == 32 { (0, test_bit(val, 31)) }
        else { (0, false) }
    } else if ty == 2 {
        let a = if imm && amount == 0 { 32 } else { amount };
        if a == 0 { (val, c_in) }
        else if a < 32 { (((val as i32) >> a) as u32, test_bit(val, a - 1)) }
        else {
            let fill: u32 = if test_bit(val, 31) { 0xFFFF_FFFF } else { 0 };
            (fill, test_bit(val, 31))
        }
    } else {
        if imm && amount == 0 {
            let top: u32 = if c_in { 0x8000_0000 } else { 0 };
            ((val >> 1) | top, test_bit(val, 0))
        } else if amount == 0 { (val, c_in) }
        else if amount % 32 == 0 { (val, test_bit(val, 31)) }
        else { (rotate_right(val, amount), test_bit(val, amount % 32 - 1)) }
    }
}

/// Register and immediate fields of an instruction are in range.
pub proof fn lemma_fields(op: u32)
    ensures
        op & 0xF < 16,
        (op >> 8u32) & 0xF < 16,
        (op >> 12u32) & 0xF < 16,
        (op >> 16u32) & 0xF < 16,
        (op >> 21u32) & 0xF < 16,
        (op >> 3u32) & 0xF < 16,
        (op >> 8u32) & 0xF <= 15,
        op & 7 < 8,
        (op >> 3u32) & 7 < 8,
        (op >> 6u32) & 7 < 8,
        (op >> 8u32) & 7 < 8,
        (op >> 5u32) & 3 < 4,
        (op >> 7u32) & 0x1F < 32,
        (op >> 6u32) & 0x1F < 32,
        op & 0xFF < 256,
        op & 0xFFF < 4096,
{
    crate::bitfacts::lemma_u32_masks(op);
}

/// `a + b + c` modulo 2^32.
pub open spec fn add_result(a: u32, b: u32, c: u32) -> u32 {
    ((a + b + c) % 0x1_0000_0000) as u32
}

/// The carry out of `a + b + c`.
pub open spec fn add_carry(a: u32, b: u32, c: u32) -> bool {
    a + b + c > 0xFFFF_FFFF
}

/// Signed overflow of an addition: both operands have the same sign and the
/// result's sign differs from it.
pub open spec fn add_overflow(a: u32, b: u32, c: u32) -> bool {
    bit(a, 31) == bit(b, 31) && bit(add_result(a, b, c), 31) != bit(a, 31)
}

/// `cpsr` with flag bit `f` set to `on`.
pub open spec fn with_flag(cpsr: u32, f: u32, on: bool) -> u32 {
    if on { cpsr | f } else { cpsr & !f }
}

/// Setting or clearing the Thumb bit leaves the mode alone.
pub proof fn lemma_with_flag_t(c: u32, on: bool)
    ensures
        flag(with_flag(c, FLAG_T, on), FLAG_T) == on,
        with_flag(c, FLAG_T, on) & 0x1F == c & 0x1F,
{
    crate::bitfacts::lemma_nzcv(c, false, false, false, false);
}

/// `cpsr` with N and Z set from the result `r`.
pub open spec fn with_nz(cpsr: u32, r: u32) -> u32 {
    with_flag(with_flag(cpsr, FLAG_N, bit(r, 31)), FLAG_Z, r == 0)
}

/// `cpsr` with all four flags set from the addition `a + b + c`.
pub open spec fn add_flags(cpsr: u32, a: u32, b: u32, c: u32) -> u32 {
    with_flag(with_flag(with_nz(cpsr, add_result(a, b, c)), FLAG_C, add_carry(a, b, c)), FLAG_V, add_overflow(a, b, c))
}

pub fn set_flag(cpsr: u32, f: u32, on: bool) -> (r: u32)
    ensures
        r == with_flag(cpsr, f, on),
{
    if on { cpsr | f } else { cpsr & !f }
}

pub fn set_nz(cpsr: u32, r: u32) -> (c: u32)
    ensures
        c == with_nz(cpsr, r),
{
    let c1 = set_flag(cpsr, FLAG_N, test_bit(r, 31));
    set_flag(c1, FLAG_Z, r == 0)
}

/// `a + b + carry`, with the flags it sets. `carry` is 0 or 1.
pub fn add_with_flags(cpsr: u32, a: u32, b: u32, carry: u32) -> (r: (u32, u32))
    requires
        carry <= 1,
    ensures
        r.0 == add_result(a, b, carry),
        r.1 == add_flags(cpsr, a, b, carry),
{
    let r64 = a as u64 + b as u64 + carry as u64;
    let r = (r64 % 0x1_0000_0000) as u32;
    let c1 = set_nz(cpsr, r);
    let c2 = set_flag(c1, FLAG_C, r64 > 0xFFFF_FFFF);
    let v = (!(a ^ b) & (a ^ r)) >> 31 != 0;
    assert(v == (bit(a, 31) == bit(b, 31) && bit(r, 31) != bit(a, 31))) by (bit_vector)
        requires v == ((!(a ^ b) & (a ^ r)) >> 31u32 != 0);
    (r, set_flag(c2, FLAG_V, v))
}

} // verus!
