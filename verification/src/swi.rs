//! High-level emulation of the BIOS calls (no BIOS image needed): reset,
//! halts, division, square root, memory copy and fill, bit unpacking and
//! the LZ77 and run-length decompressors. The two arctangent calls need
//! floating point and are handed to the frontend.

use vstd::prelude::*;
use crate::bitfacts::{lemma_u32_masks, lemma_swi_bits, lemma_ram_offset};
use crate::alu::FLAG_T;
use crate::arm::signed32;
use crate::cpu::{Cpu, StepEvent, ROM_START};
use crate::bus::Bus;
use crate::bits::{seq_le16, byte_of};
use crate::io::bus_frame;
use crate::mem::{eeprom_port, load16, load32, peek8, read8_value, read8_next};
use crate::store::{wrote16, wrote32, wrote32_plain, byte_stored, byte_written};

verus! {

/// `|x|` of an integer.
pub open spec fn abs(x: int) -> int {
    if x < 0 { -x } else { x }
}

/// Division truncated toward zero, as the BIOS (and C) divide.
pub open spec fn trunc_div(n: int, d: int) -> int {
    let q = abs(n) / abs(d);
    if (n < 0) != (d < 0) { -q } else { q }
}

/// The remainder of truncated division: it takes the sign of the dividend.
pub open spec fn trunc_rem(n: int, d: int) -> int {
    let r = abs(n) % abs(d);
    if n < 0 { -r } else { r }
}

/// An integer as a word, modulo 2^32.
pub open spec fn word(x: int) -> u32 {
    (x % 0x1_0000_0000) as u32
}

/// The integer square root: the largest `r` with `r * r <= x`.
pub open spec fn is_isqrt(x: u32, r: u32) -> bool {
    r * r <= x < (r + 1) * (r + 1)
}

/// `-x` modulo 2^32.
fn neg32(x: u32) -> (r: u32)
    ensures
        r == word(-(x as int)),
{
    if x == 0 { 0 } else { 0xFFFF_FFFF - x + 1 }
}

/// BIOS Div: numerator `n`, denominator `d` (both signed, `d` nonzero).
/// Returns the quotient, the remainder and the quotient's magnitude.
pub fn divide(n: u32, d: u32) -> (r: (u32, u32, u32))
    requires
        d != 0,
    ensures
        r.0 == word(trunc_div(signed32(n), signed32(d))),
        r.1 == word(trunc_rem(signed32(n), signed32(d))),
        r.2 == word(abs(trunc_div(signed32(n), signed32(d)))),
{
    let nneg = n >= 0x8000_0000;
    let dneg = d >= 0x8000_0000;
    let na = if nneg { neg32(n) } else { n };
    let da = if dneg { neg32(d) } else { d };
    assert(na == abs(signed32(n)) && da == abs(signed32(d)));
    let qa = na / da;
    let ra = na % da;
    let q = if nneg != dneg { neg32(qa) } else { qa };
    let rm = if nneg { neg32(ra) } else { ra };
    proof {
        assert(qa <= na);
        vstd::arithmetic::div_mod::lemma_small_mod(qa as nat, 0x1_0000_0000);
        vstd::arithmetic::div_mod::lemma_small_mod(ra as nat, 0x1_0000_0000);
    }
    (q, rm, qa)
}

/// Integer square root of a word.
pub fn isqrt(x: u32) -> (r: u32)
    ensures
        is_isqrt(x, r),
{
    let mut lo: u64 = 0;
    let mut hi: u64 = 0x1_0000;
    assert(hi * hi > x) by (nonlinear_arith) requires hi == 0x1_0000;
    while hi - lo > 1
        invariant
            lo < hi <= 0x1_0000,
            lo * lo <= x,
            hi * hi > x,
        decreases hi - lo,
    {
        let mid = lo + (hi - lo) / 2;
        assert(mid * mid <= 0x1_0000 * 0x1_0000) by (nonlinear_arith) requires mid <= 0x1_0000;
        if mid * mid <= x as u64 {
            lo = mid;
        } else {
            hi = mid;
        }
    }
    assert(lo + 1 == hi);
    lo as u32
}

/// The BIOS's copy of the interrupt flags, which interrupt handlers set:
/// the halfword at 0x03007FF8 (IWRAM offset 0x7FF8).
pub open spec fn bios_if(b: Bus) -> u16 {
    seq_le16(b.iwram@, 0x7FF8)
}

/// IWRAM with the BIOS interrupt flags set to `v`.
pub open spec fn iwram_with_if(iw: Seq<u8>, v: u16) -> Seq<u8> {
    iw.update(0x7FF8, (v & 0xFF) as u8).update(0x7FF9, (v >> 8u16) as u8)
}

/// One check of an IntrWait for `mask`: when one of those flags is set in
/// the BIOS copy of IF, they are acknowledged (cleared) and the wait ends;
/// otherwise the CPU halts, to check again when it is back at `resume`.
pub open spec fn intr_checked(old: Cpu, new: Cpu, mask: u16, resume: u32) -> bool {
    let f = bios_if(old.bus);
    if f & mask != 0 {
        &&& new.bus == (Bus { iwram: new.bus.iwram, ..old.bus })
        &&& new.bus.iwram@ == iwram_with_if(old.bus.iwram@, f & !mask)
        &&& new == (Cpu { bus: new.bus, wait_flags: 0, ..old })
    } else {
        new == (Cpu { halted: true, wait_flags: mask, wait_pc: resume, ..old })
    }
}

/// The flags IntrWait (4, flags in r1) or VBlankIntrWait (5, vblank) waits for.
pub open spec fn wait_mask(old: Cpu, n: u32) -> u16 {
    if n == 0x05 { 1 } else { (old.regs[1] & 0x3FFF) as u16 }
}

/// Where a wait goes on: the instruction after the call.
pub open spec fn wait_resume(old: Cpu) -> u32 {
    ((old.regs[15] + if old.in_thumb() { 2int } else { 4int }) % 0x1_0000_0000) as u32
}

/// IntrWait / VBlankIntrWait: interrupts on (IME), the awaited flags first
/// cleared in the BIOS copy of IF when asked (r0 = 1, always for
/// VBlankIntrWait), then checked; a wait goes on after the instruction.
pub open spec fn intr_wait_done(old: Cpu, new: Cpu, n: u32) -> bool {
    let mask = wait_mask(old, n);
    let discard = n == 0x05 || old.regs[0] == 1;
    let resume = wait_resume(old);
    exists|mid: Cpu| {
        &&& mid.bus == (Bus { iwram: mid.bus.iwram, ime: true, ..old.bus })
        &&& mid.bus.iwram@ == (if discard { iwram_with_if(old.bus.iwram@, bios_if(old.bus) & !mask) }
            else { old.bus.iwram@ })
        &&& mid == (Cpu { bus: mid.bus, ..old })
        &&& #[trigger] intr_checked(mid, new, mask, resume)
    }
}

/// The BIOS calls carried out here; the others are reported as unknown.
pub open spec fn swi_known(n: u32) -> bool {
    n <= 0x0C || n == 0x0E || n == 0x0F || 0x10 <= n <= 0x15
}

/// What a BIOS call reports: the floating-point calls (ArcTan, ArcTan2 and
/// the affine parameter calls) are left to the frontend, a call this BIOS
/// does not know is reported with its number, and the rest just ran.
pub open spec fn swi_event(n: u32) -> StepEvent {
    if n == 0x09 {
        StepEvent::ArcTan
    } else if n == 0x0A {
        StepEvent::ArcTan2
    } else if n == 0x0E {
        StepEvent::BgAffineSet
    } else if n == 0x0F {
        StepEvent::ObjAffineSet
    } else if swi_known(n) {
        StepEvent::Executed
    } else {
        StepEvent::UnknownSwi { n }
    }
}

/// What BIOS call `n` does: SoftReset jumps to the cartridge in ARM state,
/// the halts halt, Div and DivArm divide, Sqrt takes the square root, the
/// memory calls change only the bus (CpuSet, CpuFastSet and the
/// decompressors as specified), and the rest change nothing here (the
/// floating-point ones are finished by the frontend, see [`swi_event`]).
pub open spec fn swi_done(old: Cpu, new: Cpu, n: u32) -> bool {
    &&& n == 0x00 ==> new.regs[15] == ROM_START && new.cpsr == old.cpsr & !FLAG_T
        && new.bus == old.bus
    &&& (n == 0x02 || n == 0x03) ==> new == (Cpu { halted: true, ..old })
    &&& (n == 0x04 || n == 0x05) ==> intr_wait_done(old, new, n)
    &&& (n == 0x06 || n == 0x07) ==> {
        let (num, den) = if n == 0x06 { (old.regs[0], old.regs[1]) } else { (old.regs[1], old.regs[0]) };
        let (nn, dd) = (signed32(num), signed32(den));
        if den != 0 {
            &&& new.regs@ == old.regs@.update(0, word(trunc_div(nn, dd))).update(1, word(trunc_rem(nn, dd)))
                .update(3, word(abs(trunc_div(nn, dd))))
        } else {
            new.regs == old.regs
        }
    }
    &&& n == 0x08 ==> is_isqrt(old.regs[0], new.regs[0])
        && new.regs@ == old.regs@.update(0, new.regs[0])
    &&& n != 0x00 ==> new.cpsr == old.cpsr
    &&& !(0x02 <= n <= 0x05) ==> new.halted == old.halted && new.wait_flags == old.wait_flags
        && new.wait_pc == old.wait_pc
    &&& (n == 0x01 || n == 0x09 || n == 0x0A || !(n <= 0x0C || 0x10 <= n <= 0x15))
        ==> new == old
    &&& (n == 0x0B || n == 0x0C || 0x10 <= n <= 0x15) ==> bus_only(old, new)
    &&& n == 0x13 ==> huff_done(old, new)
    &&& n == 0x0B ==> cpu_set_done(old, new)
    &&& n == 0x0C ==> cpu_fast_set_done(old, new)
    &&& n == 0x10 ==> bit_unpack_done(old, new)
    &&& (n == 0x11 || n == 0x12) ==> lz77_done(old, new)
    &&& (n == 0x14 || n == 0x15) ==> rl_done(old, new)
}

/// The compressed data a decompressor reads lies in cartridge ROM (regions
/// 0x08-0x0C), `reach` bytes of it from `src`, which no write can change.
pub open spec fn rom_source(src: int, reach: int) -> bool {
    0x0800_0000 <= src && src + reach <= 0x0D00_0000
}

/// The size a decompressor's header at `src` announces: bits 8-31.
pub open spec fn unpacked_size(b: Bus, src: u32) -> nat {
    (load32(b, src) >> 8u32) as nat
}

/// The run-length stream at `at` expanded to at most `n` bytes: a flag
/// byte with bit 7 set repeats the next byte (flag & 0x7F) + 3 times;
/// otherwise (flag & 0x7F) + 1 literal bytes follow.
pub open spec fn rl_expand(b: Bus, at: int, n: nat) -> Seq<u8>
    decreases n,
{
    if n == 0 {
        Seq::empty()
    } else {
        let flag = peek8(b, at as u32);
        if flag & 0x80 != 0 {
            let len = if (flag & 0x7F) as nat + 3 < n { (flag & 0x7F) as nat + 3 } else { n };
            Seq::new(len, |i: int| peek8(b, (at + 1) as u32)) + rl_expand(b, at + 2, (n - len) as nat)
        } else {
            let len = if (flag & 0x7F) as nat + 1 < n { (flag & 0x7F) as nat + 1 } else { n };
            Seq::new(len, |i: int| peek8(b, (at + 1 + i) as u32)) + rl_expand(b, at + 1 + len, (n - len) as nat)
        }
    }
}

/// The bus goes from `bs[0]` to `bs[out.len()]` storing the bytes of `out`
/// one after another at consecutive addresses from `dst`.
pub open spec fn byte_trace(bs: Seq<Bus>, dst: u32, out: Seq<u8>) -> bool {
    &&& bs.len() == out.len() + 1
    &&& forall|k: int| 0 <= k < out.len() ==> #[trigger] byte_written(bs[k], bs[k + 1], unit_addr(dst, 1, k as nat), out[k])
}

/// RLUnComp from a clear source (see [`source_clear`]): the header's size
/// worth of bytes, expanded from the stream after the header, stored in turn
/// from r1.
pub open spec fn rl_done(old: Cpu, new: Cpu) -> bool {
    source_clear(old.regs[0], (4 + 2 * unpacked_size(old.bus, old.regs[0])) as int, old.regs[1],
        unpacked_size(old.bus, old.regs[0])) ==> exists|bs: Seq<Bus>|
        #[trigger] byte_trace(bs, old.regs[1], rl_expand(old.bus, old.regs[0] + 4, unpacked_size(old.bus, old.regs[0])))
        && bs[0] == old.bus && bs[unpacked_size(old.bus, old.regs[0]) as int] == new.bus
}

/// `m` more bytes after `out`, each a copy of the byte `d` back from the
/// end, so that a copy may repeat bytes it has itself produced.
pub open spec fn lz_copy(out: Seq<u8>, d: nat, m: nat) -> Seq<u8>
    decreases m,
{
    if m == 0 { out } else { lz_copy(out.push(out[out.len() - d]), d, (m - 1) as nat) }
}

/// The LZ77 stream at `at`, with `k` blocks left under flag byte `flags`,
/// appended to `out` until it holds `n` bytes; `None` when a back
/// reference reaches before the start of the output. When no blocks are
/// left, the next flag byte is read; its bits, most significant first,
/// announce a literal byte (0) or a back reference (1).
pub open spec fn lz_go(b: Bus, at: int, flags: u8, k: nat, out: Seq<u8>, n: nat) -> Option<Seq<u8>>
    decreases n - out.len(), 1int,
{
    if out.len() >= n {
        Some(out)
    } else if k == 0 {
        lz_block(b, at + 1, peek8(b, at as u32), 8, out, n)
    } else {
        lz_block(b, at, flags, k, out, n)
    }
}

/// One block: a literal byte, or a back reference of two bytes giving a
/// length of 3-18 and a distance of 1-4096 (cut short at `n` bytes).
pub open spec fn lz_block(b: Bus, at: int, flags: u8, k: nat, out: Seq<u8>, n: nat) -> Option<Seq<u8>>
    decreases n - out.len(), 0int,
{
    if out.len() >= n || k == 0 || k > 8 {
        Some(out)
    } else if (flags >> ((k - 1) as u8)) & 1 == 0 {
        lz_go(b, at + 1, flags, (k - 1) as nat, out.push(peek8(b, at as u32)), n)
    } else {
        let b0 = peek8(b, at as u32) as u32;
        let b1 = peek8(b, (at + 1) as u32) as u32;
        let len = (b0 >> 4u32) as nat + 3;
        let disp = ((b0 & 0xF) << 8u32 | b1) as nat + 1;
        let m = if len < n - out.len() { len } else { (n - out.len()) as nat };
        if disp > out.len() {
            None
        } else {
            proof { lemma_lz_copy_len(out, disp, m); }
            lz_go(b, at + 2, flags, (k - 1) as nat, lz_copy(out, disp, m), n)
        }
    }
}

/// A copy adds as many bytes as asked.
pub proof fn lemma_lz_copy_len(out: Seq<u8>, d: nat, m: nat)
    ensures
        lz_copy(out, d, m).len() == out.len() + m,
    decreases m,
{
    if m > 0 {
        lemma_lz_copy_len(out.push(out[out.len() - d]), d, (m - 1) as nat);
    }
}

/// A copy keeps what was there and adds the next byte first.
proof fn lemma_lz_copy_step(out: Seq<u8>, d: nat, m: nat)
    requires
        m > 0,
    ensures
        lz_copy(out, d, m) == lz_copy(out.push(out[out.len() - d]), d, (m - 1) as nat),
{
}

/// The destination of a decompressor lies in one work RAM or in VRAM, `n`
/// bytes of it from `dst` without running past its end (for VRAM, past its
/// 96KB, where the mirror of the sprite area begins).
pub open spec fn ram_block(dst: u32, n: nat) -> bool {
    ||| dst >> 24u32 == 2 && (dst & 0x3FFFF) + n <= 0x40000
    ||| dst >> 24u32 == 3 && (dst & 0x7FFF) + n <= 0x8000
    ||| dst >> 24u32 == 6 && (dst & 0x1FFFF) + n <= 0x18000
}

/// Offset of an address within its RAM (work RAM or VRAM).
pub open spec fn ram_offset(a: u32) -> int {
    if a >> 24u32 == 2 { (a & 0x3FFFF) as int } else if a >> 24u32 == 3 { (a & 0x7FFF) as int } else { (a & 0x1FFFF) as int }
}

/// Two RAM blocks share no byte.
pub open spec fn blocks_apart(a: u32, m: nat, d: u32, n: nat) -> bool {
    a >> 24u32 != d >> 24u32 || ram_offset(a) + m <= ram_offset(d) || ram_offset(d) + n <= ram_offset(a)
}

/// Where a decompressor may read `reach` bytes from `src` while it writes
/// `n` bytes from `dst`: in ROM, or in a RAM block apart from a RAM
/// destination, so that no store of the output changes what it reads.
pub open spec fn source_clear(src: u32, reach: int, dst: u32, n: nat) -> bool {
    ||| rom_source(src as int, reach)
    ||| 0 <= reach && ram_block(src, reach as nat) && ram_block(dst, n) && blocks_apart(src, reach as nat, dst, n)
}

/// The `reach` source bytes from `src` read on `cur` as they did on `bus0`.
pub open spec fn source_intact(cur: Bus, bus0: Bus, src: u32, reach: int) -> bool {
    &&& cur.rom == bus0.rom
    &&& forall|k: nat| k < reach ==> peek8(cur, #[trigger] unit_addr(src, 1, k)) == peek8(bus0, unit_addr(src, 1, k))
}

/// A clear source byte reads as it did at the start, and reading it
/// changes nothing.
proof fn lemma_source_byte(cur: Bus, bus0: Bus, src: u32, reach: int, dst: u32, n: nat, k: nat)
    requires
        source_clear(src, reach, dst, n),
        source_intact(cur, bus0, src, reach),
        k < reach,
    ensures
        src + reach < 0x1_0000_0000,
        src + k < 0x1_0000_0000,
        unit_addr(src, 1, k) == (src + k) as u32,
        !eeprom_port(cur, (src + k) as u32),
        read8_value(cur, (src + k) as u32) == peek8(bus0, (src + k) as u32),
        read8_next(cur, cur, (src + k) as u32),
{
    if rom_source(src as int, reach) {
        lemma_rom_byte(cur, bus0, src + k);
    } else {
        lemma_ram_read(cur, src, reach as nat, k);
        lemma_ram_offset(src, k as u32);
        assert(src >> 24u32 <= 6 ==> src < 0x0700_0000) by (bit_vector);
    }
}

/// The RAMs have their hardware sizes.
pub open spec fn ram_sized(b: Bus) -> bool {
    b.ewram@.len() == crate::bus::EWRAM_SIZE && b.iwram@.len() == crate::bus::IWRAM_SIZE
        && b.vram@.len() == crate::bus::VRAM_SIZE
}

/// A store of output byte `w` leaves a clear source intact.
proof fn lemma_source_kept(before: Bus, after: Bus, bus0: Bus, src: u32, reach: int, dst: u32, n: nat, w: nat, b: u8)
    requires
        ram_sized(before),
        source_clear(src, reach, dst, n),
        source_intact(before, bus0, src, reach),
        after.rom == before.rom,
        w < n,
        ram_block(dst, n) ==> byte_stored(before, after, unit_addr(dst, 1, w), b),
    ensures
        source_intact(after, bus0, src, reach),
{
    if !rom_source(src as int, reach) {
        lemma_ram_offset(dst, w as u32);
        assert((dst + w) % 0x1_0000_0000 == dst + w);
        lemma_u32_masks(unit_addr(dst, 1, w));
        assert forall|k: nat| k < reach implies peek8(after, #[trigger] unit_addr(src, 1, k))
            == peek8(bus0, unit_addr(src, 1, k)) by {
            lemma_ram_offset(src, k as u32);
            assert((src + k) % 0x1_0000_0000 == src + k);
            lemma_u32_masks(unit_addr(src, 1, k));
            assert(peek8(before, unit_addr(src, 1, k)) == peek8(bus0, unit_addr(src, 1, k)));
        }
    } else {
        assert forall|k: nat| k < reach implies peek8(after, #[trigger] unit_addr(src, 1, k))
            == peek8(bus0, unit_addr(src, 1, k)) by {
            assert(unit_addr(src, 1, k) == src + k);
            lemma_rom_byte(after, bus0, src + k);
        }
    }
}

/// LZ77UnComp from a clear source (see [`source_clear`]) into work RAM or
/// VRAM, for a stream whose back references stay within the output: the
/// header's size worth of bytes, decoded from the stream after the header,
/// stored in turn from r1.
pub open spec fn lz77_done(old: Cpu, new: Cpu) -> bool {
    source_clear(old.regs[0], (4 + 3 * unpacked_size(old.bus, old.regs[0])) as int, old.regs[1],
        unpacked_size(old.bus, old.regs[0]))
        && ram_block(old.regs[1], unpacked_size(old.bus, old.regs[0]))
        && lz_go(old.bus, old.regs[0] + 4, 0, 0, Seq::empty(), unpacked_size(old.bus, old.regs[0])) is Some
        ==> exists|bs: Seq<Bus>| #[trigger] byte_trace(bs, old.regs[1],
            lz_go(old.bus, old.regs[0] + 4, 0, 0, Seq::empty(), unpacked_size(old.bus, old.regs[0]))->0)
            && bs[0] == old.bus && bs[unpacked_size(old.bus, old.regs[0]) as int] == new.bus
}

/// What LZ77 decompression keeps as it goes: the stream position, the
/// bytes written so far (in `out`, readable back at the destination), and
/// the trace of the bus through their stores.
pub open spec fn lz_inv(bus0: Bus, cur: Bus, bs: Seq<Bus>, out: Seq<u8>, src0: u32, src: u32, dst: u32,
    size: u32, written: u32, consumed: int, total: Seq<u8>) -> bool {
    &&& size == unpacked_size(bus0, src0)
    &&& source_clear(src0, (4 + 3 * size) as int, dst, size as nat)
    &&& source_intact(cur, bus0, src0, (4 + 3 * size) as int)
    &&& ram_block(dst, size as nat)
    &&& 0 <= consumed
    &&& src == src0 + 4 + consumed
    &&& out.len() == written
    &&& bs.len() == written + 1
    &&& bs[0] == bus0
    &&& bs[written as int] == cur
    &&& forall|k: int| 0 <= k < written ==> #[trigger] byte_written(bs[k], bs[k + 1], unit_addr(dst, 1, k as nat), out[k])
    &&& forall|k: int| 0 <= k < written ==> peek8(cur, #[trigger] unit_addr(dst, 1, k as nat)) == out[k]
}

/// A byte stored at offset `w` of a work RAM block reads back there, and
/// the other bytes of the block keep what they read before.
proof fn lemma_ram_store(before: Bus, after: Bus, dst: u32, n: nat, w: nat, b: u8)
    requires
        before.wf(),
        ram_block(dst, n),
        w < n,
        byte_stored(before, after, unit_addr(dst, 1, w), b),
    ensures
        peek8(after, unit_addr(dst, 1, w)) == b,
        !eeprom_port(before, unit_addr(dst, 1, w)),
        forall|k: nat| k < n && k != w ==> peek8(after, #[trigger] unit_addr(dst, 1, k)) == peek8(before, unit_addr(dst, 1, k)),
{
    lemma_ram_offset(dst, w as u32);
    assert((dst + w) % 0x1_0000_0000 == dst + w);
    lemma_u32_masks(unit_addr(dst, 1, w));
    assert forall|k: nat| k < n && k != w implies peek8(after, #[trigger] unit_addr(dst, 1, k)) == peek8(before, unit_addr(dst, 1, k)) by {
        lemma_ram_offset(dst, k as u32);
        assert((dst + k) % 0x1_0000_0000 == dst + k);
        lemma_u32_masks(unit_addr(dst, 1, k));
    }
}

/// A work RAM block's addresses are not the EEPROM port, and read what
/// was stored there.
proof fn lemma_ram_read(b: Bus, dst: u32, n: nat, k: nat)
    requires
        ram_block(dst, n),
        k < n,
    ensures
        !eeprom_port(b, unit_addr(dst, 1, k)),
        read8_value(b, unit_addr(dst, 1, k)) == peek8(b, unit_addr(dst, 1, k)),
        read8_next(b, b, unit_addr(dst, 1, k)),
{
    lemma_ram_offset(dst, k as u32);
    assert((dst + k) % 0x1_0000_0000 == dst + k);
}

/// A field of `src_w` bits: all ones below bit `src_w`.
pub open spec fn field_mask(src_w: u32) -> u32 {
    if src_w >= 32 { 0xFFFF_FFFF } else { ((1u32 << src_w) - 1) as u32 }
}

/// The field of source byte `byte` at `bit`, with the offset added when it
/// is nonzero, or always with the zero flag.
pub open spec fn unpack_field(byte: u32, bit: u32, mask: u32, off: u32, zero: bool) -> u32 {
    let v = (byte >> bit) & mask;
    if v != 0 || zero { ((v + off) % 0x1_0000_0000) as u32 } else { v }
}

/// The words BitUnPack writes from byte `i`, bit `bit` on of the `len`
/// source bytes at `src`, with `out` holding the `bits` low bits of a word
/// not yet written: each field goes `dst_w` bits above the one before, a
/// word is written once 32 bits are filled, and the last, partial word is
/// written too.
pub open spec fn unpacked_words(b: Bus, src: int, len: nat, src_w: u32, dst_w: u32, off: u32, zero: bool,
    i: nat, bit: u32, out: u32, bits: u32) -> Seq<u32>
    decreases len - i, 8 + 255 - bit,
{
    if i >= len {
        if bits > 0 { seq![out] } else { Seq::empty() }
    } else if bit >= 8 || src_w == 0 || src_w > 255 {
        unpacked_words(b, src, len, src_w, dst_w, off, zero, i + 1, 0, out, bits)
    } else {
        let v = unpack_field(peek8(b, (src + i) as u32) as u32, bit, field_mask(src_w), off, zero);
        let o2 = out | (v << bits);
        if bits + dst_w >= 32 {
            seq![o2] + unpacked_words(b, src, len, src_w, dst_w, off, zero, i, (bit + src_w) as u32, 0, 0)
        } else {
            unpacked_words(b, src, len, src_w, dst_w, off, zero, i, (bit + src_w) as u32, o2, (bits + dst_w) as u32)
        }
    }
}

/// The words of a BitUnPack call whose parameter block is at `info`: the
/// source length (halfword 0), source and destination widths (bytes 2 and
/// 3), and the offset with its zero flag in bit 31 (word 4).
pub open spec fn unpack_output(b: Bus, src: u32, info: u32) -> Seq<u32> {
    unpacked_words(b, src as int, load16(b, info) as nat, peek8(b, (info + 2) as u32) as u32,
        peek8(b, (info + 3) as u32) as u32, load32(b, (info + 4) as u32) & 0x7FFF_FFFF,
        load32(b, (info + 4) as u32) & 0x8000_0000 != 0, 0, 0, 0, 0)
}

/// The bus goes from `bs[0]` to `bs[words.len()]` storing the words in
/// turn at consecutive words from `dst`.
pub open spec fn word_trace(bs: Seq<Bus>, dst: u32, words: Seq<u32>) -> bool {
    &&& bs.len() == words.len() + 1
    &&& forall|k: int| 0 <= k < words.len() ==> #[trigger] wrote32(bs[k], bs[k + 1], unit_addr(dst, 4, k as nat), words[k])
}

/// BitUnPack with its parameter block and source in ROM: with a source
/// width of zero nothing is written; otherwise the unpacked words are
/// stored in turn from r1.
pub open spec fn bit_unpack_done(old: Cpu, new: Cpu) -> bool {
    rom_source(old.regs[2] as int, 8) && rom_source(old.regs[0] as int, load16(old.bus, old.regs[2]) as int) ==> {
        &&& peek8(old.bus, (old.regs[2] + 2) as u32) == 0 ==> new == old
        &&& peek8(old.bus, (old.regs[2] + 2) as u32) != 0 ==> exists|bs: Seq<Bus>|
            #[trigger] word_trace(bs, old.regs[1], unpack_output(old.bus, old.regs[0], old.regs[2]))
            && bs[0] == old.bus && bs[unpack_output(old.bus, old.regs[0], old.regs[2]).len() as int] == new.bus
    }
}

/// Successive words are four bytes apart, modulo 2^32.
proof fn lemma_word_next(dst: u32, k: nat)
    ensures
        unit_addr(dst, 4, k + 1) == ((unit_addr(dst, 4, k) + 4) % 0x1_0000_0000) as u32,
{
    vstd::arithmetic::div_mod::lemma_add_mod_noop(dst + 4 * k, 4, 0x1_0000_0000);
}

/// The expansion has the length asked for.
proof fn lemma_rl_len(b: Bus, at: int, n: nat)
    ensures
        rl_expand(b, at, n).len() == n,
    decreases n,
{
    if n > 0 {
        let flag = peek8(b, at as u32);
        if flag & 0x80 != 0 {
            let len = if (flag & 0x7F) as nat + 3 < n { (flag & 0x7F) as nat + 3 } else { n };
            lemma_rl_len(b, at + 2, (n - len) as nat);
        } else {
            let len = if (flag & 0x7F) as nat + 1 < n { (flag & 0x7F) as nat + 1 } else { n };
            lemma_rl_len(b, at + 1 + len, (n - len) as nat);
        }
    }
}

/// A ROM address reads the same on any bus with the same ROM, and is not
/// the EEPROM port.
proof fn lemma_rom_byte(b1: Bus, b2: Bus, a: int)
    requires
        0x0800_0000 <= a < 0x0D00_0000,
        b1.rom == b2.rom,
    ensures
        peek8(b1, a as u32) == peek8(b2, a as u32),
        !eeprom_port(b1, a as u32),
        read8_value(b1, a as u32) == peek8(b2, a as u32),
        read8_next(b1, b1, a as u32),
{
    let x = a as u32;
    assert(8 <= x >> 24u32 <= 0xC) by (bit_vector)
        requires
            0x0800_0000 <= x < 0x0D00_0000,
    ;
}

impl Cpu {
    /// A BIOS call `n`. Returns what the frontend must finish, if anything.
    pub fn hle_swi(&mut self, n: u32) -> (ev: StepEvent)
        requires
            old(self).wf(),
        ensures
            final(self).wf(),
            ev == swi_event(n),
            swi_done(*old(self), *final(self), n),
    {
        if n == 0x00 {
            // SoftReset: jump to ROM entry.
            self.regs[15] = ROM_START;
            self.cpsr = self.cpsr & !FLAG_T;
            StepEvent::Executed
        } else if n == 0x01 {
            // RegisterRamReset: ignored.
            StepEvent::Executed
        } else if n == 0x02 || n == 0x03 {
            // Halt, Stop.
            self.halted = true;
            StepEvent::Executed
        } else if n == 0x04 || n == 0x05 {
            self.intr_wait(n);
            StepEvent::Executed
        } else if n == 0x06 || n == 0x07 {
            // Div: r0/r1; DivArm: r1/r0. r0 = quotient, r1 = remainder, r3 = |quotient|.
            let (num, den) = if n == 0x06 { (self.regs[0], self.regs[1]) } else { (self.regs[1], self.regs[0]) };
            if den != 0 {
                let (q, r, qa) = divide(num, den);
                self.regs[0] = q;
                self.regs[1] = r;
                self.regs[3] = qa;
            }
            StepEvent::Executed
        } else if n == 0x08 {
            self.regs[0] = isqrt(self.regs[0]);
            StepEvent::Executed
        } else if n == 0x09 {
            StepEvent::ArcTan
        } else if n == 0x0A {
            StepEvent::ArcTan2
        } else if n == 0x0B {
            self.cpu_set();
            StepEvent::Executed
        } else if n == 0x0C {
            self.cpu_fast_set();
            StepEvent::Executed
        } else if n == 0x10 {
            self.bit_unpack();
            StepEvent::Executed
        } else if n == 0x11 || n == 0x12 {
            self.lz77_uncomp();
            StepEvent::Executed
        } else if n == 0x13 {
            self.huff_uncomp();
            StepEvent::Executed
        } else if n == 0x14 || n == 0x15 {
            self.rl_uncomp();
            StepEvent::Executed
        } else if n == 0x0E {
            StepEvent::BgAffineSet
        } else if n == 0x0F {
            StepEvent::ObjAffineSet
        } else {
            StepEvent::UnknownSwi { n }
        }
    }
}

/// A byte address in cartridge ROM (regions 0x08-0x0C), which no write
/// changes.
pub open spec fn in_rom(a: int) -> bool {
    0x0800_0000 <= a < 0x0D00_0000
}

/// The words a Huffman stream decodes to, from the stream word at `at` on
/// (the current word, shifted so its next bit is bit 31, in `stream`, with
/// `left` bits of it unread), at tree node `node` (at address `np`), with
/// `seen` bits of the word being filled in `block` and `remaining` bytes
/// still to come. Each bit takes the right (1) or left (0) child, whose
/// pair lies `offset * 2 + 2` bytes past the node's (even) address; a
/// child marked as a leaf (bit 6 right, bit 7 left) gives a `bits`-bit
/// value, stored above those before it, and decoding returns to the root
/// at `tree`; a full 32-bit word is written. `None` when a read is not
/// clear of the output (see [`huff_readable`]), `n` bytes from `dst`.
pub open spec fn huff_go(b: Bus, dst: u32, n: nat, tree: u32, bits: u32, at: int, stream: u32, left: nat, np: u32, node: u8,
    block: u32, seen: u32, remaining: nat) -> Option<Seq<u32>>
    decreases 0x1_0000_0000 - at, left,
{
    if remaining == 0 {
        Some(Seq::empty())
    } else if left == 0 {
        if at < 0 || at > 0xFFFF_FFFB {
            Some(Seq::empty())
        } else if !huff_word_readable(at, dst, n) {
            None
        } else {
            huff_go(b, dst, n, tree, bits, at + 4, load32(b, at as u32), 32, np, node, block, seen, remaining)
        }
    } else {
        let right = stream & 0x8000_0000 != 0;
        let child = (np & !1u32) as int + (node & 0x3F) as int * 2 + 2 + (if right { 1int } else { 0 });
        let leaf = if right { node & 0x40 != 0 } else { node & 0x80 != 0 };
        if !huff_readable(child, dst, n) {
            None
        } else if !leaf {
            huff_go(b, dst, n, tree, bits, at, stream << 1u32, (left - 1) as nat, child as u32, peek8(b, child as u32),
                block, seen, remaining)
        } else {
            let v = (peek8(b, child as u32) as u32) & (((1u32 << bits) - 1) as u32);
            let blk = block | (v << seen);
            if seen + bits >= 32 {
                match huff_go(b, dst, n, tree, bits, at, stream << 1u32, (left - 1) as nat, tree, peek8(b, tree), 0, 0,
                    if remaining > 4 { (remaining - 4) as nat } else { 0 }) {
                    Some(ws) => Some(seq![blk] + ws),
                    None => None,
                }
            } else {
                huff_go(b, dst, n, tree, bits, at, stream << 1u32, (left - 1) as nat, tree, peek8(b, tree), blk,
                    (seen + bits) as u32, remaining)
            }
        }
    }
}

/// The value width of a Huffman header: bits 0-3, where 0 stands for 8.
pub open spec fn huff_bits(header: u32) -> u32 {
    if header & 0xF == 0 { 8 } else { header & 0xF }
}

/// The words HuffUnComp writes for the stream at `r0` (rounded down to a
/// word): its header gives the value width and, in bits 8-31, the output
/// size; the tree follows, its size in byte 4 (tree bytes = size * 2 + 1,
/// root at byte 5), then the bit stream. Widths that do not divide 32 (or
/// of one bit) write nothing; the output is written a word at a time from
/// `r1`. `None` when a read is not clear of the output.
pub open spec fn huff_output(b: Bus, r0: u32, r1: u32) -> Option<Seq<u32>> {
    let src = (r0 & !3u32) as int;
    let header = load32(b, src as u32);
    let n = huff_out_bytes(header);
    if !(huff_word_readable(src, r1, n) && huff_readable(src + 4, r1, n) && huff_readable(src + 5, r1, n)) {
        None
    } else {
        let bits = huff_bits(header);
        if bits == 1 || 32u32 % bits != 0 {
            Some(Seq::empty())
        } else {
            huff_go(b, r1, n, (src + 5) as u32, bits, src + 5 + peek8(b, (src + 4) as u32) as int * 2 + 1, 0, 0,
                (src + 5) as u32, peek8(b, (src + 5) as u32), 0, 0, (header >> 8u32) as nat)
        }
    }
}

/// HuffUnComp with all its reads clear of the output: the decoded words
/// stored in turn from r1.
pub open spec fn huff_done(old: Cpu, new: Cpu) -> bool {
    huff_output(old.bus, old.regs[0], old.regs[1]) is Some ==> exists|bs: Seq<Bus>|
        #[trigger] word_trace(bs, old.regs[1], huff_output(old.bus, old.regs[0], old.regs[1])->0)
        && bs[0] == old.bus && bs[huff_output(old.bus, old.regs[0], old.regs[1])->0.len() as int] == new.bus
}

/// The bytes HuffUnComp writes for a header: its size rounded up to words.
pub open spec fn huff_out_bytes(header: u32) -> nat {
    (((header >> 8u32) as nat + 3) / 4 * 4) as nat
}

/// A byte Huffman decoding may read while it writes `n` bytes from `dst`:
/// in ROM, or in RAM apart from a word-aligned RAM destination, so that no
/// store of the output changes it.
pub open spec fn huff_readable(a: int, dst: u32, n: nat) -> bool {
    ||| in_rom(a)
    ||| 0 <= a < 0x1_0000_0000 && ram_block(a as u32, 1) && dst & 3 == 0 && ram_block(dst, n)
        && blocks_apart(a as u32, 1, dst, n)
}

/// The four bytes of the aligned word a read at `at` loads are readable.
pub open spec fn huff_word_readable(at: int, dst: u32, n: nat) -> bool {
    &&& 0 <= at < 0x1_0000_0000
    &&& forall|k: int| 0 <= k < 4 ==> #[trigger] huff_readable(((at as u32) & !3u32) + k, dst, n)
}

/// Every readable byte reads on `cur` as it did on `bus0`.
pub open spec fn huff_intact(cur: Bus, bus0: Bus, dst: u32, n: nat) -> bool {
    &&& cur.rom == bus0.rom
    &&& forall|a: int| #[trigger] huff_readable(a, dst, n) ==> peek8(cur, a as u32) == peek8(bus0, a as u32)
}

/// A readable byte reads as it did at the start, and reading it changes
/// nothing.
proof fn lemma_huff_read(cur: Bus, bus0: Bus, a: int, dst: u32, n: nat)
    requires
        huff_readable(a, dst, n),
        huff_intact(cur, bus0, dst, n),
    ensures
        0 <= a < 0x0D00_0000,
        !eeprom_port(cur, a as u32),
        read8_value(cur, a as u32) == peek8(bus0, a as u32),
        read8_next(cur, cur, a as u32),
{
    if in_rom(a) {
        lemma_rom_byte(cur, bus0, a);
    } else {
        lemma_ram_read(cur, a as u32, 1, 0);
        assert(unit_addr(a as u32, 1, 0) == a as u32);
        let x = a as u32;
        assert(x >> 24u32 <= 6 ==> x < 0x0700_0000) by (bit_vector);
    }
}

/// A word read at `at` from readable bytes loads what it did at the start.
proof fn lemma_huff_word(cur: Bus, bus0: Bus, at: int, dst: u32, n: nat)
    requires
        huff_word_readable(at, dst, n),
        huff_intact(cur, bus0, dst, n),
    ensures
        !eeprom_port(cur, at as u32),
        load32(cur, at as u32) == load32(bus0, at as u32),
{
    let x = at as u32;
    assert(x & !3u32 <= x && (x & !3u32) >> 24u32 == x >> 24u32 && (x & !3u32) + 3 < 0x1_0000_0000
        && ((x & !3u32) < 0x0D00_0000 ==> x >> 24u32 < 0xD)) by (bit_vector);
    assert(huff_readable((x & !3u32) + 0, dst, n));
    assert(huff_readable((x & !3u32) + 1, dst, n));
    assert(huff_readable((x & !3u32) + 2, dst, n));
    assert(huff_readable((x & !3u32) + 3, dst, n));
    lemma_huff_read(cur, bus0, (x & !3u32) as int, dst, n);
    lemma_huff_read(cur, bus0, (x & !3u32) + 1, dst, n);
    lemma_huff_read(cur, bus0, (x & !3u32) + 2, dst, n);
    lemma_huff_read(cur, bus0, (x & !3u32) + 3, dst, n);
    assert(!cur.on_sram_bus(x) && !bus0.on_sram_bus(x));
    assert(!eeprom_port(cur, x));
}

/// A byte stored inside the output leaves every readable byte as it was.
proof fn lemma_huff_byte_kept(before: Bus, after: Bus, j: nat, v: u8, a: int, dst: u32, n: nat)
    requires
        ram_block(dst, n),
        j < n,
        byte_stored(before, after, unit_addr(dst, 1, j), v),
        huff_readable(a, dst, n),
        ram_sized(before),
    ensures
        peek8(after, a as u32) == peek8(before, a as u32),
        after.rom == before.rom,
        ram_sized(after),
{
    lemma_ram_offset(dst, j as u32);
    assert((dst + j) % 0x1_0000_0000 == dst + j);
    lemma_u32_masks(unit_addr(dst, 1, j));
    assert(after.rom == before.rom);
    if !in_rom(a) {
        let x = a as u32;
        assert(source_intact(before, before, x, 1));
        lemma_source_kept(before, after, before, x, 1, dst, n, j, v);
        assert(peek8(after, unit_addr(x, 1, 0)) == peek8(before, unit_addr(x, 1, 0)));
        assert(unit_addr(x, 1, 0) == x);
    } else {
        lemma_rom_byte(after, before, a);
    }
}

/// Storing output word `w` keeps every readable byte intact.
proof fn lemma_huff_store(before: Bus, after: Bus, bus0: Bus, w: nat, val: u32, dst: u32, n: nat)
    requires
        huff_intact(before, bus0, dst, n),
        ram_sized(before),
        wrote32_plain(before, after, unit_addr(dst, 4, w), val),
        4 * w + 4 <= n,
        after.rom == before.rom,
    ensures
        huff_intact(after, bus0, dst, n),
{
    if dst & 3 == 0 && ram_block(dst, n) {
        reveal(wrote32_plain);
        let d = unit_addr(dst, 4, w);
        let q = (4 * w) as u32;
        lemma_ram_offset(dst, q);
        lemma_ram_offset(dst, (4 * w + 3) as u32);
        assert((dst + 4 * w) % 0x1_0000_0000 == dst + 4 * w);
        assert(q % 4 == 0);
        assert(d & !3u32 == d) by (bit_vector)
            requires d == dst + q, dst & 3 == 0, q % 4 == 0, dst + q < 0x1_0000_0000;
        assert(!before.on_sram_bus(d));
        let (m1, m2, m3) = choose|m1: Bus, m2: Bus, m3: Bus|
            #![trigger byte_stored(before, m1, d & !3u32, byte_of(val, 0)), byte_stored(m2, m3, ((d & !3u32) + 2) as u32, byte_of(val, 2))]
            byte_stored(before, m1, d & !3u32, byte_of(val, 0))
            && byte_stored(m1, m2, ((d & !3u32) + 1) as u32, byte_of(val, 1))
            && byte_stored(m2, m3, ((d & !3u32) + 2) as u32, byte_of(val, 2))
            && byte_stored(m3, after, ((d & !3u32) + 3) as u32, byte_of(val, 3));
        assert(unit_addr(dst, 1, 4 * w) == d);
        assert(unit_addr(dst, 1, 4 * w + 1) == ((d & !3u32) + 1) as u32);
        assert(unit_addr(dst, 1, 4 * w + 2) == ((d & !3u32) + 2) as u32);
        assert(unit_addr(dst, 1, 4 * w + 3) == ((d & !3u32) + 3) as u32);
        assert forall|a: int| #[trigger] huff_readable(a, dst, n) implies peek8(after, a as u32) == peek8(bus0, a as u32) by {
            lemma_huff_byte_kept(before, m1, 4 * w, byte_of(val, 0), a, dst, n);
            lemma_huff_byte_kept(m1, m2, 4 * w + 1, byte_of(val, 1), a, dst, n);
            lemma_huff_byte_kept(m2, m3, 4 * w + 2, byte_of(val, 2), a, dst, n);
            lemma_huff_byte_kept(m3, after, 4 * w + 3, byte_of(val, 3), a, dst, n);
        }
    } else {
        assert forall|a: int| #[trigger] huff_readable(a, dst, n) implies peek8(after, a as u32) == peek8(bus0, a as u32) by {
            lemma_rom_byte(after, before, a);
        }
    }
}



/// Decoding at the end of a stream word does not depend on the word.
proof fn lemma_huff_word_end(b: Bus, dst: u32, n: nat, tree: u32, bits: u32, at: int, s1: u32, s2: u32, np: u32,
    node: u8, block: u32, seen: u32, remaining: nat)
    ensures
        huff_go(b, dst, n, tree, bits, at, s1, 0, np, node, block, seen, remaining)
            == huff_go(b, dst, n, tree, bits, at, s2, 0, np, node, block, seen, remaining),
{
}

impl Bus {
    /// Set the BIOS copy of the interrupt flags.
    fn set_bios_if(&mut self, v: u16)
        requires
            old(self).wf(),
        ensures
            final(self).wf(),
            *final(self) == (Bus { iwram: final(self).iwram, ..*old(self) }),
            final(self).iwram@ == iwram_with_if(old(self).iwram@, v),
    {
        self.iwram.set(0x7FF8, (v & 0xFF) as u8);
        self.iwram.set(0x7FF9, (v >> 8) as u8);
    }
}

impl Cpu {
    /// Check an IntrWait for `mask` (see [`intr_checked`]).
    pub fn intr_wait_check(&mut self, mask: u16, resume: u32)
        requires
            old(self).wf(),
        ensures
            final(self).wf(),
            intr_checked(*old(self), *final(self), mask, resume),
    {
        let f = crate::bits::read_le16(&self.bus.iwram, 0x7FF8);
        if f & mask != 0 {
            self.bus.set_bios_if(f & !mask);
            self.wait_flags = 0;
        } else {
            self.halted = true;
            self.wait_flags = mask;
            self.wait_pc = resume;
        }
    }

    /// IntrWait (4) / VBlankIntrWait (5), see [`intr_wait_done`].
    #[verifier::spinoff_prover]
    #[verifier::rlimit(40)]
    fn intr_wait(&mut self, n: u32)
        requires
            old(self).wf(),
            n == 0x04 || n == 0x05,
        ensures
            final(self).wf(),
            intr_wait_done(*old(self), *final(self), n),
    {
        let mask: u16 = if n == 0x05 { 1 } else { (self.regs[1] & 0x3FFF) as u16 };
        let discard = n == 0x05 || self.regs[0] == 1;
        let step: u32 = if self.thumb() { 2 } else { 4 };
        let resume = self.regs[15].wrapping_add(step);
        self.bus.ime = true;
        if discard {
            let f = crate::bits::read_le16(&self.bus.iwram, 0x7FF8);
            self.bus.set_bios_if(f & !mask);
        }
        let ghost mid = *self;
        self.intr_wait_check(mask, resume);
        proof {
            assert(mask == wait_mask(*old(self), n));
            assert(discard == (n == 0x05 || old(self).regs[0] == 1));
            assert(resume == wait_resume(*old(self)));
            assert(mid.bus == (Bus { iwram: mid.bus.iwram, ime: true, ..old(self).bus }));
            assert(mid.bus.iwram@ == (if discard { iwram_with_if(old(self).bus.iwram@, bios_if(old(self).bus) & !mask) }
                else { old(self).bus.iwram@ }));
            assert(mid == (Cpu { bus: mid.bus, ..*old(self) }));
            assert(intr_checked(mid, *self, mask, resume));
        }
    }
}

/// What the memory BIOS calls may change: the bus only.
pub open spec fn bus_only(old: Cpu, new: Cpu) -> bool {
    new == (Cpu { bus: new.bus, ..old })
}

/// Unit `k` of a block of `size`-byte units at `base`, modulo 2^32.
pub open spec fn unit_addr(base: u32, size: nat, k: nat) -> u32 {
    ((base + size * k) % 0x1_0000_0000) as u32
}

/// The reads of a copy of `count` units of `size` bytes from `src` stay
/// away from the EEPROM port: the first unit always (it is read even for
/// a fill), every unit unless filling.
pub open spec fn copy_source_clear(b: Bus, src: u32, size: nat, count: nat, fill: bool) -> bool {
    &&& !eeprom_port(b, src)
    &&& !fill ==> forall|k: nat| k < count ==> !eeprom_port(b, #[trigger] unit_addr(src, size, k))
}

/// The fill word of a copy: the word at `src`, when filling.
pub open spec fn fill_word32(b: Bus, src: u32, fill: bool) -> Option<u32> {
    if fill { Some(load32(b, src)) } else { None }
}

/// The fill halfword of a copy: the halfword at `src`, when filling.
pub open spec fn fill_word16(b: Bus, src: u32, fill: bool) -> Option<u16> {
    if fill { Some(load16(b, src)) } else { None }
}

/// Word `k` of a copy from `src` read on bus `b`, or the fill word.
pub open spec fn copied32(b: Bus, src: u32, k: nat, fill: Option<u32>) -> u32 {
    match fill {
        Some(v) => v,
        None => load32(b, unit_addr(src, 4, k)),
    }
}

/// Halfword `k` of a copy from `src` read on bus `b`, or the fill halfword.
pub open spec fn copied16(b: Bus, src: u32, k: nat, fill: Option<u16>) -> u16 {
    match fill {
        Some(v) => v,
        None => load16(b, unit_addr(src, 2, k)),
    }
}

/// A word copy or fill of `count` words from `src` to `dst` takes the bus
/// from `bs[0]` to `bs[count]`: write `k` stores, at word `k` from `dst`,
/// the fill word, or the word then at word `k` from `src`.
pub open spec fn copy32_trace(bs: Seq<Bus>, count: nat, src: u32, dst: u32, fill: Option<u32>) -> bool {
    &&& bs.len() == count + 1
    &&& forall|k: int| 0 <= k < count ==> #[trigger] wrote32(bs[k], bs[k + 1], unit_addr(dst, 4, k as nat),
        copied32(bs[k], src, k as nat, fill))
}

/// As [`copy32_trace`], with halfwords.
pub open spec fn copy16_trace(bs: Seq<Bus>, count: nat, src: u32, dst: u32, fill: Option<u16>) -> bool {
    &&& bs.len() == count + 1
    &&& forall|k: int| 0 <= k < count ==> #[trigger] wrote16(bs[k], bs[k + 1], unit_addr(dst, 2, k as nat),
        copied16(bs[k], src, k as nat, fill))
}

/// The bus after CpuSet (away from the EEPROM port): the copy or fill of
/// r2's low 21 bits worth of halfwords, or of words with bit 26, from r0 to
/// r1; with bit 24 the first unit at r0 fills the destination.
pub open spec fn cpu_set_done(old: Cpu, new: Cpu) -> bool {
    let fill = fills(old.regs[2]);
    if old.regs[2] & 0x0400_0000 != 0 {
        copy_source_clear(old.bus, old.regs[0], 4, set_count(old.regs[2]), fill) ==> exists|bs: Seq<Bus>|
            #[trigger] copy32_trace(bs, set_count(old.regs[2]), old.regs[0], old.regs[1], fill_word32(old.bus, old.regs[0], fills(old.regs[2])))
            && bs[0] == old.bus && bs[set_count(old.regs[2]) as int] == new.bus
    } else {
        copy_source_clear(old.bus, old.regs[0], 2, set_count(old.regs[2]), fill) ==> exists|bs: Seq<Bus>|
            #[trigger] copy16_trace(bs, set_count(old.regs[2]), old.regs[0], old.regs[1], fill_word16(old.bus, old.regs[0], fills(old.regs[2])))
            && bs[0] == old.bus && bs[set_count(old.regs[2]) as int] == new.bus
    }
}

/// Whether CpuSet and CpuFastSet fill (bit 24 of r2) rather than copy.
pub open spec fn fills(cnt: u32) -> bool {
    cnt & 0x0100_0000 != 0
}

/// The number of units CpuSet moves: r2's low 21 bits.
pub open spec fn set_count(cnt: u32) -> nat {
    (cnt & 0x1F_FFFF) as nat
}

/// The number of words CpuFastSet moves: r2's low 21 bits rounded up to a
/// multiple of 8.
pub open spec fn fast_set_count(cnt: u32) -> nat {
    (((cnt & 0x1F_FFFF) + 7) / 8 * 8) as nat
}

/// The bus after CpuFastSet (away from the EEPROM port): as CpuSet with
/// words, the count rounded up to a multiple of 8.
pub open spec fn cpu_fast_set_done(old: Cpu, new: Cpu) -> bool {
    let fill = fills(old.regs[2]);
    copy_source_clear(old.bus, old.regs[0], 4, fast_set_count(old.regs[2]), fill) ==> exists|bs: Seq<Bus>|
        #[trigger] copy32_trace(bs, fast_set_count(old.regs[2]), old.regs[0], old.regs[1], fill_word32(old.bus, old.regs[0], fills(old.regs[2])))
        && bs[0] == old.bus && bs[fast_set_count(old.regs[2]) as int] == new.bus
}

impl Cpu {
    /// CpuSet: copy (or, with bit 24 of r2, fill with the first unit) r2's
    /// low 21 bits worth of halfwords, or words with bit 26, from r0 to r1.
    pub fn cpu_set(&mut self)
        requires
            old(self).wf(),
        ensures
            final(self).wf(),
            bus_only(*old(self), *final(self)),
            cpu_set_done(*old(self), *final(self)),
    {
        let src = self.regs[0];
        let dst = self.regs[1];
        let cnt = self.regs[2];
        let count = cnt & 0x1F_FFFF;
        let fill = cnt & 0x0100_0000 != 0;
        proof { lemma_u32_masks(cnt); }
        let ghost c0 = *self;
        if cnt & 0x0400_0000 != 0 {
            let trace = self.copy_words(src, dst, count, fill);
            proof {
                if copy_source_clear(c0.bus, src, 4, set_count(cnt), fill) {
                    assert(copy32_trace(trace@, set_count(cnt), src, dst, fill_word32(c0.bus, src, fills(cnt))));
                }
            }
        } else {
            let trace = self.copy_halfwords(src, dst, count, fill);
            proof {
                if copy_source_clear(c0.bus, src, 2, set_count(cnt), fill) {
                    assert(copy16_trace(trace@, set_count(cnt), src, dst, fill_word16(c0.bus, src, fills(cnt))));
                }
            }
        }
    }

    /// Copy `count` words from `src` to `dst`, or fill with the word at `src`.
    #[verifier::spinoff_prover]
    #[verifier::rlimit(100)]
    fn copy_words(&mut self, src: u32, dst: u32, count: u32, fill: bool) -> (trace: Ghost<Seq<Bus>>)
        requires
            old(self).wf(),
            count <= 0x20_0000,
        ensures
            final(self).wf(),
            bus_only(*old(self), *final(self)),
            copy_source_clear(old(self).bus, src, 4, count as nat, fill) ==> {
                &&& copy32_trace(trace@, count as nat, src, dst, fill_word32(old(self).bus, src, fill))
                &&& trace@[0] == old(self).bus
                &&& trace@[count as int] == final(self).bus
            },
    {
        let ghost clear = copy_source_clear(self.bus, src, 4, count as nat, fill);
        let v0 = self.bus.read32(src);
        let ghost fillv = fill_word32(old(self).bus, src, fill);
        let ghost mut bs: Seq<Bus> = seq![self.bus];
        let mut i: u32 = 0;
        while i < count
            invariant
                i <= count <= 0x20_0000,
                self.wf(),
                bus_only(*old(self), *self),
                bus_frame(old(self).bus, self.bus),
                clear == copy_source_clear(old(self).bus, src, 4, count as nat, fill),
                fillv == fill_word32(old(self).bus, src, fill),
                clear ==> {
                    &&& v0 == load32(old(self).bus, src)
                    &&& bs.len() == i + 1
                    &&& bs[0] == old(self).bus
                    &&& bs[i as int] == self.bus
                    &&& copy32_trace(bs, i as nat, src, dst, fillv)
                },
            decreases count - i,
        {
            proof {
                if clear && !fill {
                    assert(!eeprom_port(old(self).bus, unit_addr(src, 4, i as nat)));
                }
            }
            let ghost b0 = self.bus;
            let v = if fill { v0 } else { self.bus.read32(src.wrapping_add(i * 4)) };
            self.bus.write32(dst.wrapping_add(i * 4), v);
            proof {
                if clear {
                    let prev = bs;
                    bs = bs.push(self.bus);
                    assert forall|k: int| 0 <= k < i + 1 implies #[trigger] wrote32(bs[k], bs[k + 1], unit_addr(dst, 4, k as nat),
                        copied32(bs[k], src, k as nat, fillv)) by {
                        if k < i {
                            assert(wrote32(prev[k], prev[k + 1], unit_addr(dst, 4, k as nat),
                                copied32(prev[k], src, k as nat, fillv)));
                        }
                    }
                }
            }
            i = i + 1;
        }
        Ghost(bs)
    }

    /// Copy `count` halfwords from `src` to `dst`, or fill with the halfword
    /// at `src`.
    #[verifier::spinoff_prover]
    #[verifier::rlimit(100)]
    fn copy_halfwords(&mut self, src: u32, dst: u32, count: u32, fill: bool) -> (trace: Ghost<Seq<Bus>>)
        requires
            old(self).wf(),
            count <= 0x20_0000,
        ensures
            final(self).wf(),
            bus_only(*old(self), *final(self)),
            copy_source_clear(old(self).bus, src, 2, count as nat, fill) ==> {
                &&& copy16_trace(trace@, count as nat, src, dst, fill_word16(old(self).bus, src, fill))
                &&& trace@[0] == old(self).bus
                &&& trace@[count as int] == final(self).bus
            },
    {
        let ghost clear = copy_source_clear(self.bus, src, 2, count as nat, fill);
        let v0 = self.bus.read16(src);
        let ghost fillv = fill_word16(old(self).bus, src, fill);
        let ghost mut bs: Seq<Bus> = seq![self.bus];
        let mut i: u32 = 0;
        while i < count
            invariant
                i <= count <= 0x20_0000,
                self.wf(),
                bus_only(*old(self), *self),
                bus_frame(old(self).bus, self.bus),
                clear == copy_source_clear(old(self).bus, src, 2, count as nat, fill),
                fillv == fill_word16(old(self).bus, src, fill),
                clear ==> {
                    &&& v0 == load16(old(self).bus, src)
                    &&& bs.len() == i + 1
                    &&& bs[0] == old(self).bus
                    &&& bs[i as int] == self.bus
                    &&& copy16_trace(bs, i as nat, src, dst, fillv)
                },
            decreases count - i,
        {
            proof {
                if clear && !fill {
                    assert(!eeprom_port(old(self).bus, unit_addr(src, 2, i as nat)));
                }
            }
            let v = if fill { v0 } else { self.bus.read16(src.wrapping_add(i * 2)) };
            self.bus.write16(dst.wrapping_add(i * 2), v);
            proof {
                if clear {
                    let prev = bs;
                    bs = bs.push(self.bus);
                    assert forall|k: int| 0 <= k < i + 1 implies #[trigger] wrote16(bs[k], bs[k + 1], unit_addr(dst, 2, k as nat),
                        copied16(bs[k], src, k as nat, fillv)) by {
                        if k < i {
                            assert(wrote16(prev[k], prev[k + 1], unit_addr(dst, 2, k as nat),
                                copied16(prev[k], src, k as nat, fillv)));
                        }
                    }
                }
            }
            i = i + 1;
        }
        Ghost(bs)
    }

    /// CpuFastSet: as CpuSet with words, the count rounded up to a multiple of 8.
    pub fn cpu_fast_set(&mut self)
        requires
            old(self).wf(),
        ensures
            final(self).wf(),
            bus_only(*old(self), *final(self)),
            cpu_fast_set_done(*old(self), *final(self)),
    {
        let src = self.regs[0];
        let dst = self.regs[1];
        let cnt = self.regs[2];
        let c21 = cnt & 0x1F_FFFF;
        proof { lemma_u32_masks(cnt); }
        let count = (c21 + 7) & !7u32;
        proof { lemma_swi_bits(c21, 0, 0, 0); }
        assert(count == fast_set_count(cnt));
        let fill = cnt & 0x0100_0000 != 0;
        let ghost c0 = *self;
        let trace = self.copy_words(src, dst, count, fill);
        proof {
            if copy_source_clear(c0.bus, src, 4, fast_set_count(cnt), fill) {
                assert(copy32_trace(trace@, fast_set_count(cnt), src, dst, fill_word32(c0.bus, src, fills(cnt))));
            }
        }
    }

    /// BitUnPack: expand sub-byte-width data (used for 1bpp fonts). r2
    /// points at the source length, source and destination widths and a
    /// value offset (bit 31: add it to zero values too). A source width of
    /// zero would never advance through a byte; such a call unpacks nothing.
    #[verifier::spinoff_prover]
    #[verifier::rlimit(80)]
    pub fn bit_unpack(&mut self)
        requires
            old(self).wf(),
        ensures
            final(self).wf(),
            bus_only(*old(self), *final(self)),
            bit_unpack_done(*old(self), *final(self)),
    {
        let src = self.regs[0];
        let dst = self.regs[1];
        let info = self.regs[2];
        let ghost bus0 = old(self).bus;
        let ghost info_clear = rom_source(info as int, 8);
        proof {
            if info_clear {
                lemma_rom_byte(bus0, bus0, info as int);
                lemma_rom_byte(bus0, bus0, info + 2);
                lemma_rom_byte(bus0, bus0, info + 3);
                lemma_rom_byte(bus0, bus0, info + 4);
            }
        }
        let len = self.bus.read16(info) as u32;
        let src_w = self.bus.read8(info.wrapping_add(2)) as u32;
        let dst_w = self.bus.read8(info.wrapping_add(3)) as u32;
        let off_flags = self.bus.read32(info.wrapping_add(4));
        let data_off = off_flags & 0x7FFF_FFFF;
        let zero_flag = off_flags & 0x8000_0000 != 0;
        let ghost clear = info_clear && rom_source(src as int, load16(bus0, info) as int);
        proof {
            if info_clear {
                assert(*self == *old(self));
            }
        }
        if src_w == 0 {
            return;
        }
        let mask: u32 = if src_w >= 32 {
            0xFFFF_FFFF
        } else {
            proof { lemma_swi_bits(0, src_w, 0, 0); }
            (1u32 << src_w) - 1
        };
        let ghost total = unpack_output(bus0, src, info);
        let ghost mut words: Seq<u32> = Seq::empty();
        let ghost mut bs: Seq<Bus> = seq![self.bus];
        let mut out: u32 = 0;
        let mut out_bits: u32 = 0;
        let mut d = dst;
        let mut i: u32 = 0;
        while i < len
            invariant
                i <= len,
                1 <= src_w <= 255,
                dst_w <= 255,
                out_bits < 32,
                mask == field_mask(src_w),
                self.wf(),
                bus_only(*old(self), *self),
                bus_frame(bus0, self.bus),
                bus0 == old(self).bus,
                clear ==> {
                    &&& rom_source(src as int, len as int)
                    &&& len == load16(bus0, info)
                    &&& src_w == peek8(bus0, (info + 2) as u32) as u32
                    &&& dst_w == peek8(bus0, (info + 3) as u32) as u32
                    &&& data_off == load32(bus0, (info + 4) as u32) & 0x7FFF_FFFF
                    &&& zero_flag == (load32(bus0, (info + 4) as u32) & 0x8000_0000 != 0)
                    &&& total == words + unpacked_words(bus0, src as int, len as nat, src_w, dst_w, data_off, zero_flag,
                        i as nat, 0, out, out_bits)
                    &&& word_trace(bs, dst, words)
                    &&& bs[0] == bus0
                    &&& bs[words.len() as int] == self.bus
                    &&& d == unit_addr(dst, 4, words.len())
                },
            decreases len - i,
        {
            proof {
                if clear {
                    lemma_rom_byte(self.bus, bus0, src + i);
                }
            }
            let b = self.bus.read8(src.wrapping_add(i)) as u32;
            let mut bit: u32 = 0;
            while bit < 8
                invariant
                    i < len,
                    1 <= src_w <= 255,
                    dst_w <= 255,
                    out_bits < 32,
                    bit < 8 + 255,
                    mask == field_mask(src_w),
                    self.wf(),
                    bus_only(*old(self), *self),
                    bus_frame(bus0, self.bus),
                    bus0 == old(self).bus,
                    clear ==> {
                        &&& b == peek8(bus0, (src + i) as u32) as u32
                        &&& total == words + unpacked_words(bus0, src as int, len as nat, src_w, dst_w, data_off, zero_flag,
                            i as nat, bit, out, out_bits)
                        &&& word_trace(bs, dst, words)
                        &&& bs[0] == bus0
                        &&& bs[words.len() as int] == self.bus
                        &&& d == unit_addr(dst, 4, words.len())
                    },
                decreases 8 + 255 - bit,
            {
                let ghost rest = unpacked_words(bus0, src as int, len as nat, src_w, dst_w, data_off, zero_flag,
                    i as nat, bit, out, out_bits);
                let v = (b >> bit) & mask;
                let v = if v != 0 || zero_flag { v.wrapping_add(data_off) } else { v };
                out = out | (v << out_bits);
                out_bits = out_bits + dst_w;
                if out_bits >= 32 {
                    self.bus.write32(d, out);
                    proof {
                        if clear {
                            assert(rest == seq![out] + unpacked_words(bus0, src as int, len as nat, src_w, dst_w, data_off,
                                zero_flag, i as nat, (bit + src_w) as u32, 0, 0));
                            let (pw, pb) = (words, bs);
                            lemma_word_next(dst, words.len());
                            words = words.push(out);
                            bs = bs.push(self.bus);
                            assert forall|k: int| 0 <= k < words.len() implies #[trigger] wrote32(bs[k], bs[k + 1],
                                unit_addr(dst, 4, k as nat), words[k]) by {
                                if k < pw.len() {
                                    assert(wrote32(pb[k], pb[k + 1], unit_addr(dst, 4, k as nat), pw[k]));
                                }
                            }
                            assert(total == words + unpacked_words(bus0, src as int, len as nat, src_w, dst_w, data_off,
                                zero_flag, i as nat, (bit + src_w) as u32, 0, 0));
                        }
                    }
                    d = d.wrapping_add(4);
                    out = 0;
                    out_bits = 0;
                } else {
                    proof {
                        if clear {
                            assert(rest == unpacked_words(bus0, src as int, len as nat, src_w, dst_w, data_off,
                                zero_flag, i as nat, (bit + src_w) as u32, out, out_bits));
                        }
                    }
                }
                bit = bit + src_w;
            }
            proof {
                if clear {
                    assert(unpacked_words(bus0, src as int, len as nat, src_w, dst_w, data_off, zero_flag, i as nat, bit, out, out_bits)
                        == unpacked_words(bus0, src as int, len as nat, src_w, dst_w, data_off, zero_flag, (i + 1) as nat, 0, out, out_bits));
                }
            }
            i = i + 1;
        }
        if out_bits > 0 {
            self.bus.write32(d, out);
            proof {
                if clear {
                    let (pw, pb) = (words, bs);
                    words = words.push(out);
                    bs = bs.push(self.bus);
                    assert forall|k: int| 0 <= k < words.len() implies #[trigger] wrote32(bs[k], bs[k + 1],
                        unit_addr(dst, 4, k as nat), words[k]) by {
                        if k < pw.len() {
                            assert(wrote32(pb[k], pb[k + 1], unit_addr(dst, 4, k as nat), pw[k]));
                        }
                    }
                }
            }
        }
        proof {
            if clear {
                assert(total =~= words);
                assert(word_trace(bs, dst, total));
            }
        }
    }

    /// LZ77UnCompWram / LZ77UnCompVram: decompress the LZ77 stream at r0
    /// (header: size in bits 8-31) to r1. Each flag byte announces eight
    /// blocks, most significant bit first: a literal byte, or a back
    /// reference of 3-18 bytes at a distance of 1-4096.
    #[verifier::spinoff_prover]
    #[verifier::rlimit(80)]
    pub fn lz77_uncomp(&mut self)
        requires
            old(self).wf(),
        ensures
            final(self).wf(),
            bus_only(*old(self), *final(self)),
            lz77_done(*old(self), *final(self)),
    {
        let src0 = self.regs[0];
        let mut src = src0;
        let dst = self.regs[1];
        let header = self.bus.read32(src);
        let size = header >> 8;
        proof { lemma_u32_masks(header); }
        src = src.wrapping_add(4);
        let ghost bus0 = old(self).bus;
        let ghost clear = source_clear(src0, (4 + 3 * unpacked_size(bus0, src0)) as int, dst, unpacked_size(bus0, src0))
            && ram_block(dst, unpacked_size(bus0, src0))
            && lz_go(bus0, src0 + 4, 0, 0, Seq::empty(), unpacked_size(bus0, src0)) is Some;
        let ghost total = lz_go(bus0, src0 + 4, 0, 0, Seq::empty(), size as nat)->0;
        let ghost mut bs: Seq<Bus> = seq![self.bus];
        let ghost mut out: Seq<u8> = Seq::empty();
        let ghost mut consumed: int = 0;
        proof {
            if clear {
                lemma_source_byte(bus0, bus0, src0, (4 + 3 * unpacked_size(bus0, src0)) as int, dst, unpacked_size(bus0, src0), 0);
                assert(size == unpacked_size(bus0, src0));
            }
        }
        let mut written: u32 = 0;
        while written < size
            invariant
                written <= size,
                size < 0x100_0000,
                self.wf(),
                bus_only(*old(self), *self),
                bus_frame(bus0, self.bus),
                bus0 == old(self).bus,
                clear ==> lz_inv(bus0, self.bus, bs, out, src0, src, dst, size, written, consumed, total)
                    && consumed <= 3 * written
                    && lz_go(bus0, src0 + 4 + consumed, 0, 0, out, size as nat) == Some(total),
            decreases size - written,
        {
            proof {
                if clear {
                    lemma_source_byte(self.bus, bus0, src0, 4 + 3 * size, dst, size as nat, (4 + consumed) as nat);
                }
            }
            let flags = self.bus.read8(src);
            src = src.wrapping_add(1);
            let ghost before = written;
            proof {
                if clear {
                    consumed = consumed + 1;
                }
            }
            proof {
                if clear {
                    assert(lz_go(bus0, src0 + 4 + consumed, flags, 8, out, size as nat)
                        == lz_go(bus0, src0 + 4 + consumed - 1, 0, 0, out, size as nat));
                }
            }
            let mut k: u32 = 8;
            while k > 0
                invariant
                    k <= 8,
                    before <= written <= size,
                    k < 8 ==> before < written,
                    k == 8 ==> before == written,
                    before < size,
                    size < 0x100_0000,
                    self.wf(),
                    bus_only(*old(self), *self),
                    bus_frame(bus0, self.bus),
                    bus0 == old(self).bus,
                    clear ==> lz_inv(bus0, self.bus, bs, out, src0, src, dst, size, written, consumed, total)
                        && consumed <= 3 * written + 1
                        && (k < 8 ==> consumed <= 3 * written)
                        && lz_go(bus0, src0 + 4 + consumed, flags, k as nat, out, size as nat) == Some(total),
                ensures
                    before < written <= size,
                    self.wf(),
                    bus_only(*old(self), *self),
                    bus_frame(bus0, self.bus),
                    clear ==> lz_inv(bus0, self.bus, bs, out, src0, src, dst, size, written, consumed, total)
                        && consumed <= 3 * written
                        && lz_go(bus0, src0 + 4 + consumed, 0, 0, out, size as nat) == Some(total),
                decreases k,
            {
                k = k - 1;
                if written >= size {
                    proof {
                        if clear {
                            assert(lz_go(bus0, src0 + 4 + consumed, flags, (k + 1) as nat, out, size as nat) == Some(out));
                            assert(lz_go(bus0, src0 + 4 + consumed, 0, 0, out, size as nat) == Some(out));
                        }
                    }
                    break;
                }
                let ghost at = src0 + 4 + consumed;
                proof {
                    if clear {
                        assert(lz_go(bus0, at, flags, (k + 1) as nat, out, size as nat)
                            == lz_block(bus0, at, flags, (k + 1) as nat, out, size as nat));
                    }
                }
                if (flags >> (k as u8)) & 1 == 0 {
                    proof {
                        if clear {
                            lemma_source_byte(self.bus, bus0, src0, 4 + 3 * size, dst, size as nat, (4 + consumed) as nat);
                        }
                    }
                    let b = self.bus.read8(src);
                    src = src.wrapping_add(1);
                    let ghost b_before = self.bus;
                    self.bus.write8_lenient(dst.wrapping_add(written), b);
                    proof {
                        if clear {
                            lemma_ram_store(b_before, self.bus, dst, size as nat, written as nat, b);
                            lemma_source_kept(b_before, self.bus, bus0, src0, 4 + 3 * size, dst, size as nat, written as nat, b);
                            let prev_bs = bs;
                            let prev_out = out;
                            bs = bs.push(self.bus);
                            out = out.push(b);
                            consumed = consumed + 1;
                            assert forall|t: int| 0 <= t < written + 1 implies #[trigger] byte_written(bs[t], bs[t + 1],
                                unit_addr(dst, 1, t as nat), out[t]) by {
                                if t < written {
                                    assert(byte_written(prev_bs[t], prev_bs[t + 1], unit_addr(dst, 1, t as nat), prev_out[t]));
                                }
                            }
                            assert forall|t: int| 0 <= t < written + 1 implies peek8(self.bus, #[trigger] unit_addr(dst, 1, t as nat)) == out[t] by {
                                if t < written {
                                    assert(peek8(b_before, unit_addr(dst, 1, t as nat)) == prev_out[t]);
                                }
                            }
                        }
                    }
                    written = written + 1;
                } else {
                    proof {
                        if clear {
                            lemma_source_byte(self.bus, bus0, src0, 4 + 3 * size, dst, size as nat, (4 + consumed) as nat);
                            lemma_source_byte(self.bus, bus0, src0, 4 + 3 * size, dst, size as nat, (5 + consumed) as nat);
                        }
                    }
                    let b0 = self.bus.read8(src) as u32;
                    let b1 = self.bus.read8(src.wrapping_add(1)) as u32;
                    proof { lemma_swi_bits(0, 0, b0, b1); }
                    src = src.wrapping_add(2);
                    let len = (b0 >> 4) + 3;
                    let disp = ((b0 & 0xF) << 8 | b1) + 1;
                    let ghost m: nat = if len < size - written { len as nat } else { (size - written) as nat };
                    let ghost out0 = out;
                    proof {
                        if clear {
                            assert(disp as nat <= out.len());
                            assert(lz_go(bus0, at + 2, flags, k as nat, lz_copy(out, disp as nat, m), size as nat) == Some(total));
                            lemma_lz_copy_len(out, disp as nat, m as nat);
                            consumed = consumed + 2;
                        }
                    }
                    let mut j: u32 = 0;
                    let ghost w0 = written;
                    while j < len
                        invariant
                            w0 < size,
                            w0 <= written <= size,
                            j <= len,
                            len >= 3,
                            disp >= 1,
                            written == w0 + j,
                            j <= m,
                            m == (if len < size - w0 { len as nat } else { (size - w0) as nat }),
                            size < 0x100_0000,
                            self.wf(),
                            bus_only(*old(self), *self),
                            bus_frame(bus0, self.bus),
                            bus0 == old(self).bus,
                            clear ==> lz_inv(bus0, self.bus, bs, out, src0, src, dst, size, written, consumed, total)
                                && disp <= w0
                                && lz_copy(out, disp as nat, (m - j) as nat) == lz_copy(out0, disp as nat, m as nat),
                        ensures
                            w0 < written <= size,
                            written == w0 + m,
                            self.wf(),
                            bus_only(*old(self), *self),
                            bus_frame(bus0, self.bus),
                            clear ==> lz_inv(bus0, self.bus, bs, out, src0, src, dst, size, written, consumed, total)
                                && out == lz_copy(out0, disp as nat, m as nat),
                        decreases len - j,
                    {
                        if written >= size {
                            break;
                        }
                        proof {
                            if clear {
                                lemma_ram_read(self.bus, dst, size as nat, (written - disp) as nat);
                                lemma_ram_offset(dst, written);
                                lemma_ram_offset(dst, (written - disp) as u32);
                                assert(unit_addr(dst, 1, (written - disp) as nat) == dst.wrapping_add(written).wrapping_sub(disp));
                                let kk: int = written - disp;
                                assert(peek8(self.bus, unit_addr(dst, 1, kk as nat)) == out[kk]);
                            }
                        }
                        let b = self.bus.read8(dst.wrapping_add(written).wrapping_sub(disp));
                        let ghost b_before = self.bus;
                        self.bus.write8_lenient(dst.wrapping_add(written), b);
                        proof {
                            if clear {
                                lemma_ram_store(b_before, self.bus, dst, size as nat, written as nat, b);
                            lemma_source_kept(b_before, self.bus, bus0, src0, 4 + 3 * size, dst, size as nat, written as nat, b);
                                lemma_lz_copy_step(out, disp as nat, (m - j) as nat);
                                let prev_bs = bs;
                                let prev_out = out;
                                bs = bs.push(self.bus);
                                out = out.push(b);
                                assert forall|t: int| 0 <= t < written + 1 implies #[trigger] byte_written(bs[t], bs[t + 1],
                                    unit_addr(dst, 1, t as nat), out[t]) by {
                                    if t < written {
                                        assert(byte_written(prev_bs[t], prev_bs[t + 1], unit_addr(dst, 1, t as nat), prev_out[t]));
                                    }
                                }
                                assert forall|t: int| 0 <= t < written + 1 implies peek8(self.bus, #[trigger] unit_addr(dst, 1, t as nat)) == out[t] by {
                                    if t < written {
                                        assert(peek8(b_before, unit_addr(dst, 1, t as nat)) == prev_out[t]);
                                    }
                                }
                            }
                        }
                        written = written + 1;
                        j = j + 1;
                    }
                }
            }
        }
        proof {
            if clear {
                assert(out == total);
                assert(byte_trace(bs, dst, total));
            }
        }
    }

    /// HuffUnComp: decode the Huffman stream at r0 (rounded down to a word)
    /// to r1, 32-bit words at a time. A stream running to the very end of
    /// the address space stops there.
    #[verifier::spinoff_prover]
    #[verifier::rlimit(80)]
    pub fn huff_uncomp(&mut self)
        requires
            old(self).wf(),
        ensures
            final(self).wf(),
            bus_only(*old(self), *final(self)),
            huff_done(*old(self), *final(self)),
    {
        let ghost bus0 = old(self).bus;
        let src = self.regs[0] & !3u32;
        let dst = self.regs[1];
        let ghost total = huff_output(bus0, self.regs[0], dst);
        let ghost clear = total is Some;
        let ghost nb = huff_out_bytes(load32(bus0, src));
        proof {
            if clear {
                lemma_huff_word(bus0, bus0, src as int, dst, nb);
            }
        }
        let header = self.bus.read32(src);
        let low = header & 0xF;
        let bits: u32 = if low == 0 { 8 } else { low };
        proof {
            assert(bits == huff_bits(header) || !clear);
            assert(header & 0xF <= 15) by (bit_vector);
        }
        if bits == 1 || 32 % bits != 0 {
            proof {
                if clear {
                    assert(word_trace(seq![bus0], dst, total->0));
                }
            }
            return;
        }
        assert(bits == 2 || bits == 4 || bits == 8) by (bit_vector)
            requires
                1 < bits <= 15,
                32u32 % bits == 0,
        ;
        proof {
            if clear {
                lemma_huff_read(self.bus, bus0, src + 4, dst, nb);
            }
        }
        let tsz = self.bus.read8(src.wrapping_add(4)) as u32;
        let tree = src.wrapping_add(5);
        let mut at = tree.wrapping_add(tsz * 2 + 1);
        assert(1u32 << bits >= 4 && 1u32 << bits <= 256) by (bit_vector)
            requires
                bits == 2 || bits == 4 || bits == 8,
        ;
        let mask: u32 = (1u32 << bits) - 1;
        proof {
            if clear {
                lemma_huff_read(self.bus, bus0, src + 5, dst, nb);
            }
        }
        let mut np = tree;
        let mut node = self.bus.read8(tree);
        let mut block: u32 = 0;
        let mut seen: u32 = 0;
        let mut remaining: u32 = header >> 8;
        let mut d = dst;
        let ghost mut words: Seq<u32> = Seq::empty();
        let ghost mut bs: Seq<Bus> = seq![self.bus];
        proof {
            if clear {
                assert(huff_go(bus0, dst, nb, tree, bits, at as int, 0, 0, np, node, block, seen, remaining as nat) == total);
                assert(nb == ((remaining as nat + 3) / 4) * 4);
                assert(remaining <= nb) by (nonlinear_arith)
                    requires nb == ((remaining as nat + 3) / 4) * 4;
            }
        }
        while remaining > 0 && at <= 0xFFFF_FFFB
            invariant
                self.wf(),
                bus_only(*old(self), *self),
                bus_frame(bus0, self.bus),
                bus0 == old(self).bus,
                bits == 2 || bits == 4 || bits == 8,
                mask == ((1u32 << bits) - 1) as u32,
                seen < 32,
                clear ==> {
                    &&& huff_readable(tree as int, dst, nb)
                    &&& huff_intact(self.bus, bus0, dst, nb)
                    &&& nb % 4 == 0
                    &&& remaining > 0 ==> 4 * words.len() + remaining <= nb
                    &&& huff_go(bus0, dst, nb, tree, bits, at as int, 0, 0, np, node, block, seen, remaining as nat) is Some
                    &&& total->0 == words + huff_go(bus0, dst, nb, tree, bits, at as int, 0, 0, np, node, block, seen,
                        remaining as nat)->0
                    &&& word_trace(bs, dst, words)
                    &&& bs[0] == bus0
                    &&& bs[words.len() as int] == self.bus
                    &&& d == unit_addr(dst, 4, words.len())
                },
            decreases 0x1_0000_0000 - at,
        {
            proof {
                if clear {
                    lemma_huff_word(self.bus, bus0, at as int, dst, nb);
                }
            }
            let mut stream = self.bus.read32(at);
            at = at + 4;
            let mut left: u32 = 32;
            while left > 0 && remaining > 0
                invariant
                    self.wf(),
                    bus_only(*old(self), *self),
                    bus_frame(bus0, self.bus),
                    bus0 == old(self).bus,
                    bits == 2 || bits == 4 || bits == 8,
                    mask == ((1u32 << bits) - 1) as u32,
                    seen < 32,
                    left <= 32,
                    4 <= at,
                    clear ==> {
                        &&& huff_readable(tree as int, dst, nb)
                        &&& huff_intact(self.bus, bus0, dst, nb)
                        &&& nb % 4 == 0
                        &&& remaining > 0 ==> 4 * words.len() + remaining <= nb
                        &&& huff_go(bus0, dst, nb, tree, bits, at as int, stream, left as nat, np, node, block, seen,
                            remaining as nat) is Some
                        &&& total->0 == words + huff_go(bus0, dst, nb, tree, bits, at as int, stream, left as nat, np, node,
                            block, seen, remaining as nat)->0
                        &&& word_trace(bs, dst, words)
                        &&& bs[0] == bus0
                        &&& bs[words.len() as int] == self.bus
                        &&& d == unit_addr(dst, 4, words.len())
                    },
                decreases left,
            {
                let ghost g = huff_go(bus0, dst, nb, tree, bits, at as int, stream, left as nat, np, node, block, seen,
                    remaining as nat);
                let right = stream & 0x8000_0000 != 0;
                let base = (np & !1u32).wrapping_add((node & 0x3F) as u32 * 2 + 2);
                let child = if right { base.wrapping_add(1) } else { base };
                let leaf = if right { node & 0x40 != 0 } else { node & 0x80 != 0 };
                proof {
                    if clear {
                        let c = (np & !1u32) as int + (node & 0x3F) as int * 2 + 2 + (if right { 1int } else { 0 });
                        assert(huff_readable(c, dst, nb));
                        lemma_huff_read(self.bus, bus0, c, dst, nb);
                        assert(child == c);
                    }
                }
                let val = self.bus.read8(child);
                if !leaf {
                    np = child;
                    node = val;
                } else {
                    let v = (val as u32) & mask;
                    block = block | (v << seen);
                    let ghost blk = block;
                    proof {
                        if clear {
                            lemma_huff_read(self.bus, bus0, tree as int, dst, nb);
                        }
                    }
                    np = tree;
                    node = self.bus.read8(tree);
                    if seen + bits >= 32 {
                        let ghost before_w = self.bus;
                        self.bus.write32(d, block);
                        proof {
                            if clear {
                                assert(4 * words.len() + 4 <= nb);
                                lemma_huff_store(before_w, self.bus, bus0, words.len(), block, dst, nb);
                                let (pw, pb) = (words, bs);
                                lemma_word_next(dst, words.len());
                                words = words.push(blk);
                                bs = bs.push(self.bus);
                                assert forall|k: int| 0 <= k < words.len() implies #[trigger] wrote32(bs[k], bs[k + 1],
                                    unit_addr(dst, 4, k as nat), words[k]) by {
                                    if k < pw.len() {
                                        assert(wrote32(pb[k], pb[k + 1], unit_addr(dst, 4, k as nat), pw[k]));
                                    }
                                }
                            }
                        }
                        d = d.wrapping_add(4);
                        remaining = if remaining > 4 { remaining - 4 } else { 0 };
                        block = 0;
                        seen = 0;
                    } else {
                        seen = seen + bits;
                    }
                }
                stream = stream << 1;
                left = left - 1;
                proof {
                    if clear {
                        assert(total->0 == words + huff_go(bus0, dst, nb, tree, bits, at as int, stream, left as nat, np, node,
                            block, seen, remaining as nat)->0);
                    }
                }
            }
            proof {
                if clear {
                    lemma_huff_word_end(bus0, dst, nb, tree, bits, at as int, stream, 0, np, node, block, seen, remaining as nat);
                    if remaining == 0 {
                        assert(huff_go(bus0, dst, nb, tree, bits, at as int, 0, 0, np, node, block, seen, 0) == Some(Seq::<u32>::empty()));
                    }
                }
            }
        }
        proof {
            if clear {
                assert(total->0 =~= words);
                assert(word_trace(bs, dst, total->0));
            }
        }
    }

    /// RLUnCompWram / RLUnCompVram: decompress the run-length stream at r0
    /// (header: size in bits 8-31) to r1. A flag byte with bit 7 set repeats
    /// the next byte (flag & 0x7F) + 3 times; otherwise (flag & 0x7F) + 1
    /// literal bytes follow.
    #[verifier::spinoff_prover]
    #[verifier::rlimit(60)]
    pub fn rl_uncomp(&mut self)
        requires
            old(self).wf(),
        ensures
            final(self).wf(),
            bus_only(*old(self), *final(self)),
            rl_done(*old(self), *final(self)),
    {
        let src0 = self.regs[0];
        let mut src = src0;
        let dst = self.regs[1];
        let header = self.bus.read32(src);
        let size = header >> 8;
        proof { lemma_u32_masks(header); }
        src = src.wrapping_add(4);
        let ghost clear = source_clear(src0, (4 + 2 * unpacked_size(old(self).bus, src0)) as int, dst,
            unpacked_size(old(self).bus, src0));
        let ghost total = rl_expand(old(self).bus, src0 + 4, size as nat);
        let ghost mut bs: Seq<Bus> = seq![self.bus];
        let ghost mut consumed: int = 0;
        proof {
            lemma_rl_len(old(self).bus, src0 + 4, size as nat);
            if clear {
                lemma_source_byte(old(self).bus, old(self).bus, src0, (4 + 2 * unpacked_size(old(self).bus, src0)) as int,
                    dst, unpacked_size(old(self).bus, src0), 0);
                assert(size == unpacked_size(old(self).bus, src0));
                assert(total.subrange(0, size as int) =~= total);
            }
        }
        let mut written: u32 = 0;
        while written < size
            invariant
                written <= size,
                size < 0x100_0000,
                self.wf(),
                bus_only(*old(self), *self),
                bus_frame(old(self).bus, self.bus),
                total.len() == size,
                clear ==> {
                    &&& size == unpacked_size(old(self).bus, src0)
                    &&& source_clear(src0, 4 + 2 * size, dst, size as nat)
                    &&& source_intact(self.bus, old(self).bus, src0, 4 + 2 * size)
                    &&& src == src0 + 4 + consumed
                    &&& 0 <= consumed <= 2 * written
                    &&& rl_expand(old(self).bus, src0 + 4 + consumed, (size - written) as nat)
                        == total.subrange(written as int, size as int)
                    &&& bs.len() == written + 1
                    &&& bs[0] == old(self).bus
                    &&& bs[written as int] == self.bus
                    &&& forall|k: int| 0 <= k < written ==> #[trigger] byte_written(bs[k], bs[k + 1],
                        unit_addr(dst, 1, k as nat), total[k])
                },
            decreases size - written,
        {
            let ghost at = src0 + 4 + consumed;
            proof {
                if clear {
                    lemma_source_byte(self.bus, old(self).bus, src0, 4 + 2 * size, dst, size as nat, (4 + consumed) as nat);
                }
            }
            let flag = self.bus.read8(src);
            src = src.wrapping_add(1);
            proof { lemma_u32_masks(flag as u32); }
            let ghost rest = rl_expand(old(self).bus, at, (size - written) as nat);
            if flag & 0x80 != 0 {
                let len = (flag as u32 & 0x7F) + 3;
                proof {
                    if clear {
                        lemma_source_byte(self.bus, old(self).bus, src0, 4 + 2 * size, dst, size as nat, (5 + consumed) as nat);
                    }
                }
                let b = self.bus.read8(src);
                src = src.wrapping_add(1);
                let n = if len < size - written { len } else { size - written };
                let ghost w0 = written;
                proof {
                    if clear {
                        lemma_rl_len(old(self).bus, at + 2, (size - written - n) as nat);
                        assert(rest == Seq::new(n as nat, |i: int| b) + rl_expand(old(self).bus, at + 2, (size - written - n) as nat));
                        assert forall|t: int| w0 <= t < w0 + n implies #[trigger] total[t] == b by {
                            assert(total.subrange(w0 as int, size as int)[t - w0] == rest[t - w0]);
                        }
                        assert(total.subrange(w0 + n, size as int) =~= rest.subrange(n as int, rest.len() as int));
                        assert(rest.subrange(n as int, rest.len() as int)
                            =~= rl_expand(old(self).bus, at + 2, (size - written - n) as nat));
                    }
                }
                let mut j: u32 = 0;
                while j < n
                    invariant
                        j <= n,
                        n >= 1,
                        written == w0 + j,
                        written + (n - j) <= size,
                        size < 0x100_0000,
                        self.wf(),
                        bus_only(*old(self), *self),
                        bus_frame(old(self).bus, self.bus),
                        total.len() == size,
                        clear ==> {
                            &&& source_clear(src0, 4 + 2 * size, dst, size as nat)
                            &&& source_intact(self.bus, old(self).bus, src0, 4 + 2 * size)
                            &&& size == unpacked_size(old(self).bus, src0)
                            &&& bs.len() == written + 1
                            &&& bs[0] == old(self).bus
                            &&& bs[written as int] == self.bus
                            &&& forall|k: int| 0 <= k < written ==> #[trigger] byte_written(bs[k], bs[k + 1],
                                unit_addr(dst, 1, k as nat), total[k])
                            &&& forall|t: int| w0 <= t < w0 + n ==> #[trigger] total[t] == b
                        },
                    decreases n - j,
                {
                    let ghost prev = self.bus;
                    self.bus.write8_lenient(dst.wrapping_add(written), b);
                    proof {
                        if clear {
                            assert(dst.wrapping_add(written) == unit_addr(dst, 1, written as nat));
                            lemma_source_kept(prev, self.bus, old(self).bus, src0, 4 + 2 * size, dst, size as nat,
                                written as nat, b);
                            bs = bs.push(self.bus);
                            assert(total[written as int] == b);
                        }
                    }
                    written = written + 1;
                    j = j + 1;
                }
                proof { consumed = consumed + 2; }
            } else {
                let len = (flag as u32 & 0x7F) + 1;
                let n = if len < size - written { len } else { size - written };
                let ghost w0 = written;
                proof {
                    if clear {
                        lemma_rl_len(old(self).bus, at + 1 + n, (size - written - n) as nat);
                        assert(rest == Seq::new(n as nat, |i: int| peek8(old(self).bus, (at + 1 + i) as u32))
                            + rl_expand(old(self).bus, at + 1 + n, (size - written - n) as nat));
                        assert forall|t: int| w0 <= t < w0 + n implies #[trigger] total[t] == peek8(old(self).bus, (at + 1 + (t - w0)) as u32) by {
                            assert(total.subrange(w0 as int, size as int)[t - w0] == rest[t - w0]);
                        }
                        assert(total.subrange(w0 + n, size as int) =~= rest.subrange(n as int, rest.len() as int));
                        assert(rest.subrange(n as int, rest.len() as int)
                            =~= rl_expand(old(self).bus, at + 1 + n, (size - written - n) as nat));
                    }
                }
                let mut j: u32 = 0;
                while j < n
                    invariant
                        j <= n,
                        n >= 1,
                        written == w0 + j,
                        written + (n - j) <= size,
                        size < 0x100_0000,
                        self.wf(),
                        bus_only(*old(self), *self),
                        bus_frame(old(self).bus, self.bus),
                        total.len() == size,
                        clear ==> {
                            &&& source_clear(src0, 4 + 2 * size, dst, size as nat)
                            &&& source_intact(self.bus, old(self).bus, src0, 4 + 2 * size)
                            &&& at == src0 + 4 + consumed
                            &&& 0 <= consumed <= 2 * w0
                            &&& src == at + 1 + j
                            &&& bs.len() == written + 1
                            &&& bs[0] == old(self).bus
                            &&& bs[written as int] == self.bus
                            &&& forall|k: int| 0 <= k < written ==> #[trigger] byte_written(bs[k], bs[k + 1],
                                unit_addr(dst, 1, k as nat), total[k])
                            &&& forall|t: int| w0 <= t < w0 + n ==> #[trigger] total[t] == peek8(old(self).bus, (at + 1 + (t - w0)) as u32)
                        },
                    decreases n - j,
                {
                    proof {
                        if clear {
                            lemma_source_byte(self.bus, old(self).bus, src0, 4 + 2 * size, dst, size as nat,
                                (5 + consumed + j) as nat);
                        }
                    }
                    let b = self.bus.read8(src);
                    src = src.wrapping_add(1);
                    let ghost prev = self.bus;
                    self.bus.write8_lenient(dst.wrapping_add(written), b);
                    proof {
                        if clear {
                            assert(dst.wrapping_add(written) == unit_addr(dst, 1, written as nat));
                            lemma_source_kept(prev, self.bus, old(self).bus, src0, 4 + 2 * size, dst, size as nat,
                                written as nat, b);
                            bs = bs.push(self.bus);
                            assert(total[written as int] == b);
                        }
                    }
                    written = written + 1;
                    j = j + 1;
                }
                proof { consumed = consumed + 1 + n; }
            }
        }
        proof {
            if clear {
                assert(byte_trace(bs, dst, total));
            }
        }
    }
}

} // verus!
