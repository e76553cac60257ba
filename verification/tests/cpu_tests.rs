use gba::alu::shift;
use gba::bus::Bus;
use gba::cpu::{Cpu, StepEvent, SP_IRQ, SP_USR};
use gba::step::cpi;
use gba::swi::{divide, isqrt};

/// A machine whose ROM starts with the given ARM words.
fn cpu_with_arm(words: &[u32]) -> Cpu {
    let mut rom = vec![0u8; 0x1000];
    for (i, w) in words.iter().enumerate() {
        rom[i * 4..i * 4 + 4].copy_from_slice(&w.to_le_bytes());
    }
    Cpu::new(Bus::new(rom))
}

/// A machine in Thumb state whose ROM starts with the given halfwords.
fn cpu_with_thumb(ops: &[u16]) -> Cpu {
    let mut rom = vec![0u8; 0x1000];
    for (i, h) in ops.iter().enumerate() {
        rom[i * 2..i * 2 + 2].copy_from_slice(&h.to_le_bytes());
    }
    let mut c = Cpu::new(Bus::new(rom));
    c.cpsr |= 0x20;
    c
}

const N: u32 = 1 << 31;
const Z: u32 = 1 << 30;
const C: u32 = 1 << 29;
const V: u32 = 1 << 28;

#[test]
fn reset_state_matches_the_bios_handoff() {
    let c = cpu_with_arm(&[]);
    assert_eq!(c.regs[15], 0x0800_0000);
    assert_eq!(c.regs[13], SP_USR);
    assert_eq!(c.cpsr, 0x1F);
    assert!(!c.halted);
}

#[test]
fn mov_immediate_runs_and_advances_pc() {
    let mut c = cpu_with_arm(&[0xE3A0_002A]); // mov r0, #42
    assert_eq!(c.step(), StepEvent::Executed);
    assert_eq!(c.regs[0], 42);
    assert_eq!(c.regs[15], 0x0800_0004);
}

#[test]
fn adds_wraps_and_sets_zero_and_carry() {
    let mut c = cpu_with_arm(&[0xE091_0002]); // adds r0, r1, r2
    c.regs[1] = 0xFFFF_FFFF;
    c.regs[2] = 1;
    c.step();
    assert_eq!(c.regs[0], 0);
    assert_eq!(c.cpsr & (N | Z | C | V), Z | C);
}

#[test]
fn subs_signed_overflow_sets_v() {
    let mut c = cpu_with_arm(&[0xE051_0002]); // subs r0, r1, r2
    c.regs[1] = 0x8000_0000;
    c.regs[2] = 1;
    c.step();
    assert_eq!(c.regs[0], 0x7FFF_FFFF);
    assert_eq!(c.cpsr & (N | Z | C | V), C | V);
}

#[test]
fn cmp_carry_means_no_borrow() {
    let mut c = cpu_with_arm(&[0xE151_0002, 0xE151_0002]); // cmp r1, r2 (twice)
    c.regs[1] = 5;
    c.regs[2] = 3;
    c.step();
    assert_eq!(c.cpsr & (N | Z | C), C);
    c.regs[1] = 3;
    c.regs[2] = 5;
    c.step();
    assert_eq!(c.cpsr & (N | Z | C), N);
}

#[test]
fn condition_failure_skips_the_instruction() {
    let mut c = cpu_with_arm(&[0x03A0_0001]); // moveq r0, #1 with Z clear
    c.step();
    assert_eq!(c.regs[0], 0);
    assert_eq!(c.regs[15], 0x0800_0004);
}

#[test]
fn branch_with_link() {
    let mut c = cpu_with_arm(&[0xEB00_0001]); // bl +4 words from PC+8
    c.step();
    assert_eq!(c.regs[15], 0x0800_000C);
    assert_eq!(c.regs[14], 0x0800_0004);
}

#[test]
fn bx_enters_thumb_state() {
    let mut c = cpu_with_arm(&[0xE12F_FF10]); // bx r0
    c.regs[0] = 0x0800_0101;
    c.step();
    assert_eq!(c.cpsr & 0x20, 0x20);
    assert_eq!(c.regs[15], 0x0800_0100);
}

#[test]
fn umull_and_smull_give_the_full_product() {
    let mut c = cpu_with_arm(&[0xE081_0392, 0xE0C1_0392]); // umull r0, r1, r2, r3; smull r0, r1, r2, r3
    c.regs[2] = 0xFFFF_FFFF;
    c.regs[3] = 2;
    c.step();
    assert_eq!((c.regs[1], c.regs[0]), (1, 0xFFFF_FFFE));
    c.step();
    assert_eq!((c.regs[1], c.regs[0]), (0xFFFF_FFFF, 0xFFFF_FFFE)); // -1 * 2 = -2
}

#[test]
fn store_and_load_through_work_ram() {
    // mov r1, #0x02000000; str r0, [r1]; ldr r2, [r1]
    let mut c = cpu_with_arm(&[0xE3A0_1402, 0xE581_0000, 0xE591_2000]);
    c.regs[0] = 0xDEAD_BEEF;
    c.step();
    c.step();
    c.step();
    assert_eq!(c.regs[2], 0xDEAD_BEEF);
    assert_eq!(c.bus.ewram[0..4], [0xEF, 0xBE, 0xAD, 0xDE]);
}

#[test]
fn push_and_pop_in_thumb() {
    // mov r0, #7; push {r0}; mov r0, #0; pop {r1}
    let mut c = cpu_with_thumb(&[0x2007, 0xB401, 0x2000, 0xBC02]);
    let sp = c.regs[13];
    for _ in 0..4 {
        assert_eq!(c.step(), StepEvent::Executed);
    }
    assert_eq!(c.regs[1], 7);
    assert_eq!(c.regs[13], sp);
}

#[test]
fn thumb_immediate_add_and_compare() {
    let mut c = cpu_with_thumb(&[0x2005, 0x3003, 0x2808]); // mov r0,#5; add r0,#3; cmp r0,#8
    c.step();
    c.step();
    c.step();
    assert_eq!(c.regs[0], 8);
    assert_eq!(c.cpsr & (Z | C), Z | C);
    assert_eq!(c.regs[15], 0x0800_0006);
}

#[test]
fn irq_entry_saves_state_and_jumps_to_the_vector() {
    let mut c = cpu_with_arm(&[0xE3A0_002A]);
    c.bus.ie = 1;
    c.bus.if_ = 1;
    c.bus.ime = true;
    c.step();
    assert_eq!(c.cpsr & 0xBF, 0x92);
    assert_eq!(c.spsr_irq, 0x1F);
    assert_eq!(c.regs[15], 0x18);
    assert_eq!(c.regs[14], 0x0800_0004);
    assert_eq!(c.regs[13], SP_IRQ);
    assert_eq!(c.regs[0], 0); // the instruction did not run
}

#[test]
fn halted_cpu_idles_until_an_interrupt_is_pending() {
    let mut c = cpu_with_arm(&[0xEF02_0000, 0xE3A0_002A]); // swi Halt; mov r0, #42
    c.step();
    assert!(c.halted);
    let pc = c.regs[15];
    c.step();
    assert_eq!(c.regs[15], pc);
    c.bus.ie = 1;
    c.bus.if_ = 1; // IME off: the interrupt wakes the CPU but is not taken
    c.step();
    assert!(!c.halted);
    assert_eq!(c.regs[0], 42);
}

#[test]
fn mode_switch_keeps_every_bank() {
    let mut c = cpu_with_arm(&[]);
    c.regs[13] = 0x1234;
    c.cpsr = (c.cpsr & !0x1F) | 0x12;
    c.switch_mode(0x1F);
    assert_eq!(c.regs[13], SP_IRQ);
    c.regs[13] = 0x5678;
    c.cpsr = (c.cpsr & !0x1F) | 0x1F;
    c.switch_mode(0x12);
    assert_eq!(c.regs[13], 0x1234);
    assert_eq!(c.bank_irq[0], 0x5678);
}

#[test]
fn bios_div_truncates_toward_zero() {
    let mut c = cpu_with_arm(&[0xEF06_0000]); // swi Div
    c.regs[0] = (-7i32) as u32;
    c.regs[1] = 2;
    c.step();
    assert_eq!(c.regs[0] as i32, -3);
    assert_eq!(c.regs[1] as i32, -1);
    assert_eq!(c.regs[3], 3);
    // The quotient and remainder recompose the numerator.
    assert_eq!((c.regs[0] as i32) * 2 + c.regs[1] as i32, -7);
}

#[test]
fn divide_edge_cases() {
    assert_eq!(divide(7, 2), (3, 1, 3));
    assert_eq!(divide(i32::MIN as u32, (-1i32) as u32), (0x8000_0000, 0, 0x8000_0000));
    assert_eq!(divide(7, (-2i32) as u32), ((-3i32) as u32, 1, 3));
}

#[test]
fn bios_sqrt_is_the_integer_square_root() {
    let mut c = cpu_with_arm(&[0xEF08_0000]); // swi Sqrt
    c.regs[0] = 1000;
    c.step();
    assert_eq!(c.regs[0], 31);
    assert_eq!(isqrt(0), 0);
    assert_eq!(isqrt(u32::MAX), 0xFFFF);
    assert_eq!(isqrt(144), 12);
}

#[test]
fn arctan_is_handed_to_the_frontend() {
    let mut c = cpu_with_arm(&[0xEF09_0000, 0xEF0A_0000]);
    assert_eq!(c.step(), StepEvent::ArcTan);
    assert_eq!(c.regs[15], 0x0800_0004);
    assert_eq!(c.step(), StepEvent::ArcTan2);
}

#[test]
fn coprocessor_ops_are_reported_not_executed() {
    let mut c = cpu_with_arm(&[0xEE00_0000]);
    assert_eq!(c.step(), StepEvent::UndefinedArm { op: 0xEE00_0000, pc: 0x0800_0000 });
    assert_eq!(c.regs[15], 0x0800_0000);
}

#[test]
fn thumb_blx_suffix_is_reported() {
    let mut c = cpu_with_thumb(&[0xE800]);
    assert_eq!(c.step(), StepEvent::UndefinedThumb { op: 0xE800, pc: 0x0800_0000 });
}

#[test]
fn barrel_shifter_special_cases() {
    assert_eq!(shift(1, 0x8000_0000, 0, true, false), (0, true)); // LSR #32
    assert_eq!(shift(2, 0x8000_0000, 0, true, false), (0xFFFF_FFFF, true)); // ASR #32
    assert_eq!(shift(3, 3, 0, true, true), (0x8000_0001, true)); // RRX
    assert_eq!(shift(0, 1, 0, false, true), (1, true)); // LSL by register 0 keeps carry
    assert_eq!(shift(3, 0x0000_0010, 4, false, false), (1, false)); // ROR #4
}

#[test]
fn cycles_per_instruction_by_region() {
    assert_eq!(cpi(0x0300_0000), 1);
    assert_eq!(cpi(0x0200_0000), 3);
    assert_eq!(cpi(0x0800_0000), 4);
}

#[test]
fn lz77_decompresses_literals_and_back_references() {
    // header: type 0x10, size 6; flags 0b0100_0000: a literal 'A', then a
    // back reference of length 5 at distance 1.
    let data: [u8; 8] = [0x10, 0x06, 0x00, 0x00, 0x40, b'A', 0x20, 0x00];
    let mut c = cpu_with_arm(&[0xEF11_0000]);
    for (i, b) in data.iter().enumerate() {
        c.bus.write8(0x0200_0100 + i as u32, *b);
    }
    c.regs[0] = 0x0200_0100;
    c.regs[1] = 0x0300_0000;
    c.step();
    assert_eq!(&c.bus.iwram[0..6], b"AAAAAA");
}

#[test]
fn rl_decompresses_runs_and_literals() {
    // header: type 0x30, size 5; run of 3 x 'Z'; 2 literals "hi".
    let data: [u8; 10] = [0x30, 0x05, 0x00, 0x00, 0x80, b'Z', 0x01, b'h', b'i', 0];
    let mut c = cpu_with_arm(&[0xEF14_0000]);
    for (i, b) in data.iter().enumerate() {
        c.bus.write8(0x0200_0100 + i as u32, *b);
    }
    c.regs[0] = 0x0200_0100;
    c.regs[1] = 0x0300_0000;
    c.step();
    assert_eq!(&c.bus.iwram[0..5], b"ZZZhi");
}

#[test]
fn cpu_set_fills_words() {
    let mut c = cpu_with_arm(&[0xEF0B_0000]);
    c.bus.write32(0x0200_0000, 0xA5A5_1234);
    c.regs[0] = 0x0200_0000;
    c.regs[1] = 0x0300_0000;
    c.regs[2] = 0x0500_0003; // fill, 32-bit, 3 units
    c.step();
    for i in 0..3 {
        assert_eq!(c.bus.read32(0x0300_0000 + i * 4), 0xA5A5_1234);
    }
    assert_eq!(c.bus.read32(0x0300_000C), 0);
}

#[test]
fn stmia_and_ldmia_with_writeback() {
    // mov r4, #0x02000000; stmia r4!, {r0-r2}; ldmdb r4!, {r5-r7}
    let mut c = cpu_with_arm(&[0xE3A0_4402, 0xE8A4_0007, 0xE934_00E0]);
    c.regs[0] = 11;
    c.regs[1] = 22;
    c.regs[2] = 33;
    for _ in 0..3 {
        assert_eq!(c.step(), StepEvent::Executed);
    }
    assert_eq!(c.bus.read32(0x0200_0000), 11);
    assert_eq!(c.bus.read32(0x0200_0008), 33);
    assert_eq!((c.regs[5], c.regs[6], c.regs[7]), (11, 22, 33));
    assert_eq!(c.regs[4], 0x0200_0000);
}

#[test]
fn ldm_with_empty_list_loads_pc_and_moves_base_by_64() {
    // mov r4, #0x02000000; ldmia r4!, {}
    let mut c = cpu_with_arm(&[0xE3A0_4402, 0xE8B4_0000]);
    c.bus.write32(0x0200_0000, 0x0800_0103);
    c.step();
    c.step();
    assert_eq!(c.regs[15], 0x0800_0100);
    assert_eq!(c.regs[4], 0x0200_0040);
}

#[test]
fn halfword_and_signed_loads() {
    // mov r1, #0x02000000; ldrh r2, [r1]; ldrsb r3, [r1, #1]; ldrsh r4, [r1]
    let mut c = cpu_with_arm(&[0xE3A0_1402, 0xE1D1_20B0, 0xE1D1_30D1, 0xE1D1_40F0]);
    c.bus.write16(0x0200_0000, 0x80FE);
    for _ in 0..4 {
        c.step();
    }
    assert_eq!(c.regs[2], 0x80FE);
    assert_eq!(c.regs[3], 0xFFFF_FF80);
    assert_eq!(c.regs[4], 0xFFFF_80FE);
}

#[test]
fn unaligned_word_load_rotates() {
    // mov r1, #0x02000000; ldr r2, [r1, #1]
    let mut c = cpu_with_arm(&[0xE3A0_1402, 0xE591_2001]);
    c.bus.write32(0x0200_0000, 0x4433_2211);
    c.step();
    c.step();
    assert_eq!(c.regs[2], 0x1144_3322);
}

#[test]
fn swap_exchanges_register_and_memory() {
    // mov r1, #0x02000000; swp r2, r0, [r1]
    let mut c = cpu_with_arm(&[0xE3A0_1402, 0xE101_2090]);
    c.bus.write32(0x0200_0000, 77);
    c.regs[0] = 99;
    c.step();
    c.step();
    assert_eq!(c.regs[2], 77);
    assert_eq!(c.bus.read32(0x0200_0000), 99);
}

#[test]
fn thumb_high_register_add_and_bx_back_to_arm() {
    // add r8, r0 (hi-reg); bx r1
    let mut c = cpu_with_thumb(&[0x4480, 0x4708]);
    c.regs[0] = 5;
    c.regs[8] = 10;
    c.regs[1] = 0x0800_0100;
    c.step();
    assert_eq!(c.regs[8], 15);
    c.step();
    assert_eq!(c.cpsr & 0x20, 0);
    assert_eq!(c.regs[15], 0x0800_0100);
}

#[test]
fn thumb_stmia_ldmia_round_trip() {
    // mov r3, #0x..; stmia r3!, {r0, r1}; sub r3, #8; ldmia r3!, {r4, r5}
    let mut c = cpu_with_thumb(&[0xC303, 0x3B08, 0xCB30]);
    c.regs[3] = 0x0300_0010;
    c.regs[0] = 0xAAAA;
    c.regs[1] = 0xBBBB;
    for _ in 0..3 {
        assert_eq!(c.step(), StepEvent::Executed);
    }
    assert_eq!((c.regs[4], c.regs[5]), (0xAAAA, 0xBBBB));
    assert_eq!(c.regs[3], 0x0300_0018);
}

#[test]
fn huffman_stream_decodes_to_words() {
    // Header: 4 bytes of 8-bit values; a tree whose root has the leaves
    // 'A' (left) and 'B' (right); the bits 0, 1, 1, 0 spell A, B, B, A.
    let mut rom = vec![0u8; 0x1000];
    let s = 0x100;
    rom[s..s + 4].copy_from_slice(&0x0000_0428u32.to_le_bytes());
    rom[s + 4] = 1;
    rom[s + 5] = 0xC0;
    rom[s + 6] = b'A';
    rom[s + 7] = b'B';
    rom[s + 8..s + 12].copy_from_slice(&0x6000_0000u32.to_le_bytes());
    let mut c = Cpu::new(Bus::new(rom));
    c.regs[0] = 0x0800_0100;
    c.regs[1] = 0x0200_0000;
    assert_eq!(c.hle_swi(0x13), StepEvent::Executed);
    assert_eq!(c.bus.read32(0x0200_0000), 0x4142_4241);
    assert_eq!(c.bus.read32(0x0200_0004), 0);
}

#[test]
fn bios_calls_left_to_the_frontend_or_unknown_are_reported() {
    let mut c = cpu_with_arm(&[]);
    assert_eq!(c.hle_swi(0x0E), StepEvent::BgAffineSet);
    assert_eq!(c.hle_swi(0x0F), StepEvent::ObjAffineSet);
    assert_eq!(c.hle_swi(0x0D), StepEvent::UnknownSwi { n: 0x0D });
    assert_eq!(c.hle_swi(0x2A), StepEvent::UnknownSwi { n: 0x2A });
}

#[test]
fn vblank_intr_wait_waits_for_the_bios_flag() {
    let mut c = cpu_with_arm(&[]);
    c.bus.iwram[0x7FF8] = 0x01; // an old vblank flag, discarded
    assert_eq!(c.hle_swi(0x05), StepEvent::Executed);
    assert!(c.halted && c.bus.ime);
    assert_eq!(c.wait_flags, 1);
    assert_eq!(c.wait_pc, 0x0800_0004);
    assert_eq!(c.bus.iwram[0x7FF8], 0);
    // The handler sets the flag; back at the wait, the check acknowledges it.
    c.bus.iwram[0x7FF8] = 0x01;
    c.halted = false;
    c.regs[15] = c.wait_pc;
    assert_eq!(c.step(), StepEvent::Executed);
    assert!(!c.halted);
    assert_eq!(c.wait_flags, 0);
    assert_eq!(c.bus.iwram[0x7FF8], 0);
    assert_eq!(c.regs[15], 0x0800_0004);
}

#[test]
fn intr_wait_returns_at_once_on_a_flag_already_set() {
    let mut c = cpu_with_arm(&[]);
    c.bus.iwram[0x7FF8] = 0x05;
    c.regs[0] = 0;
    c.regs[1] = 0x04;
    c.hle_swi(0x04);
    assert!(!c.halted);
    assert_eq!(c.wait_flags, 0);
    assert_eq!(c.bus.iwram[0x7FF8], 0x01);
}

#[test]
fn run_length_stream_in_work_ram_expands_into_vram() {
    let mut c = cpu_with_arm(&[]);
    let stream = [0x30, 0x06, 0x00, 0x00, 0x80, 0x11, 0x02, 0xAA, 0xBB, 0xCC];
    for (i, b) in stream.iter().enumerate() {
        c.bus.write8(0x0200_0000 + i as u32, *b);
    }
    c.regs[0] = 0x0200_0000;
    c.regs[1] = 0x0600_0000;
    c.hle_swi(0x15);
    let out: Vec<u8> = (0..6).map(|i| c.bus.read8(0x0600_0000 + i)).collect();
    assert_eq!(out, vec![0x11, 0x11, 0x11, 0xAA, 0xBB, 0xCC]);
}

#[test]
fn lz77_stream_decompresses_into_vram() {
    // A literal 'A', then a back reference of 7 bytes at distance 1.
    let mut rom = vec![0u8; 0x1000];
    rom[0x200..0x208].copy_from_slice(&[0x10, 0x08, 0x00, 0x00, 0x40, 0x41, 0x40, 0x00]);
    let mut c = Cpu::new(Bus::new(rom));
    c.regs[0] = 0x0800_0200;
    c.regs[1] = 0x0600_0100;
    c.hle_swi(0x12);
    for i in 0..8 {
        assert_eq!(c.bus.read8(0x0600_0100 + i), 0x41);
    }
    assert_eq!(c.bus.read8(0x0600_0108), 0);
}

#[test]
fn subs_pc_lr_returns_from_an_interrupt() {
    let mut c = cpu_with_arm(&[0xE25E_F004]); // subs pc, lr, #4
    let user_sp = c.regs[13];
    c.cpsr = (c.cpsr & !0x1F) | 0x92;
    c.switch_mode(0x1F);
    assert_eq!(c.regs[13], SP_IRQ);
    c.spsr_irq = 0x6000_001F;
    c.regs[14] = 0x0800_0010;
    c.step();
    assert_eq!(c.cpsr, 0x6000_001F);
    assert_eq!(c.regs[15], 0x0800_000C);
    assert_eq!(c.regs[13], user_sp);
    assert_eq!(c.bank_irq[0], SP_IRQ);
}

#[test]
fn mov_pc_lr_jumps_and_keeps_the_cpsr() {
    let mut c = cpu_with_arm(&[0xE1A0_F00E]); // mov pc, lr
    c.regs[14] = 0x0800_0101;
    let cpsr = c.cpsr;
    c.step();
    assert_eq!(c.regs[15], 0x0800_0100);
    assert_eq!(c.cpsr, cpsr);
}
