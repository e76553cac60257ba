use gba::bus::Bus;
use gba::ppu::rgb555;

fn bus() -> Bus {
    Bus::new(vec![0u8; 0x1000])
}

#[test]
fn work_ram_reads_back_and_mirrors() {
    let mut b = bus();
    b.write32(0x0200_0010, 0x1122_3344);
    assert_eq!(b.read32(0x0200_0010), 0x1122_3344);
    assert_eq!(b.read32(0x0204_0010), 0x1122_3344); // 256KB mirror
    b.write8(0x0300_7FFF, 0x5A);
    assert_eq!(b.read8(0x0300_FFFF), 0x5A); // 32KB mirror
    assert_eq!(b.read16(0x0200_0011), 0x3344); // unaligned halfword rounds down
}

#[test]
fn byte_writes_to_video_memory() {
    let mut b = bus();
    b.write8(0x0500_0003, 0xAB); // palette: both halves of the halfword
    assert_eq!(b.read16(0x0500_0002), 0xABAB);
    b.write8(0x0700_0000, 0xAB); // OAM ignores byte writes
    assert_eq!(b.read8(0x0700_0000), 0);
    b.write8(0x0600_0001, 0x12); // BG VRAM duplicates
    assert_eq!(b.read16(0x0600_0000), 0x1212);
    b.write8(0x0601_0000, 0x34); // OBJ VRAM ignores
    assert_eq!(b.read8(0x0601_0000), 0);
    b.write8_lenient(0x0601_0000, 0x34); // unless written leniently
    assert_eq!(b.read8(0x0601_0000), 0x34);
}

#[test]
fn interrupt_registers() {
    let mut b = bus();
    b.write16(0x0400_0200, 0xFFFF);
    assert_eq!(b.ie, 0x3FFF); // only 14 sources exist
    b.request_irq(0x0009);
    assert_eq!(b.read16(0x0400_0202), 0x0009);
    b.write16(0x0400_0202, 0x0001); // write 1 to acknowledge
    assert_eq!(b.if_, 0x0008);
    b.write8(0x0400_0208, 1);
    assert!(b.ime);
}

#[test]
fn vcount_is_read_only() {
    let mut b = bus();
    b.write8(0x0400_0006, 99);
    assert_eq!(b.read8(0x0400_0006), 0);
}

#[test]
fn timer_overflow_reloads_and_raises_its_interrupt() {
    let mut b = bus();
    b.write16(0x0400_0100, 0xFFFE); // reload
    b.write16(0x0400_0102, 0x00C0); // enable, IRQ, prescaler 1
    assert_eq!(b.read16(0x0400_0100), 0xFFFE);
    b.tick(4);
    // 0xFFFE + 4 overflows twice: 0xFFFE -> 0x10002 -> 0x10000 -> 0xFFFE.
    assert_eq!(b.read16(0x0400_0100), 0xFFFE);
    assert_eq!(b.if_ & 0x08, 0x08);
}

#[test]
fn cascaded_timer_counts_overflows() {
    let mut b = bus();
    b.write16(0x0400_0100, 0xFFFF);
    b.write16(0x0400_0104, 0x0000);
    b.write16(0x0400_0106, 0x0084); // timer 1: enable, cascade
    b.write16(0x0400_0102, 0x0080); // timer 0: enable, prescaler 1
    b.tick(3);
    // Timer 0 overflowed within this tick; timer 1 counts one step for it.
    assert_eq!(b.read16(0x0400_0104), 1);
    b.tick(1);
    assert_eq!(b.read16(0x0400_0104), 2);
}

#[test]
fn immediate_dma_copies_and_clears_its_enable_bit() {
    let mut b = bus();
    for i in 0..4u32 {
        b.write32(0x0200_0000 + i * 4, 0x1000_0000 + i);
    }
    b.write32(0x0400_00D4, 0x0200_0000);
    b.write32(0x0400_00D8, 0x0300_0100);
    b.write16(0x0400_00DC, 4);
    b.write16(0x0400_00DE, 0x8400); // enable, immediate, 32-bit
    for i in 0..4u32 {
        assert_eq!(b.read32(0x0300_0100 + i * 4), 0x1000_0000 + i);
    }
    assert_eq!(b.read16(0x0400_00DE) & 0x8000, 0);
    assert_eq!(b.dma_src[3], 0x0200_0010);
    assert_eq!(b.dma_dst[3], 0x0300_0110);
}

#[test]
fn frame_timing_and_vblank_interrupt() {
    let mut b = bus();
    b.write16(0x0400_0004, 0x0008); // DISPSTAT: vblank IRQ enable
    let mut cycles = 0u64;
    while !b.frame_ready {
        b.tick(4);
        cycles += 4;
    }
    assert_eq!(cycles, 160 * 1232);
    assert_eq!(b.vcount, 160);
    assert_eq!(b.if_ & 1, 1);
    assert_eq!(b.read8(0x0400_0004) & 1, 1); // in vblank
}

#[test]
fn hblank_renders_a_bitmap_line() {
    let mut b = bus();
    b.write16(0x0400_0000, 0x0403); // mode 3, BG2 on
    b.write16(0x0600_0000, 0x001F); // pixel (0,0): red
    b.write16(0x0600_0002, 0x7C00); // pixel (1,0): blue
    for _ in 0..240 {
        b.tick(4); // 960 cycles: hblank of line 0
    }
    assert!(b.in_hblank);
    assert_eq!(b.ppu.framebuffer[0], 0x00FF_0000);
    assert_eq!(b.ppu.framebuffer[1], 0x0000_00FF);
}

#[test]
fn colors_expand_to_eight_bits() {
    assert_eq!(rgb555(0x7FFF), 0x00FF_FFFF);
    assert_eq!(rgb555(0x0000), 0);
    assert_eq!(rgb555(0x0010), 0x0084_0000);
}

#[test]
fn output_samples_come_due_at_44100_hz() {
    let mut b = bus();
    let mut n = 0u64;
    for _ in 0..(0x100_0000 / 1024) {
        n += b.tick(1024) as u64;
    }
    assert_eq!(n, 44100);
}

#[test]
fn wave_ram_accesses_the_bank_not_playing() {
    let mut b = bus();
    b.write8(0x0400_0090, 0x12);
    assert_eq!(b.read8(0x0400_0090), 0x12);
    assert_eq!(b.psg.wave_ram[16], 0x12); // bank 1 while bank 0 plays
}

#[test]
fn fifo_samples_play_on_timer_overflow() {
    let mut b = bus();
    b.write16(0x0400_0082, 0x0000); // FIFO A paced by timer 0
    b.write32(0x0400_00A0, 0x0403_0201);
    assert_eq!(b.fifo_a.len(), 4);
    b.write16(0x0400_0100, 0xFFFF);
    b.write16(0x0400_0102, 0x0080);
    b.tick(1);
    assert_eq!(b.sample_a, 1);
    assert_eq!(b.fifo_a.len(), 3);
}

#[test]
fn is_valid_accepts_fresh_state_and_rejects_broken_state() {
    let mut b = bus();
    assert!(b.is_valid());
    b.vcount = 300;
    assert!(!b.is_valid());
}

#[test]
fn hblank_dma_repeats_at_each_hblank() {
    let mut b = bus();
    b.write32(0x0200_0000, 0xCAFE_F00D);
    b.write32(0x0400_00B0, 0x0200_0000); // DMA0 source
    b.write32(0x0400_00B4, 0x0300_0000); // DMA0 destination
    b.write16(0x0400_00B8, 1);
    // enable, hblank timing, repeat, 32-bit, source fixed, destination incrementing
    b.write16(0x0400_00BA, 0xA700);
    assert_eq!(b.read32(0x0300_0000), 0); // not immediate
    for _ in 0..240 {
        b.tick(4);
    }
    assert_eq!(b.read32(0x0300_0000), 0xCAFE_F00D);
    assert_eq!(b.read16(0x0400_00BA) & 0x8000, 0x8000); // repeating: still enabled
    assert_eq!(b.dma_dst[0], 0x0300_0004);
    for _ in 0..308 {
        b.tick(4); // one more line: the next hblank
    }
    assert_eq!(b.read32(0x0300_0004), 0xCAFE_F00D);
}

#[test]
fn halfword_dma_with_decrementing_source() {
    let mut b = bus();
    b.write16(0x0200_0000, 0x1111);
    b.write16(0x0200_0002, 0x2222);
    b.write32(0x0400_00C8, 0x0200_0002); // DMA2 source: the last halfword
    b.write32(0x0400_00CC, 0x0300_0000);
    b.write16(0x0400_00D0, 2);
    b.write16(0x0400_00D2, 0x8080); // enable, immediate, 16-bit, source decrementing
    assert_eq!(b.read16(0x0300_0000), 0x2222);
    assert_eq!(b.read16(0x0300_0002), 0x1111);
    assert_eq!(b.dma_src[2], 0x01FF_FFFE);
}

#[test]
fn one_long_tick_runs_every_line_to_vblank() {
    let mut b = Bus::new(vec![0u8; 0x8000]);
    // 160 lines of 1232 cycles: 518 output samples at 44.1 kHz come due.
    let n = b.tick(197_120);
    assert_eq!(b.vcount, 160);
    assert!(b.frame_ready);
    assert_eq!(b.line_cycles, 0);
    assert_eq!(n, 518);
}

#[test]
fn a_fresh_bus_powers_up_idle() {
    let b = Bus::new(vec![0u8; 0x8000]);
    assert_eq!(b.flash_state, 0);
    assert!(!b.flash_id_mode && !b.flash_erase_mode && !b.flash_write_byte && !b.flash_bank_select);
    assert_eq!(b.flash_bank, 0);
    assert!(b.ee_buf.is_empty() && !b.ee_reading);
    assert_eq!(b.sample_timer, 0);
    assert!(b.palette.iter().all(|x| *x == 0));
}

#[test]
fn header_title_is_trimmed_and_needs_a_whole_header() {
    let mut rom = vec![0u8; 0xC0];
    rom[0xA0..0xAC].copy_from_slice(b" POKEMON FR\0");
    assert_eq!(gba::header::header_title(&rom), Some(b"POKEMON FR".to_vec()));
    assert_eq!(gba::header::header_title(&rom[..0xBF]), None);
    let blank = vec![0u8; 0x100];
    assert_eq!(gba::header::header_title(&blank), Some(Vec::new()));
}

#[test]
fn dma_leaves_its_address_registers_as_written() {
    let mut b = bus();
    for i in 0..4u32 {
        b.write16(0x0200_0000 + i * 2, 0x1234 + i as u16);
    }
    b.if_ = 0x0001;
    b.write32(0x0400_00B0, 0x0200_0000);
    b.write32(0x0400_00B4, 0x0300_0200);
    b.write16(0x0400_00B8, 4);
    b.write16(0x0400_00BA, 0xC000); // enable, immediate, 16-bit, IRQ
    for i in 0..4u32 {
        assert_eq!(b.read16(0x0300_0200 + i * 2), 0x1234 + i as u16);
    }
    assert_eq!(&b.io[0xB0..0xB4], &[0x00, 0x00, 0x00, 0x02]);
    assert_eq!(&b.io[0xB4..0xB8], &[0x00, 0x02, 0x00, 0x03]);
    assert_eq!(&b.io[0xB8..0xBA], &[4, 0]);
    assert_eq!(&b.io[0xBA..0xBC], &[0x00, 0x40]);
    assert_eq!(b.if_, 0x0101);
    assert_eq!(b.dma_src[0], 0x0200_0008);
}

#[test]
fn keyinput_is_active_low_over_ten_buttons() {
    assert_eq!(gba::io::keyinput_for(0), 0x3FF);
    assert_eq!(gba::io::keyinput_for(0x0001), 0x3FE);
    assert_eq!(gba::io::keyinput_for(0xFC09), 0x3F6);
}
