# gba

A Game Boy Advance emulator core whose logic is verified with Verus, and a
thin frontend around it.

## Layout

- `src/` — the verified library.
  - `cpu.rs`, `arm.rs`, `thumb.rs`, `alu.rs`, `swi.rs`, `step.rs`: the
    ARM7TDMI (registers and banked modes, the ARM and Thumb instruction sets,
    the barrel shifter and flags, the high-level BIOS calls, the
    fetch-execute step with interrupt delivery).
  - `bus.rs`, `mem.rs`, `store.rs`, `io.rs`, `dma.rs`, `timers.rs`,
    `clock.rs`: the memory map, I/O registers, DMA, timers and DirectSound
    FIFOs, and scanline timing.
  - `save.rs`, `cart.rs`: save-medium detection and the SRAM, flash and
    EEPROM controllers.
  - `header.rs`: the cartridge header's game title.
  - `ppu.rs`, `psg.rs`: the scanline renderer and the legacy sound channels.
  - `laws.rs`: properties across operations (what a read gives back of a
    write, the save media's guarantees, arithmetic identities).
  - `valid.rs`: run-time checks of the state invariants.
  - `bits.rs`, `bitfacts.rs`: byte packing and bit-field facts.
- `tests/` — tests of the library.
- `app/` — the command-line runner, audio mixing, the C FFI, the browser
  bindings and save-state serialization.

The core hands the frontend what needs floating point (the BIOS arctangent
and affine-parameter calls, mixing the sound channels' levels into a
filtered stereo stream) and reports instructions and BIOS calls it does not
implement instead of stopping the process (unknown BIOS calls are logged
under `GBA_SWILOG`).

The renderer composes backgrounds and sprites by priority only: windows and
alpha/brightness blending are not implemented, so their registers are
stored but have no effect on the picture.
