//! A Game Boy Advance emulator core: the ARM7TDMI interpreter, the memory
//! bus with its cartridge save controllers, DMA and timers, the scanline
//! renderer and the legacy PSG sound channels.

pub mod bits;
pub mod bitfacts;
pub mod save;
pub mod psg;
pub mod ppu;
pub mod bus;
pub mod cart;
pub mod mem;
pub mod io;
pub mod store;
pub mod dma;
pub mod timers;
pub mod clock;
pub mod alu;
pub mod cpu;
pub mod arm;
pub mod swi;
pub mod thumb;
pub mod step;
pub mod header;
pub mod laws;
pub mod valid;
