//! A verified interpreter for the classic CHIP-8 virtual machine: 4096 bytes
//! of memory seeded with a built-in font, sixteen 8-bit registers, a call
//! stack, two countdown timers, and a 64x32 monochrome display. Each call to
//! `advance` performs one fetch-decode-execute-timer cycle whose effect on the
//! machine state is pinned down by the specification in `semantics`.

pub mod chip8;
pub mod cpu;
pub mod display;
pub mod error;
pub mod interp;
pub mod laws;
pub mod memory;
pub mod semantics;

pub use chip8::Chip8;
pub use cpu::CPU;
pub use display::Display;
pub use error::Chip8Error;
pub use interp::advance;
pub use memory::Memory;
