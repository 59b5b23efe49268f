//! A verified interpreter core for the classic 35-opcode virtual machine
//! with sixteen 8-bit registers, 4096 bytes of memory, a 64x32 monochrome
//! framebuffer, a call stack and two countdown timers.
//!
//! The semantics of a single fetch-decode-execute step is written down as a
//! mathematical function over an abstract machine state
//! ([`machine::step_spec`]); the executable interpreter [`cpu::Chip8`] is
//! proved to follow it exactly.
use vstd::prelude::*;

pub mod config;
pub mod cpu;
pub mod isa;
pub mod laws;
pub mod machine;

verus! {

/// Number of addressable bytes of interpreter memory.
pub const MEMORY_SIZE: usize = 4096;

/// Offset at which program images are loaded, and at which execution starts.
/// Bytes below this offset are reserved for the font table and are never
/// written once the machine is built.
pub const PROGRAM_START: usize = 0x200;

/// Width of the framebuffer in pixels.
pub const SCREEN_WIDTH: usize = 64;

/// Height of the framebuffer in pixels.
pub const SCREEN_HEIGHT: usize = 32;

/// Total number of framebuffer cells.
pub const SCREEN_CELLS: usize = 64 * 32;

/// Number of bytes of the font table: 16 glyphs of 5 bytes each.
pub const FONT_BYTES: usize = 80;

} // verus!
