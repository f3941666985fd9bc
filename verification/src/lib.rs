//! A CHIP-8 virtual machine core: a byte-addressable memory, sixteen
//! general-purpose registers, a call stack, two countdown timers, a
//! monochrome bitmap display and a sixteen-key input latch, driven one
//! fetch-decode-execute step at a time.
//!
//! Every state transition is specified against a mathematical model of the
//! machine ([`model::State`]) and verified; the historically divergent
//! "quirk" behaviours are configurable through [`chip8::Quirks`].

use vstd::prelude::*;

pub mod chip8;
pub mod emusdl2;
pub mod laws;
pub mod model;

pub use chip8::Chip8;
pub use chip8::Chip8Error;
pub use chip8::Instruction;
pub use chip8::Quirks;
pub use emusdl2::EmuSdl2;
pub use emusdl2::Options;

verus! {

/// Memory size in bytes.
pub const MEMORY_SIZE: usize = 4096;

/// Address at which a program image is loaded and execution starts.
pub const PROGRAM_START: usize = 0x200;

/// Number of general purpose registers.
pub const NUMBER_OF_REGISTERS: usize = 16;

/// Number of call stack slots.
pub const STACK_SIZE: usize = 16;

/// Width of the display in pixels.
pub const DISPLAY_WIDTH: usize = 64;

/// Height of the display in pixels.
pub const DISPLAY_HEIGHT: usize = 32;

/// Number of cells in the display grid.
pub const DISPLAY_CELLS: usize = 2048;

/// Number of keys on the keyboard.
pub const KEYBOARD_SIZE: usize = 16;

/// Size of the built-in font data in bytes: sixteen glyphs of five rows each.
pub const FONTS_SIZE: usize = 80;

} // verus!
