//! The emulator shell around the machine: the machine instance together
//! with the presentation options an SDL driver needs (frame rate,
//! instruction multiplier, display scale, colors and buzzer pitch). The
//! driver loop itself lives outside the library; this type only carries its
//! configuration.

use vstd::prelude::*;

use crate::chip8::Chip8;

verus! {

/// Presentation options for a driver: frame pacing, display scaling,
/// colors (ARGB8888) and buzzer pitch.
#[derive(Clone, Copy, Debug, PartialEq, Eq, Structural)]
pub struct Options {
    /// Frames per second.
    pub fps: u16,
    /// Instructions executed per frame.
    pub mul: u16,
    /// Scale of the display in pixels per cell.
    pub scale: u8,
    /// Foreground color.
    pub color: u32,
    /// Background color.
    pub background: u32,
    /// Pitch of the buzzer in Hz.
    pub pitch: u16,
}

/// A machine instance paired with the presentation options a driver runs
/// it under.
#[derive(Debug)]
pub struct EmuSdl2 {
    /// The machine to run.
    pub chip8: Chip8,
    /// Frames per second.
    pub fps: u16,
    /// Instructions executed per frame.
    pub mul: u16,
    /// Scale of the display in pixels per cell.
    pub scale: u8,
    /// Foreground color.
    pub color: u32,
    /// Background color.
    pub background: u32,
    /// Pitch of the buzzer in Hz.
    pub pitch: u16,
}

impl EmuSdl2 {
    /// Pair a machine with the options it should run under.
    pub fn new(chip8: Chip8, options: Options) -> (r: EmuSdl2)
        ensures
            r.chip8 == chip8,
            r.fps == options.fps,
            r.mul == options.mul,
            r.scale == options.scale,
            r.color == options.color,
            r.background == options.background,
            r.pitch == options.pitch,
    {
        EmuSdl2 {
            chip8,
            fps: options.fps,
            mul: options.mul,
            scale: options.scale,
            color: options.color,
            background: options.background,
            pitch: options.pitch,
        }
    }
}

} // verus!
