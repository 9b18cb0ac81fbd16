//! A verified interpreter core for the classic 16-bit-opcode "chip" virtual
//! machine: a pure instruction decoder and a machine that owns 4 KB of
//! memory, sixteen byte registers, a call stack, two countdown timers and a
//! 64x32 monochrome framebuffer, advanced one instruction per step.
//!
//! Presenting the framebuffer, reading the keyboard and loading programs
//! from disk are left to an unverified driver around this library; the core
//! receives key codes and clock readings as plain values.

pub mod error;
pub mod ins;
pub mod laws;
pub mod machine;
