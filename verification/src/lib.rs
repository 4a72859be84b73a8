//! A verified CHIP-8 interpreter core.
//!
//! The machine state (memory, registers, call stack, display buffer, key
//! flags and timers) lives in [`machine::Chip8`]; one interpreter cycle is
//! [`machine::Chip8::cycle`], whose effect on the state is pinned down by
//! the specification-level transition function [`step::step`]. The host is
//! expected to drive the loop: run a cycle, render the display buffer, and
//! feed key state back in between cycles.

pub mod font;
pub mod gfx;
pub mod laws;
pub mod machine;
pub mod sprite;
pub mod step;
