//! A verified CHIP-8 interpreter.
//!
//! The interpreter owns the whole machine state (memory, registers, stack,
//! timers, framebuffer, key state) and exposes a handful of operations:
//! create a machine, load a program image, advance by one instruction,
//! decrement the timers, and read the framebuffer.  Every instruction's
//! effect is stated as a mathematical transition over [`state::CpuView`]
//! and the executable code is proved to implement it.

pub mod cpu;
pub mod font;
pub mod keyboard;
pub mod laws;
pub mod rng;
pub mod state;
pub mod step;
