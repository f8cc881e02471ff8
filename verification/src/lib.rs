//! A verified CHIP-8 interpreter core.
//!
//! The machine state (memory, registers, stack, timers, framebuffer, keypad)
//! lives in [`state`]; the fetch/decode/execute engine in [`cpu`] is specified
//! against a mathematical model of that state, and [`laws`] proves the
//! instruction-set identities that the hardware's flag conventions promise.

pub mod state;
pub mod instr;
pub mod cpu;
pub mod laws;
