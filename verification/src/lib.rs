//! A CHIP-8 virtual machine: memory, registers, call stack, timers, keypad and
//! a 64x32 monochrome display, driven one instruction at a time.
//!
//! [`model`] holds the mathematical description of the machine and of what one
//! instruction does to it. [`chip8`] holds the executable interpreter, whose
//! contracts are stated over that description. [`laws`] holds what follows
//! from the description for every state, proved once and for all.

pub mod args;
pub mod chip8;
pub mod laws;
pub mod model;
