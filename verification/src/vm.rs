//! The 16-bit virtual machine that runs each process.

pub mod alu;
pub mod emulator;
pub mod entropy;
pub mod instructions;
pub mod register;
