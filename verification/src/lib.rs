//! A headless simulation engine for a programming game: user programs run as
//! processes of a 16-bit virtual machine and meet the world through a kernel.

pub mod chance;
pub mod config;
pub mod game;
pub mod kernel;
pub mod vm;
