//! RISC-V instruction set architecture.

pub mod settings;
