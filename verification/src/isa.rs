//! Instruction set architectures.
//!
//! The ABI interfaces through which a backend lays out a function's frame
//! and lowers calls (`ABICallee`, `ABICaller`) are trait declarations,
//! without bodies, over the instruction, register, signature and
//! lowering-context types of the code generator's machine layer, which this
//! crate does not define; so they are not part of this crate.

pub mod riscv;
