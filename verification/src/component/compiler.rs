//! Where the functions that component compilation generates are located.
//!
//! The compiler that produces these descriptions (the `ComponentCompiler`
//! interface, which compiles lowered trampolines and always-trap functions
//! and emits them into an object file) has no body of its own to verify, and
//! works on components, their types and object files, which this crate does
//! not define; so it is not part of this crate.

use vstd::prelude::*;

verus! {

/// Description of where a trampoline is located in the text section of a
/// compiled image.
#[derive(Debug, Clone, Copy, PartialEq, Eq, Structural)]
pub struct FunctionInfo {
    /// The byte offset from the start of the text section where this trampoline
    /// starts.
    pub start: u32,
    /// The byte length of this trampoline's function body.
    pub length: u32,
}

/// Description of an "always trap" function generated by
/// `ComponentCompiler::compile_always_trap`.
#[derive(Debug, Clone, Copy, PartialEq, Eq, Structural)]
pub struct AlwaysTrapInfo {
    /// Information about the extent of this generated function.
    pub info: FunctionInfo,
    /// The offset from `start` of where the trapping instruction is located.
    pub trap_offset: u32,
}

} // verus!
