//! Compilation of components.

pub mod compiler;
