//! Code-generator settings, component compilation metadata and value
//! generators for component-model tests, with their contracts proved by Verus.

pub mod text;
pub mod generators;
pub mod settings;
pub mod isa;
pub mod component;
