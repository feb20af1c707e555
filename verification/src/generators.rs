//! Generators of test inputs.

pub mod component_types;
