//! Values, instructions and execution state of the bytecode runtime.
pub mod runtime_types;
