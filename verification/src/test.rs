//! Built-in sample programs for trying out the runtime.
pub mod test;
