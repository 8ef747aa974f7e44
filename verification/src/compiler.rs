//! Identifier and keyword checks of the compiler front end.
pub mod compiler;
pub mod compiler_data;
