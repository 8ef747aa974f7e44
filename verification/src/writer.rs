//! Serialising compiled programs to text.
pub mod writer;
