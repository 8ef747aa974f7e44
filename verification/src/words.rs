//! DNDS Syntax specification
pub mod dictionary;
