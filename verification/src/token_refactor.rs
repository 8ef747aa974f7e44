//! Second pass over the tokens of a source file.
pub mod parse_err;
pub mod refactorer;
