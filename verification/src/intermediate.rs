//! Dictionaries of the names a program declares, and analysis errors.
pub mod dictionary;
pub mod declarations;
pub mod types;
pub mod signatures;
#[allow(non_snake_case)]
pub mod AnalyzationError;
