//! Kinds of words the grammar expects.
use vstd::prelude::*;

verus! {

/// Used to specify expected kind of word
pub enum Words {
    Keyword,
    Operator,
    Value,
    Arguments,
    NewName,
    ExistingName,
    Code,
    Separator,
    Type,
}

/// Reads a word of one of the expected kinds (not written yet: does nothing).
pub fn get_word(expected_types: &Vec<Words>) {
}

} // verus!
