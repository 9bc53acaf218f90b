use vstd::prelude::*;

pub mod ast;
pub mod backend;
pub mod lines;
pub mod symbols;
pub mod text;

verus! {

/// Undeclared variable access error.
#[derive(Debug)]
pub struct UndeclaredVariableError<'a> {
    /// Name of the variable.
    pub name: &'a str,
    /// Byte offset into the input Instant program.
    pub byte_offset: usize,
}

/// What an [`UndeclaredVariableError`] says: the characters of the name and
/// the byte offset of the access.
pub struct UndeclaredVariable {
    pub name: Seq<char>,
    pub byte_offset: usize,
}

impl<'a> View for UndeclaredVariableError<'a> {
    type V = UndeclaredVariable;

    open spec fn view(&self) -> UndeclaredVariable {
        UndeclaredVariable { name: self.name@, byte_offset: self.byte_offset }
    }
}

} // verus!
