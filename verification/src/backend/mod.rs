pub mod jasmin;
pub mod llvm;
pub mod operand_stack;

use crate::ast::{first_undeclared, Stmt};
use crate::text::Render;
use crate::UndeclaredVariableError;
use vstd::prelude::*;

verus! {

/// Trait for generating a specific representation from an Instant program.
pub trait Backend {
    type Representation: Render;

    /// The text of the representation that this backend generates for a
    /// program in which every variable is assigned before it is accessed.
    spec fn generates<'a>(&self, program: Seq<Stmt<'a>>) -> Seq<char>;

    /// This method generates a specific representation of the given Instant
    /// program. It fails on the first access to a variable that no earlier
    /// statement has assigned, with the name and the byte offset of that
    /// access, and succeeds where there is no such access.
    fn process<'a>(&self, program: &[Stmt<'a>]) -> (result: Result<
        Self::Representation,
        UndeclaredVariableError<'a>,
    >)
        ensures
            match result {
                Ok(representation) => {
                    &&& first_undeclared(program@) is None
                    &&& representation.text() == self.generates(program@)
                },
                Err(error) => first_undeclared(program@) == Some(error@),
            },
    ;
}

/// Whether `result` is what the contract of [`Backend::process`] allows a
/// backend to return for a program.
pub open spec fn is_outcome<'a, B: Backend>(
    backend: &B,
    program: Seq<Stmt<'a>>,
    result: Result<B::Representation, UndeclaredVariableError<'a>>,
) -> bool {
    match result {
        Ok(representation) => {
            &&& first_undeclared(program) is None
            &&& representation.text() == backend.generates(program)
        },
        Err(error) => first_undeclared(program) == Some(error@),
    }
}

/// Generation is a function of the backend and the program: two runs of one
/// backend on one program both succeed with representations that render to
/// the same text, or both fail with the same name and byte offset.
pub proof fn lemma_process_deterministic<'a, B: Backend>(
    backend: &B,
    program: Seq<Stmt<'a>>,
    first: Result<B::Representation, UndeclaredVariableError<'a>>,
    second: Result<B::Representation, UndeclaredVariableError<'a>>,
)
    requires
        is_outcome(backend, program, first),
        is_outcome(backend, program, second),
    ensures
        match (first, second) {
            (Ok(a), Ok(b)) => a.text() == b.text(),
            (Err(a), Err(b)) => a@ == b@,
            _ => false,
        },
{
}

} // verus!
