use crate::ast::{Exp, Stmt};
use crate::backend::jasmin::{
    code, depth, lemma_code, program_code, program_depth, program_locals, statement_code,
    statement_depth, Instruction,
};
use vstd::prelude::*;

verus! {

/// How many operands an instruction takes from the stack.
pub open spec fn takes(instruction: Instruction) -> int {
    match instruction {
        Instruction::GetPrintStream => 0,
        Instruction::Swap => 2,
        Instruction::Println => 2,
        Instruction::IStore(_) => 1,
        Instruction::Push(_) => 0,
        Instruction::ILoad(_) => 0,
        Instruction::BinOp(_) => 2,
    }
}

/// How many operands an instruction leaves on the stack.
pub open spec fn leaves(instruction: Instruction) -> int {
    match instruction {
        Instruction::GetPrintStream => 1,
        Instruction::Swap => 2,
        Instruction::Println => 0,
        Instruction::IStore(_) => 0,
        Instruction::Push(_) => 1,
        Instruction::ILoad(_) => 1,
        Instruction::BinOp(_) => 1,
    }
}

/// The height of the operand stack after a run of `code` that begins at
/// height `start`.
pub open spec fn height_after(code: Seq<Instruction>, start: int) -> int
    decreases code.len(),
{
    if code.len() == 0 {
        start
    } else {
        height_after(code.drop_last(), start) - takes(code.last()) + leaves(code.last())
    }
}

/// Whether in a run of `code` that begins at height `start` each instruction
/// finds the operands that it takes.
pub open spec fn runs(code: Seq<Instruction>, start: int) -> bool
    decreases code.len(),
{
    if code.len() == 0 {
        true
    } else {
        runs(code.drop_last(), start) && height_after(code.drop_last(), start) >= takes(
            code.last(),
        )
    }
}

/// The largest height that the operand stack has before, between and after
/// the instructions of a run of `code` that begins at height `start`.
pub open spec fn peak(code: Seq<Instruction>, start: int) -> int
    decreases code.len(),
{
    if code.len() == 0 {
        start
    } else if peak(code.drop_last(), start) >= height_after(code, start) {
        peak(code.drop_last(), start)
    } else {
        height_after(code, start)
    }
}

/// A run of one instruction.
proof fn lemma_one(instruction: Instruction, start: int)
    ensures
        height_after(seq![instruction], start) == start - takes(instruction) + leaves(instruction),
        runs(seq![instruction], start) == (start >= takes(instruction)),
        peak(seq![instruction], start) == if leaves(instruction) > takes(instruction) {
            start - takes(instruction) + leaves(instruction)
        } else {
            start
        },
{
    let one = seq![instruction];
    assert(one.drop_last() =~= Seq::<Instruction>::empty());
    assert(one.last() == instruction);
    assert(height_after(one.drop_last(), start) == start);
    assert(peak(one.drop_last(), start) == start);
    assert(runs(one.drop_last(), start));
}

/// A run of one sequence after another is the run of the first, then the run
/// of the second from the height that the first leaves.
proof fn lemma_concat(first: Seq<Instruction>, second: Seq<Instruction>, start: int)
    ensures
        height_after(first + second, start) == height_after(second, height_after(first, start)),
        runs(first + second, start) == (runs(first, start) && runs(
            second,
            height_after(first, start),
        )),
        peak(first + second, start) == if peak(first, start) >= peak(
            second,
            height_after(first, start),
        ) {
            peak(first, start)
        } else {
            peak(second, height_after(first, start))
        },
        peak(first, start) >= height_after(first, start),
        peak(first, start) >= start,
    decreases second.len(), first.len(),
{
    if first.len() > 0 {
        lemma_concat(first.drop_last(), Seq::<Instruction>::empty(), start);
        assert(first.drop_last() + Seq::<Instruction>::empty() =~= first.drop_last());
    }
    if second.len() == 0 {
        assert(first + second =~= first);
    } else {
        lemma_concat(first, second.drop_last(), start);
        assert((first + second).drop_last() =~= first + second.drop_last());
        assert((first + second).last() == second.last());
    }
}

/// The code of an expression finds its operands from whatever height it
/// starts at, leaves one operand more than it found, and raises the stack by
/// exactly the depth of the expression at its highest.
pub proof fn lemma_expression_stack<'a>(exp: Exp<'a>, locals: Map<Seq<char>, usize>, start: int)
    requires
        start >= 0,
    ensures
        runs(code(exp, locals), start),
        height_after(code(exp, locals), start) == start + 1,
        peak(code(exp, locals), start) == start + depth(exp),
    decreases exp,
{
    match exp {
        Exp::Lit(value) => {
            lemma_one(Instruction::Push(value), start);
        },
        Exp::Var { name, position } => {
            lemma_one(Instruction::ILoad(locals[name@]), start);
        },
        Exp::Bi { lhs, op, rhs } => {
            lemma_code(*lhs, locals);
            lemma_code(*rhs, locals);
            let (first, second) = if depth(*rhs) > depth(*lhs) {
                (*rhs, *lhs)
            } else {
                (*lhs, *rhs)
            };
            let a = code(first, locals);
            let b = code(second, locals);
            lemma_expression_stack(first, locals, start);
            lemma_expression_stack(second, locals, start + 1);
            lemma_concat(a, b, start);
            let operation = seq![Instruction::BinOp(op)];
            lemma_one(Instruction::BinOp(op), start + 2);
            if depth(*rhs) > depth(*lhs) && !op.is_commutative() {
                let swap = seq![Instruction::Swap];
                lemma_one(Instruction::Swap, start + 2);
                lemma_concat(swap, operation, start + 2);
                assert(swap + operation =~= seq![Instruction::Swap, Instruction::BinOp(op)]);
                lemma_concat(a + b, swap + operation, start);
            } else {
                lemma_concat(a + b, operation, start);
            }
        },
    }
}

/// The code of a statement runs on an empty operand stack and leaves it
/// empty; the highest that the stack gets is the depth of the statement.
pub proof fn lemma_statement_stack<'a>(stmt: Stmt<'a>, locals: Map<Seq<char>, usize>)
    ensures
        runs(statement_code(stmt, locals), 0),
        height_after(statement_code(stmt, locals), 0) == 0,
        peak(statement_code(stmt, locals), 0) == statement_depth(stmt),
{
    let stream = seq![Instruction::GetPrintStream];
    let swap = seq![Instruction::Swap];
    let print = seq![Instruction::Println];
    match stmt {
        Stmt::Exp(exp) => {
            lemma_code(exp, locals);
            if depth(exp) > 1 {
                let tail = seq![
                    Instruction::GetPrintStream,
                    Instruction::Swap,
                    Instruction::Println,
                ];
                lemma_expression_stack(exp, locals, 0);
                lemma_one(Instruction::GetPrintStream, 1);
                lemma_one(Instruction::Swap, 2);
                lemma_one(Instruction::Println, 2);
                lemma_concat(stream, swap, 1);
                lemma_concat(stream + swap, print, 1);
                assert(stream + swap + print =~= tail);
                lemma_concat(code(exp, locals), tail, 0);
            } else {
                lemma_one(Instruction::GetPrintStream, 0);
                lemma_expression_stack(exp, locals, 1);
                lemma_one(Instruction::Println, 2);
                lemma_concat(stream, code(exp, locals), 0);
                lemma_concat(stream + code(exp, locals), print, 0);
            }
        },
        Stmt::Ass { var, exp } => {
            let store = Instruction::IStore(crate::backend::jasmin::slot_for(locals, var@));
            lemma_code(exp, locals);
            lemma_expression_stack(exp, locals, 0);
            lemma_one(store, 1);
            lemma_concat(code(exp, locals), seq![store], 0);
        },
    }
}

/// The instructions of a program run on an empty operand stack and leave it
/// empty, and the highest that the stack gets is the depth of the program:
/// the stack limit that the generated unit declares is reached and never
/// passed.
pub proof fn lemma_program_stack<'a>(program: Seq<Stmt<'a>>)
    ensures
        runs(program_code(program), 0),
        height_after(program_code(program), 0) == 0,
        peak(program_code(program), 0) == program_depth(program),
    decreases program.len(),
{
    if program.len() > 0 {
        let front = program.drop_last();
        lemma_program_stack(front);
        lemma_statement_stack(program.last(), program_locals(front));
        lemma_concat(program_code(front), statement_code(program.last(), program_locals(front)), 0);
    }
}

} // verus!
