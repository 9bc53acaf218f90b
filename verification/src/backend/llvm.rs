use crate::ast::{declared_names, first_undeclared, lemma_first_undeclared_prefix, Exp, Op, Stmt};
use crate::backend::Backend;
use crate::symbols::SymbolTable;
use crate::text::{decimal, push_decimal, push_signed_decimal, signed_decimal, Render};
use crate::{UndeclaredVariable, UndeclaredVariableError};
use vstd::prelude::*;

verus! {

/// Where the value of an expression is: in a virtual register, or nowhere but
/// in the instruction that uses it.
#[derive(Debug, Clone, Copy)]
pub enum Location {
    Register(usize),
    Immediate(i32),
}

impl Location {
    /// Appends the operand text of the location to `out`.
    fn push_to(&self, out: &mut String)
        ensures
            final(out)@ == old(out)@ + self.text(),
    {
        match self {
            Location::Register(num) => {
                out.append("%t");
                push_decimal(out, *num as u64);
            },
            Location::Immediate(val) => {
                push_signed_decimal(out, *val);
            },
        }
        assert(out@ =~= old(out)@ + self.text());
    }

}

impl Render for Location {
    /// The operand text of the location.
    open spec fn text(&self) -> Seq<char> {
        match *self {
            Location::Register(num) => "%t"@ + decimal(num as nat),
            Location::Immediate(val) => signed_decimal(val as int),
        }
    }

    /// Renders the location as an operand.
    fn to_string(&self) -> (s: String) {
        let mut s = String::new();
        self.push_to(&mut s);
        assert(s@ =~= self.text());
        s
    }
}

/// An instruction of the register machine.
#[derive(Debug)]
pub enum Instruction {
    Print(Location),
    Bin { lhs: Location, op: Op, rhs: Location, dst: Location },
}

/// The mnemonic of an operation.
pub open spec fn mnemonic(op: Op) -> Seq<char> {
    match op {
        Op::Add => "add"@,
        Op::Sub => "sub"@,
        Op::Mul => "mul"@,
        Op::Div => "sdiv"@,
    }
}

impl Render for Instruction {
    /// The text of the instruction, without indentation.
    open spec fn text(&self) -> Seq<char> {
        match *self {
            Instruction::Print(loc) => "call void @printInt(i32 "@ + loc.text() + ")"@,
            Instruction::Bin { lhs, op, rhs, dst } => dst.text() + " = "@ + mnemonic(op)
                + " i32 "@ + lhs.text() + ", "@ + rhs.text(),
        }
    }

    /// Renders the instruction as text.
    fn to_string(&self) -> (s: String) {
        let mut s = String::new();
        match self {
            Instruction::Print(loc) => {
                s.append("call void @printInt(i32 ");
                loc.push_to(&mut s);
                s.append(")");
            },
            Instruction::Bin { lhs, op, rhs, dst } => {
                dst.push_to(&mut s);
                s.append(" = ");
                match op {
                    Op::Add => {
                        s.append("add");
                    },
                    Op::Sub => {
                        s.append("sub");
                    },
                    Op::Mul => {
                        s.append("mul");
                    },
                    Op::Div => {
                        s.append("sdiv");
                    },
                }
                s.append(" i32 ");
                lhs.push_to(&mut s);
                s.append(", ");
                rhs.push_to(&mut s);
            },
        }
        assert(s@ =~= self.text());
        s
    }
}

/// What the compilation of an expression emits and where it leaves the
/// value, or the access that stopped it.
pub struct Emitted {
    pub code: Seq<Instruction>,
    pub result: Result<Location, UndeclaredVariable>,
}

/// The compilation of an expression against the bindings `variables`, with
/// `next` the number of the first free register. A literal is an immediate
/// and a variable is the location bound to it; neither emits anything. A
/// binary expression emits what its left operand emits, then what its right
/// operand emits, then one instruction whose destination is the next free
/// register. Each instruction takes one register. Compilation stops at the
/// first access to a variable without a binding, keeping what was emitted.
pub open spec fn emit<'a>(exp: Exp<'a>, variables: Map<Seq<char>, Location>, next: nat) -> Emitted
    decreases exp,
{
    match exp {
        Exp::Lit(val) => Emitted { code: Seq::empty(), result: Ok(Location::Immediate(val)) },
        Exp::Var { name, position } => Emitted {
            code: Seq::empty(),
            result: if variables.dom().contains(name@) {
                Ok(variables[name@])
            } else {
                Err(UndeclaredVariable { name: name@, byte_offset: position })
            },
        },
        Exp::Bi { lhs, op, rhs } => {
            let left = emit(*lhs, variables, next);
            match left.result {
                Err(u) => left,
                Ok(l) => {
                    let right = emit(*rhs, variables, next + left.code.len());
                    match right.result {
                        Err(u) => Emitted { code: left.code + right.code, result: Err(u) },
                        Ok(r) => {
                            let dst = Location::Register(
                                (next + left.code.len() + right.code.len()) as usize,
                            );
                            Emitted {
                                code: left.code + right.code + seq![
                                    Instruction::Bin { lhs: l, op, rhs: r, dst },
                                ],
                                result: Ok(dst),
                            }
                        },
                    }
                },
            }
        },
    }
}

/// Compilation stops exactly at the first access to a variable without a
/// binding, whatever register comes next.
pub proof fn lemma_emit_undeclared<'a>(
    exp: Exp<'a>,
    variables: Map<Seq<char>, Location>,
    next: nat,
)
    ensures
        match emit(exp, variables, next).result {
            Ok(_) => exp.first_undeclared(variables.dom()) is None,
            Err(u) => exp.first_undeclared(variables.dom()) == Some(u),
        },
    decreases exp,
{
    match exp {
        Exp::Lit(_) => {},
        Exp::Var { .. } => {},
        Exp::Bi { lhs, op, rhs } => {
            lemma_emit_undeclared(*lhs, variables, next);
            let left = emit(*lhs, variables, next);
            lemma_emit_undeclared(*rhs, variables, next + left.code.len());
        },
    }
}

/// Whether an instruction is a binary instruction whose destination is the
/// register of the given number.
pub open spec fn writes(instruction: Instruction, register: int) -> bool {
    instruction is Bin && instruction->dst == Location::Register(register as usize)
}

/// Every instruction that an expression emits is a binary instruction, and
/// their destinations are the registers from `next` on, one after the other.
/// A binary expression that compiles leaves its value in the last of them.
pub proof fn lemma_emit_registers<'a>(
    exp: Exp<'a>,
    variables: Map<Seq<char>, Location>,
    next: nat,
)
    ensures
        forall|j: int|
            0 <= j < emit(exp, variables, next).code.len() ==> writes(
                #[trigger] emit(exp, variables, next).code[j],
                next + j,
            ),
        exp is Bi && emit(exp, variables, next).result is Ok ==> emit(exp, variables, next).result
            == Ok::<Location, UndeclaredVariable>(
            Location::Register((next + emit(exp, variables, next).code.len() - 1) as usize),
        ),
    decreases exp,
{
    match exp {
        Exp::Lit(_) => {},
        Exp::Var { .. } => {},
        Exp::Bi { lhs, op, rhs } => {
            let left = emit(*lhs, variables, next);
            lemma_emit_registers(*lhs, variables, next);
            lemma_emit_registers(*rhs, variables, next + left.code.len());
        },
    }
}

/// A literal is an immediate operand, and nothing is emitted for it.
pub proof fn lemma_literal(val: i32, variables: Map<Seq<char>, Location>, next: nat)
    ensures
        emit(Exp::Lit(val), variables, next).code == Seq::<Instruction>::empty(),
        emit(Exp::Lit(val), variables, next).result == Ok::<Location, UndeclaredVariable>(
            Location::Immediate(val),
        ),
{
}

/// Backend for generating LLVM IR from an Instant program.
#[derive(Default)]
pub struct LLVMBackend;

/// What an [`LLVMIrBuilder`] holds.
pub struct BuilderState {
    pub variables: Map<Seq<char>, Location>,
    pub next_register: usize,
    pub instructions: Seq<Instruction>,
}

/// Collects the instructions of a program statement by statement.
pub struct LLVMIrBuilder<'a> {
    variables: SymbolTable<'a, Location>,
    next_register: usize,
    instructions: Vec<Instruction>,
}

impl<'a> View for LLVMIrBuilder<'a> {
    type V = BuilderState;

    closed spec fn view(&self) -> BuilderState {
        BuilderState {
            variables: self.variables@,
            next_register: self.next_register,
            instructions: self.instructions@,
        }
    }
}

impl<'a> Default for LLVMIrBuilder<'a> {
    /// A builder without bindings and without instructions, whose first
    /// register is number 0.
    fn default() -> (builder: Self)
        ensures
            builder.wf(),
            builder@ == (BuilderState {
                variables: Map::empty(),
                next_register: 0,
                instructions: Seq::empty(),
            }),
    {
        LLVMIrBuilder { variables: SymbolTable::new(), next_register: 0, instructions: Vec::new() }
    }
}

impl<'a> LLVMIrBuilder<'a> {
    /// The invariant of the builder: every register in use is the
    /// destination of an instruction.
    pub closed spec fn wf(&self) -> bool {
        &&& self.variables.wf()
        &&& self.next_register <= self.instructions@.len()
    }

    /// Compiles an expression: appends what it emits, takes the registers
    /// for it, and returns where its value is. On an access to a variable
    /// without a binding, what was emitted before the access stays.
    pub fn add_exp(&mut self, exp: &Exp<'a>) -> (location: Result<
        Location,
        UndeclaredVariableError<'a>,
    >)
        requires
            old(self).wf(),
        ensures
            final(self).wf(),
            ({
                let emitted = emit(*exp, old(self)@.variables, old(self)@.next_register as nat);
                &&& final(self)@ == (BuilderState {
                    variables: old(self)@.variables,
                    next_register: (old(self)@.next_register + emitted.code.len()) as usize,
                    instructions: old(self)@.instructions + emitted.code,
                })
                &&& old(self)@.next_register + emitted.code.len() <= usize::MAX
                &&& match location {
                    Ok(loc) => {
                        &&& emitted.result == Ok::<Location, UndeclaredVariable>(loc)
                        &&& exp.first_undeclared(old(self)@.variables.dom()) is None
                    },
                    Err(e) => {
                        &&& emitted.result == Err::<Location, UndeclaredVariable>(e@)
                        &&& exp.first_undeclared(old(self)@.variables.dom()) == Some(e@)
                    },
                }
            }),
        decreases exp,
    {
        proof {
            assert(self.instructions@.len() == self.instructions.len());
            lemma_emit_undeclared(*exp, self@.variables, self@.next_register as nat);
        }
        match exp {
            Exp::Lit(val) => {
                assert(self.instructions@ =~= old(self).instructions@ + Seq::empty());
                Ok(Location::Immediate(*val))
            },
            Exp::Var { name, position } => {
                assert(self.instructions@ =~= old(self).instructions@ + Seq::empty());
                match self.variables.get(name) {
                    Some(loc) => Ok(loc),
                    None => Err(UndeclaredVariableError { name: *name, byte_offset: *position }),
                }
            },
            Exp::Bi { lhs, op, rhs } => {
                let ghost left = emit(**lhs, old(self)@.variables, old(self)@.next_register as nat);
                let lhs = match self.add_exp(lhs) {
                    Ok(loc) => loc,
                    Err(e) => {
                        return Err(e);
                    },
                };
                let ghost right = emit(**rhs, self@.variables, self@.next_register as nat);
                let rhs = match self.add_exp(rhs) {
                    Ok(loc) => loc,
                    Err(e) => {
                        assert(self.instructions@ =~= old(self).instructions@ + (left.code
                            + right.code));
                        return Err(e);
                    },
                };
                let dst_register = self.next_register;
                let dst = Location::Register(dst_register);
                self.instructions.push(Instruction::Bin { lhs, op: *op, rhs, dst });
                proof {
                    assert(self.instructions@.len() == self.instructions.len());
                }
                self.next_register += 1;
                assert(self.instructions@ =~= old(self).instructions@ + (left.code + right.code
                    + seq![Instruction::Bin { lhs, op: *op, rhs, dst }]));
                Ok(dst)
            },
        }
    }

    /// Compiles a statement. A print passes the location of its expression
    /// to the print function. An assignment emits nothing of its own: it
    /// binds its target to the location of the expression.
    pub fn add_stmt(&mut self, stmt: &Stmt<'a>) -> (added: Result<(), UndeclaredVariableError<'a>>)
        requires
            old(self).wf(),
        ensures
            final(self).wf(),
            match added {
                Ok(_) => {
                    &&& stmt.expression().first_undeclared(old(self)@.variables.dom()) is None
                    &&& final(self)@ == state_after(*stmt, old(self)@)
                    &&& final(self)@.next_register == old(self)@.next_register + emit(
                        stmt.expression(),
                        old(self)@.variables,
                        old(self)@.next_register as nat,
                    ).code.len()
                },
                Err(e) => {
                    let emitted = emit(
                        stmt.expression(),
                        old(self)@.variables,
                        old(self)@.next_register as nat,
                    );
                    &&& stmt.expression().first_undeclared(old(self)@.variables.dom()) == Some(e@)
                    &&& final(self)@ == (BuilderState {
                        variables: old(self)@.variables,
                        next_register: (old(self)@.next_register + emitted.code.len()) as usize,
                        instructions: old(self)@.instructions + emitted.code,
                    })
                    &&& final(self)@.next_register == old(self)@.next_register
                        + emitted.code.len()
                },
            },
    {
        match stmt {
            Stmt::Exp(exp) => {
                let loc = match self.add_exp(exp) {
                    Ok(loc) => loc,
                    Err(e) => {
                        return Err(e);
                    },
                };
                self.instructions.push(Instruction::Print(loc));
                assert(self.instructions@ =~= state_after(*stmt, old(self)@).instructions);
            },
            Stmt::Ass { var, exp } => {
                let loc = match self.add_exp(exp) {
                    Ok(loc) => loc,
                    Err(e) => {
                        return Err(e);
                    },
                };
                self.variables.insert(*var, loc);
            },
        }
        Ok(())
    }

    /// The representation that holds the instructions of the builder.
    pub fn build(self) -> (ir: LLVMIr)
        ensures
            ir@ == self@.instructions,
    {
        LLVMIr { instructions: self.instructions }
    }
}

/// What a builder holds after a statement whose expression accesses no
/// variable without a binding.
pub open spec fn state_after<'a>(stmt: Stmt<'a>, state: BuilderState) -> BuilderState {
    let emitted = emit(stmt.expression(), state.variables, state.next_register as nat);
    BuilderState {
        variables: match stmt {
            Stmt::Ass { var, exp } => state.variables.insert(var@, emitted.result->Ok_0),
            Stmt::Exp(_) => state.variables,
        },
        next_register: (state.next_register + emitted.code.len()) as usize,
        instructions: match stmt {
            Stmt::Ass { var, exp } => state.instructions + emitted.code,
            Stmt::Exp(_) => state.instructions + emitted.code + seq![
                Instruction::Print(emitted.result->Ok_0),
            ],
        },
    }
}

/// What a builder holds after the statements of a program.
pub open spec fn program_state<'a>(program: Seq<Stmt<'a>>) -> BuilderState
    decreases program.len(),
{
    if program.len() == 0 {
        BuilderState { variables: Map::empty(), next_register: 0, instructions: Seq::empty() }
    } else {
        state_after(program.last(), program_state(program.drop_last()))
    }
}

/// The names with a binding are the names that the program has assigned to.
pub proof fn lemma_program_variables<'a>(program: Seq<Stmt<'a>>)
    ensures
        program_state(program).variables.dom() == declared_names(program),
    decreases program.len(),
{
    if program.len() > 0 {
        lemma_program_variables(program.drop_last());
        assert(program_state(program).variables.dom() =~= declared_names(program));
    }
}

/// The number of binary instructions among `instructions`.
pub open spec fn registers(instructions: Seq<Instruction>) -> nat
    decreases instructions.len(),
{
    if instructions.len() == 0 {
        0
    } else if instructions.last() is Bin {
        registers(instructions.drop_last()) + 1
    } else {
        registers(instructions.drop_last())
    }
}

/// Whether the destinations of the binary instructions are the registers
/// from 0 on, in the order of the instructions: each register is written
/// once, by the instruction that takes it.
pub open spec fn numbered(instructions: Seq<Instruction>) -> bool {
    forall|j: int|
        0 <= j < instructions.len() && (#[trigger] instructions[j]) is Bin ==> writes(
            instructions[j],
            registers(instructions.take(j)) as int,
        )
}

/// Appending binary instructions whose destinations go on from the number
/// of registers in use keeps the registers numbered.
proof fn lemma_numbered_append(instructions: Seq<Instruction>, emitted: Seq<Instruction>)
    requires
        numbered(instructions),
        forall|j: int|
            0 <= j < emitted.len() ==> writes(#[trigger] emitted[j], registers(instructions) + j),
    ensures
        numbered(instructions + emitted),
        registers(instructions + emitted) == registers(instructions) + emitted.len(),
    decreases emitted.len(),
{
    let all = instructions + emitted;
    if emitted.len() == 0 {
        assert(all =~= instructions);
    } else {
        let front = instructions + emitted.drop_last();
        assert forall|j: int| 0 <= j < emitted.drop_last().len() implies writes(
            #[trigger] emitted.drop_last()[j],
            registers(instructions) + j,
        ) by {
            assert(emitted.drop_last()[j] == emitted[j]);
        }
        lemma_numbered_append(instructions, emitted.drop_last());
        assert(all.drop_last() =~= front);
        assert(all.last() == emitted[emitted.len() - 1]);
        assert forall|j: int| 0 <= j < all.len() && (#[trigger] all[j]) is Bin implies writes(
            all[j],
            registers(all.take(j)) as int,
        ) by {
            if j < front.len() {
                assert(all[j] == front[j]);
                assert(all.take(j) =~= front.take(j));
            } else {
                assert(all.take(j) =~= front);
            }
        }
    }
}

/// Appending a print keeps the registers numbered.
proof fn lemma_numbered_print(instructions: Seq<Instruction>, loc: Location)
    requires
        numbered(instructions),
    ensures
        numbered(instructions.push(Instruction::Print(loc))),
        registers(instructions.push(Instruction::Print(loc))) == registers(instructions),
{
    let all = instructions.push(Instruction::Print(loc));
    assert(all.drop_last() =~= instructions);
    assert forall|j: int| 0 <= j < all.len() && (#[trigger] all[j]) is Bin implies writes(
        all[j],
        registers(all.take(j)) as int,
    ) by {
        if j < instructions.len() {
            assert(all[j] == instructions[j]);
            assert(all.take(j) =~= instructions.take(j));
        }
    }
}

/// In what is generated for a program no register is written twice: as long
/// as the register numbers fit, the binary instructions write the registers
/// from 0 on in their order, and the next free register is their number.
pub proof fn lemma_program_registers<'a>(program: Seq<Stmt<'a>>)
    requires
        program_state(program).instructions.len() <= usize::MAX,
    ensures
        numbered(program_state(program).instructions),
        program_state(program).next_register == registers(program_state(program).instructions),
    decreases program.len(),
{
    if program.len() > 0 {
        let before = program_state(program.drop_last());
        let emitted = emit(
            program.last().expression(),
            before.variables,
            before.next_register as nat,
        );
        lemma_program_registers(program.drop_last());
        lemma_emit_registers(
            program.last().expression(),
            before.variables,
            before.next_register as nat,
        );
        lemma_numbered_append(before.instructions, emitted.code);
        lemma_registers_bound(before.instructions + emitted.code);
        match program.last() {
            Stmt::Ass { .. } => {},
            Stmt::Exp(_) => {
                let print = Instruction::Print(emitted.result->Ok_0);
                lemma_numbered_print(before.instructions + emitted.code, emitted.result->Ok_0);
                assert(before.instructions + emitted.code + seq![print] =~= (before.instructions
                    + emitted.code).push(print));
            },
        }
    }
}

/// There are no more binary instructions than instructions.
proof fn lemma_registers_bound(instructions: Seq<Instruction>)
    ensures
        registers(instructions) <= instructions.len(),
    decreases instructions.len(),
{
    if instructions.len() > 0 {
        lemma_registers_bound(instructions.drop_last());
    }
}

/// The lines of a sequence of instructions, each after a tabulator and ended
/// by a line feed.
pub open spec fn lines(instructions: Seq<Instruction>) -> Seq<char>
    decreases instructions.len(),
{
    if instructions.len() == 0 {
        Seq::empty()
    } else {
        lines(instructions.drop_last()) + "\t"@ + instructions.last().text() + "\n"@
    }
}

/// The text of the module that holds `instructions`: the format string, the
/// declaration of the print function of the C library, the function that
/// prints an integer, and the main function with the instructions.
pub open spec fn module_text(instructions: Seq<Instruction>) -> Seq<char> {
    "@d = internal constant [4 x i8] c\"%d\\0A\\00\"\n\n"@ + "declare i32 @printf(i8*, ...)\n\n"@
        + "define void @printInt(i32 %x) {\n"@
        + "\t%t0 = getelementptr [4 x i8], [4 x i8]* @d, i32 0, i32 0\n"@
        + "\tcall i32 (i8*, ...) @printf(i8* %t0, i32 %x)\n"@ + "\tret void\n"@ + "}\n\n"@
        + "define i32 @main(i32 %argc, i8** %argv) {\n"@ + lines(instructions) + "\tret i32 0\n"@
        + "}\n"@
}

/// LLVM Intermediate Representation of an Instant program.
pub struct LLVMIr {
    instructions: Vec<Instruction>,
}

impl View for LLVMIr {
    type V = Seq<Instruction>;

    closed spec fn view(&self) -> Seq<Instruction> {
        self.instructions@
    }
}

impl Render for LLVMIr {
    open spec fn text(&self) -> Seq<char> {
        module_text(self@)
    }

    /// Renders the module as text.
    fn to_string(&self) -> (s: String) {
        let mut s = String::new();
        s.append("@d = internal constant [4 x i8] c\"%d\\0A\\00\"\n\n");
        s.append("declare i32 @printf(i8*, ...)\n\n");
        s.append("define void @printInt(i32 %x) {\n");
        s.append("\t%t0 = getelementptr [4 x i8], [4 x i8]* @d, i32 0, i32 0\n");
        s.append("\tcall i32 (i8*, ...) @printf(i8* %t0, i32 %x)\n");
        s.append("\tret void\n");
        s.append("}\n\n");
        s.append("define i32 @main(i32 %argc, i8** %argv) {\n");
        let ghost head = s@;
        let mut i: usize = 0;
        while i < self.instructions.len()
            invariant
                i <= self.instructions@.len(),
                s@ == head + lines(self.instructions@.take(i as int)),
            decreases self.instructions@.len() - i,
        {
            let line = self.instructions[i].to_string();
            s.append("\t");
            s.append(line.as_str());
            s.append("\n");
            proof {
                let done = self.instructions@.take(i + 1);
                assert(done.drop_last() =~= self.instructions@.take(i as int));
                assert(s@ =~= head + lines(done));
            }
            i += 1;
        }
        assert(self.instructions@.take(i as int) =~= self.instructions@);
        s.append("\tret i32 0\n");
        s.append("}\n");
        assert(s@ =~= module_text(self@));
        s
    }
}

impl Backend for LLVMBackend {
    type Representation = LLVMIr;

    open spec fn generates<'a>(&self, program: Seq<Stmt<'a>>) -> Seq<char> {
        module_text(program_state(program).instructions)
    }

    fn process<'a>(&self, program: &[Stmt<'a>]) -> (result: Result<
        LLVMIr,
        UndeclaredVariableError<'a>,
    >)
        ensures
            result matches Ok(ir) ==> ir@ == program_state(program@).instructions && ir@.len()
                <= usize::MAX,
    {
        let mut builder = LLVMIrBuilder::default();
        let mut i: usize = 0;
        while i < program.len()
            invariant
                i <= program@.len(),
                builder.wf(),
                first_undeclared(program@.take(i as int)) is None,
                builder@ == program_state(program@.take(i as int)),
            decreases program@.len() - i,
        {
            proof {
                let done = program@.take(i + 1);
                assert(done.drop_last() =~= program@.take(i as int));
                assert(done.last() == program@[i as int]);
                lemma_program_variables(program@.take(i as int));
            }
            match builder.add_stmt(&program[i]) {
                Ok(_) => {},
                Err(e) => {
                    proof {
                        lemma_first_undeclared_prefix(program@, i + 1);
                    }
                    return Err(e);
                },
            }
            i += 1;
        }
        assert(program@.take(i as int) =~= program@);
        let ir = builder.build();
        assert(ir.instructions@.len() == ir.instructions.len());
        Ok(ir)
    }
}

} // verus!
