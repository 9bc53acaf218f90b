use crate::ast::{declared_names, first_undeclared, lemma_first_undeclared_prefix, Exp, Op, Stmt};
use crate::backend::Backend;
use crate::symbols::SymbolTable;
use crate::text::{decimal, push_decimal, push_signed_decimal, signed_decimal, Render};
use crate::UndeclaredVariableError;
use vstd::prelude::*;

verus! {

/// An instruction of the stack machine.
#[derive(Debug, PartialEq, Eq)]
pub enum Instruction {
    GetPrintStream,
    Swap,
    Println,
    IStore(usize),
    Push(i32),
    ILoad(usize),
    BinOp(Op),
}

impl Render for Instruction {
    /// The line of assembler text of the instruction. Stores and loads have a
    /// short form for slots 0 to 3; a constant is pushed by the shortest of
    /// four forms that holds it, the two-byte form giving the high byte before
    /// the low byte.
    open spec fn text(&self) -> Seq<char> {
        match *self {
            Instruction::GetPrintStream => "getstatic java/lang/System/out Ljava/io/PrintStream;"@,
            Instruction::Swap => "swap"@,
            Instruction::Println => "invokevirtual java/io/PrintStream/println(I)V"@,
            Instruction::IStore(slot) => if slot <= 3 {
                "istore_"@ + decimal(slot as nat)
            } else {
                "istore "@ + decimal(slot as nat)
            },
            Instruction::Push(value) => if 0 <= value <= 5 {
                "iconst_"@ + decimal(value as nat)
            } else if 6 <= value <= 127 {
                "bipush "@ + decimal(value as nat)
            } else if 128 <= value <= 32767 {
                "sipush "@ + decimal((value / 256) as nat) + " "@ + decimal((value % 256) as nat)
            } else {
                "ldc "@ + signed_decimal(value as int)
            },
            Instruction::ILoad(slot) => if slot <= 3 {
                "iload_"@ + decimal(slot as nat)
            } else {
                "iload "@ + decimal(slot as nat)
            },
            Instruction::BinOp(Op::Add) => "iadd"@,
            Instruction::BinOp(Op::Div) => "idiv"@,
            Instruction::BinOp(Op::Mul) => "imul"@,
            Instruction::BinOp(Op::Sub) => "isub"@,
        }
    }

    /// Renders the instruction as a line of assembler text.
    fn to_string(&self) -> (s: String) {
        let mut s = String::new();
        match self {
            Instruction::GetPrintStream => {
                s.append("getstatic java/lang/System/out Ljava/io/PrintStream;");
            },
            Instruction::Swap => {
                s.append("swap");
            },
            Instruction::Println => {
                s.append("invokevirtual java/io/PrintStream/println(I)V");
            },
            Instruction::IStore(slot) => {
                if *slot <= 3 {
                    s.append("istore_");
                } else {
                    s.append("istore ");
                }
                push_decimal(&mut s, *slot as u64);
            },
            Instruction::Push(value) => {
                if 0 <= *value && *value <= 5 {
                    s.append("iconst_");
                    push_decimal(&mut s, *value as u64);
                } else if 6 <= *value && *value <= 127 {
                    s.append("bipush ");
                    push_decimal(&mut s, *value as u64);
                } else if 128 <= *value && *value <= 32767 {
                    let bits: u64 = *value as u64;
                    s.append("sipush ");
                    push_decimal(&mut s, bits / 256);
                    s.append(" ");
                    push_decimal(&mut s, bits % 256);
                } else {
                    s.append("ldc ");
                    push_signed_decimal(&mut s, *value);
                }
            },
            Instruction::ILoad(slot) => {
                if *slot <= 3 {
                    s.append("iload_");
                } else {
                    s.append("iload ");
                }
                push_decimal(&mut s, *slot as u64);
            },
            Instruction::BinOp(Op::Add) => {
                s.append("iadd");
            },
            Instruction::BinOp(Op::Div) => {
                s.append("idiv");
            },
            Instruction::BinOp(Op::Mul) => {
                s.append("imul");
            },
            Instruction::BinOp(Op::Sub) => {
                s.append("isub");
            },
        }
        assert(s@ =~= self.text());
        s
    }
}

/// The number of operand stack entries that the code of an expression needs:
/// one for a literal or a variable; for a binary expression one more than
/// either operand where both need the same, else what the deeper operand needs.
pub open spec fn depth<'a>(exp: Exp<'a>) -> nat
    decreases exp,
{
    match exp {
        Exp::Lit(_) => 1,
        Exp::Var { .. } => 1,
        Exp::Bi { lhs, op, rhs } => if depth(*rhs) == depth(*lhs) {
            depth(*rhs) + 1
        } else if depth(*rhs) > depth(*lhs) {
            depth(*rhs)
        } else {
            depth(*lhs)
        },
    }
}

/// The instructions that leave the value of an expression on the operand
/// stack, with each variable loaded from its slot in `locals`. The deeper
/// operand of a binary expression is evaluated first, the left one where
/// both are equally deep.
pub open spec fn code<'a>(exp: Exp<'a>, locals: Map<Seq<char>, usize>) -> Seq<Instruction>
    decreases exp,
{
    match exp {
        Exp::Lit(value) => seq![Instruction::Push(value)],
        Exp::Var { name, position } => seq![Instruction::ILoad(locals[name@])],
        Exp::Bi { lhs, op, rhs } => if depth(*rhs) > depth(*lhs) {
            if op.is_commutative() {
                code(*rhs, locals) + code(*lhs, locals) + seq![Instruction::BinOp(op)]
            } else {
                code(*rhs, locals) + code(*lhs, locals) + seq![
                    Instruction::Swap,
                    Instruction::BinOp(op),
                ]
            }
        } else {
            code(*lhs, locals) + code(*rhs, locals) + seq![Instruction::BinOp(op)]
        },
    }
}

/// The code of an expression has at least as many instructions as the
/// expression is deep, and ends in a push, a load or an operation.
pub proof fn lemma_code<'a>(exp: Exp<'a>, locals: Map<Seq<char>, usize>)
    ensures
        1 <= depth(exp) <= code(exp, locals).len(),
        code(exp, locals).last() is Push || code(exp, locals).last() is ILoad || code(
            exp,
            locals,
        ).last() is BinOp,
    decreases exp,
{
    match exp {
        Exp::Lit(_) => {},
        Exp::Var { .. } => {},
        Exp::Bi { lhs, op, rhs } => {
            lemma_code(*lhs, locals);
            lemma_code(*rhs, locals);
        },
    }
}

/// A literal compiles to one push of its value, of depth 1.
pub proof fn lemma_literal(value: i32, locals: Map<Seq<char>, usize>)
    ensures
        code(Exp::Lit(value), locals) == seq![Instruction::Push(value)],
        depth(Exp::Lit(value)) == 1,
{
}

/// The depth of a binary expression is the depth of its deeper operand, or
/// one more.
pub proof fn lemma_depth_bounds<'a>(lhs: Exp<'a>, op: Op, rhs: Exp<'a>)
    ensures
        ({
            let whole = depth(Exp::Bi { lhs: Box::new(lhs), op, rhs: Box::new(rhs) });
            let deeper = if depth(lhs) >= depth(rhs) {
                depth(lhs)
            } else {
                depth(rhs)
            };
            deeper <= whole <= deeper + 1
        }),
{
}

/// A swap stands before the operation of a binary expression exactly when the
/// operation is not commutative and the right operand is strictly deeper than
/// the left one. The code is then one instruction longer.
pub proof fn lemma_swap<'a>(lhs: Exp<'a>, op: Op, rhs: Exp<'a>, locals: Map<Seq<char>, usize>)
    ensures
        ({
            let all = code(Exp::Bi { lhs: Box::new(lhs), op, rhs: Box::new(rhs) }, locals);
            let operands = code(lhs, locals).len() + code(rhs, locals).len();
            &&& all.last() == Instruction::BinOp(op)
            &&& all[all.len() - 2] is Swap <==> !op.is_commutative() && depth(rhs) > depth(lhs)
            &&& all.len() == if !op.is_commutative() && depth(rhs) > depth(lhs) {
                operands + 2
            } else {
                operands + 1
            }
        }),
{
    lemma_code(lhs, locals);
    lemma_code(rhs, locals);
    let all = code(Exp::Bi { lhs: Box::new(lhs), op, rhs: Box::new(rhs) }, locals);
    if depth(rhs) > depth(lhs) {
        if op.is_commutative() {
            assert(all[all.len() - 2] == code(lhs, locals).last());
        }
    } else {
        assert(all[all.len() - 2] == code(rhs, locals).last());
    }
}

/// The code of an expression and the depth of operand stack that it needs.
#[derive(Debug)]
pub struct ProcessedExp {
    pub instructions: Vec<Instruction>,
    pub depth: usize,
}

/// Whether the slots of a binding table are the numbers from 1 to the number
/// of names, each given to one name.
pub open spec fn dense(locals: Map<Seq<char>, usize>) -> bool {
    &&& locals.dom().finite()
    &&& forall|name: Seq<char>| #[trigger]
        locals.dom().contains(name) ==> 1 <= locals[name] <= locals.dom().len()
    &&& forall|a: Seq<char>, b: Seq<char>|
        locals.dom().contains(a) && locals.dom().contains(b) && #[trigger] locals[a]
            == #[trigger] locals[b] ==> a == b
}

/// The slot that an assignment to `name` stores to: the slot that the name
/// has, or for a new name the next one after those in use.
pub open spec fn slot_for(locals: Map<Seq<char>, usize>, name: Seq<char>) -> usize {
    if locals.dom().contains(name) {
        locals[name]
    } else {
        (locals.dom().len() + 1) as usize
    }
}

/// The binding table after a statement: an assignment binds its target to
/// the slot that it stores to.
pub open spec fn locals_after<'a>(stmt: Stmt<'a>, locals: Map<Seq<char>, usize>) -> Map<
    Seq<char>,
    usize,
> {
    match stmt {
        Stmt::Ass { var, exp } => locals.insert(var@, slot_for(locals, var@)),
        Stmt::Exp(_) => locals,
    }
}

/// The instructions of a statement. A printed expression of depth 1 is
/// evaluated above the print stream; a deeper one is evaluated first and then
/// swapped with the stream. An assignment evaluates and stores.
pub open spec fn statement_code<'a>(stmt: Stmt<'a>, locals: Map<Seq<char>, usize>) -> Seq<
    Instruction,
> {
    match stmt {
        Stmt::Exp(exp) => if depth(exp) > 1 {
            code(exp, locals) + seq![
                Instruction::GetPrintStream,
                Instruction::Swap,
                Instruction::Println,
            ]
        } else {
            seq![Instruction::GetPrintStream] + code(exp, locals) + seq![Instruction::Println]
        },
        Stmt::Ass { var, exp } => code(exp, locals) + seq![
            Instruction::IStore(slot_for(locals, var@)),
        ],
    }
}

/// The depth of operand stack that a statement needs.
pub open spec fn statement_depth<'a>(stmt: Stmt<'a>) -> nat {
    match stmt {
        Stmt::Exp(exp) => if depth(exp) > 1 {
            depth(exp)
        } else {
            2
        },
        Stmt::Ass { var, exp } => depth(exp),
    }
}

/// An assignment to a name that has a slot stores to that slot and leaves
/// the table as it is, so a second assignment to a name stores where the first
/// did. An assignment to a new name stores to the slot after those in use,
/// which is slot 1 in an empty table. Either way the slots stay dense.
pub proof fn lemma_assignment_slot(locals: Map<Seq<char>, usize>, name: Seq<char>)
    requires
        dense(locals),
        locals.dom().len() < usize::MAX,
    ensures
        locals.dom().contains(name) ==> locals.insert(name, slot_for(locals, name)) == locals,
        !locals.dom().contains(name) ==> slot_for(locals, name) == locals.dom().len() + 1,
        locals == Map::<Seq<char>, usize>::empty() ==> slot_for(locals, name) == 1,
        slot_for(locals.insert(name, slot_for(locals, name)), name) == slot_for(locals, name),
        dense(locals.insert(name, slot_for(locals, name))),
{
    let after = locals.insert(name, slot_for(locals, name));
    if locals.dom().contains(name) {
        assert(after =~= locals);
    } else {
        assert(after.dom() =~= locals.dom().insert(name));
        assert forall|a: Seq<char>, b: Seq<char>|
            after.dom().contains(a) && after.dom().contains(b) && #[trigger] after[a]
                == #[trigger] after[b] implies a == b by {
            if a != name {
                assert(locals.dom().contains(a));
            }
            if b != name {
                assert(locals.dom().contains(b));
            }
        }
        assert forall|n: Seq<char>| #[trigger] after.dom().contains(n) implies 1 <= after[n]
            <= after.dom().len() by {
            if n != name {
                assert(locals.dom().contains(n));
            }
        }
    }
}

/// Backend for generating [Jasmin](https://jasmin.sourceforge.net/) from an Instant program.
pub struct JasminBackend {
    class_name: String,
}

impl JasminBackend {
    /// The name of the class that encapsulates the main function.
    pub closed spec fn class_name(&self) -> Seq<char> {
        self.class_name@
    }

    /// Creates a new instance of this struct.
    /// The given class name will be used to create the class encapsulating the main function.
    pub fn new(class_name: String) -> (backend: Self)
        ensures
            backend.class_name() == class_name@,
    {
        Self { class_name }
    }
}

/// What a [`JasminBuilder`] holds.
pub struct BuilderState {
    pub class_name: Seq<char>,
    pub stack_depth: usize,
    pub locals: Map<Seq<char>, usize>,
    pub instructions: Seq<Instruction>,
}

/// Collects the instructions of a program statement by statement.
pub struct JasminBuilder<'a> {
    class_name: String,
    stack_depth: usize,
    locals: SymbolTable<'a, usize>,
    instructions: Vec<Instruction>,
}

impl<'a> View for JasminBuilder<'a> {
    type V = BuilderState;

    closed spec fn view(&self) -> BuilderState {
        BuilderState {
            class_name: self.class_name@,
            stack_depth: self.stack_depth,
            locals: self.locals@,
            instructions: self.instructions@,
        }
    }
}

impl<'a> JasminBuilder<'a> {
    /// The invariant of the builder: the slots are dense, and every name in
    /// the table was stored to by an assignment among the instructions.
    pub closed spec fn wf(&self) -> bool {
        &&& self.locals.wf()
        &&& dense(self.locals@)
        &&& 2 * self.locals@.dom().len() <= self.instructions@.len()
    }

    /// The slots of a well-formed builder are dense, and there are at least
    /// two instructions for each of them.
    pub proof fn lemma_wf(&self)
        requires
            self.wf(),
        ensures
            dense(self@.locals),
            2 * self@.locals.dom().len() <= self@.instructions.len() <= usize::MAX,
    {
        assert(self.instructions@.len() == self.instructions.len());
    }

    /// A builder without locals and without instructions.
    pub fn new(class_name: String) -> (builder: Self)
        ensures
            builder.wf(),
            builder@ == (BuilderState {
                class_name: class_name@,
                stack_depth: 0,
                locals: Map::empty(),
                instructions: Seq::empty(),
            }),
    {
        Self { class_name, stack_depth: 0, locals: SymbolTable::new(), instructions: Vec::new() }
    }

    /// Compiles an expression against the locals of the builder, which stays
    /// as it is. Fails on the first access to a variable without a slot.
    pub fn process_exp(&self, exp: &Exp<'a>) -> (processed: Result<
        ProcessedExp,
        UndeclaredVariableError<'a>,
    >)
        requires
            self.wf(),
        ensures
            match processed {
                Ok(p) => {
                    &&& exp.first_undeclared(self@.locals.dom()) is None
                    &&& p.instructions@ == code(*exp, self@.locals)
                    &&& p.depth == depth(*exp)
                },
                Err(e) => exp.first_undeclared(self@.locals.dom()) == Some(e@),
            },
        decreases exp,
    {
        match exp {
            Exp::Lit(val) => {
                let mut instructions = Vec::new();
                instructions.push(Instruction::Push(*val));
                assert(instructions@ =~= code(*exp, self@.locals));
                Ok(ProcessedExp { instructions, depth: 1 })
            },
            Exp::Var { name, position } => {
                match self.locals.get(name) {
                    Some(slot) => {
                        let mut instructions = Vec::new();
                        instructions.push(Instruction::ILoad(slot));
                        assert(instructions@ =~= code(*exp, self@.locals));
                        Ok(ProcessedExp { instructions, depth: 1 })
                    },
                    None => Err(UndeclaredVariableError { name: *name, byte_offset: *position }),
                }
            },
            Exp::Bi { lhs, op, rhs } => {
                let mut lhs = match self.process_exp(lhs) {
                    Ok(p) => p,
                    Err(e) => {
                        return Err(e);
                    },
                };
                let mut rhs = match self.process_exp(rhs) {
                    Ok(p) => p,
                    Err(e) => {
                        return Err(e);
                    },
                };
                proof {
                    lemma_code(*exp, self@.locals);
                }
                if rhs.depth == lhs.depth {
                    lhs.instructions.append(&mut rhs.instructions);
                    lhs.instructions.push(Instruction::BinOp(*op));
                    assert(lhs.instructions@ =~= code(*exp, self@.locals));
                    assert(lhs.instructions.len() == lhs.instructions@.len());
                    Ok(ProcessedExp { instructions: lhs.instructions, depth: rhs.depth + 1 })
                } else if rhs.depth > lhs.depth {
                    rhs.instructions.append(&mut lhs.instructions);
                    if !op.commutative() {
                        rhs.instructions.push(Instruction::Swap);
                    }
                    rhs.instructions.push(Instruction::BinOp(*op));
                    assert(rhs.instructions@ =~= code(*exp, self@.locals));
                    Ok(ProcessedExp { instructions: rhs.instructions, depth: rhs.depth })
                } else {
                    lhs.instructions.append(&mut rhs.instructions);
                    lhs.instructions.push(Instruction::BinOp(*op));
                    assert(lhs.instructions@ =~= code(*exp, self@.locals));
                    Ok(ProcessedExp { instructions: lhs.instructions, depth: lhs.depth })
                }
            },
        }
    }

    /// Adds the instructions of a statement. An assignment to a new name
    /// gives the name the next slot. Where the expression of the statement
    /// accesses a variable without a slot, the builder stays as it is.
    pub fn add_stmt(&mut self, stmt: &Stmt<'a>) -> (added: Result<(), UndeclaredVariableError<'a>>)
        requires
            old(self).wf(),
        ensures
            final(self).wf(),
            match added {
                Ok(_) => {
                    &&& stmt.expression().first_undeclared(old(self)@.locals.dom()) is None
                    &&& final(self)@ == (BuilderState {
                        class_name: old(self)@.class_name,
                        stack_depth: if old(self)@.stack_depth >= statement_depth(*stmt) {
                            old(self)@.stack_depth
                        } else {
                            statement_depth(*stmt) as usize
                        },
                        locals: locals_after(*stmt, old(self)@.locals),
                        instructions: old(self)@.instructions + statement_code(
                            *stmt,
                            old(self)@.locals,
                        ),
                    })
                    &&& statement_depth(*stmt) <= usize::MAX
                },
                Err(e) => {
                    &&& stmt.expression().first_undeclared(old(self)@.locals.dom()) == Some(e@)
                    &&& final(self)@ == old(self)@
                },
            },
    {
        let depth = match stmt {
            Stmt::Exp(exp) => {
                let mut exp = match self.process_exp(exp) {
                    Ok(p) => p,
                    Err(e) => {
                        return Err(e);
                    },
                };
                if exp.depth > 1 {
                    self.instructions.append(&mut exp.instructions);
                    self.instructions.push(Instruction::GetPrintStream);
                    self.instructions.push(Instruction::Swap);
                    self.instructions.push(Instruction::Println);
                    assert(self.instructions@ =~= old(self).instructions@ + statement_code(
                        *stmt,
                        old(self)@.locals,
                    ));
                    exp.depth
                } else {
                    self.instructions.push(Instruction::GetPrintStream);
                    self.instructions.append(&mut exp.instructions);
                    self.instructions.push(Instruction::Println);
                    assert(self.instructions@ =~= old(self).instructions@ + statement_code(
                        *stmt,
                        old(self)@.locals,
                    ));
                    2
                }
            },
            Stmt::Ass { var, exp } => {
                let mut exp = match self.process_exp(exp) {
                    Ok(p) => p,
                    Err(e) => {
                        return Err(e);
                    },
                };
                proof {
                    assert(self.instructions@.len() == self.instructions.len());
                    lemma_assignment_slot(self.locals@, var@);
                }
                let next_local = self.locals.len() + 1;
                let slot = match self.locals.get(var) {
                    Some(slot) => slot,
                    None => {
                        self.locals.insert(*var, next_local);
                        next_local
                    },
                };
                self.instructions.append(&mut exp.instructions);
                self.instructions.push(Instruction::IStore(slot));
                assert(self.instructions@ =~= old(self).instructions@ + statement_code(
                    *stmt,
                    old(self)@.locals,
                ));
                exp.depth
            },
        };
        if depth > self.stack_depth {
            self.stack_depth = depth;
        }
        Ok(())
    }

    /// The unit that holds what the builder has collected: one local more
    /// than there are names, for the slot 0 that is kept free.
    pub fn build(self) -> (unit: Jasmin)
        requires
            self.wf(),
        ensures
            unit@ == (JasminUnit {
                class_name: self@.class_name,
                stack_limit: self@.stack_depth,
                locals: (self@.locals.dom().len() + 1) as usize,
                instructions: self@.instructions,
            }),
            unit@.locals == self@.locals.dom().len() + 1,
    {
        assert(self.instructions@.len() == self.instructions.len());
        let locals = self.locals.len() + 1;
        Jasmin {
            class_name: self.class_name,
            stack_limit: self.stack_depth,
            locals,
            instructions: self.instructions,
        }
    }
}

/// What a [`Jasmin`] unit holds.
pub struct JasminUnit {
    pub class_name: Seq<char>,
    pub stack_limit: usize,
    pub locals: usize,
    pub instructions: Seq<Instruction>,
}

/// The lines of a sequence of instructions, each ended by a line feed.
pub open spec fn lines(instructions: Seq<Instruction>) -> Seq<char>
    decreases instructions.len(),
{
    if instructions.len() == 0 {
        Seq::empty()
    } else {
        lines(instructions.drop_last()) + instructions.last().text() + "\n"@
    }
}

impl JasminUnit {
    /// The assembler text of the unit: the class with its constructor, then
    /// the main method with its limits and its instructions.
    pub open spec fn text(self) -> Seq<char> {
        ".source "@ + self.class_name + ".j\n\n.class public "@ + self.class_name
            + "\n\n.super java/lang/Object\n\n"@ + ".method public <init>()V\n"@
            + ".limit stack 1\n"@ + ".limit locals 1\n"@ + "aload_0\n"@
            + "invokenonvirtual java/lang/Object/<init>()V\n"@ + "return\n"@ + ".end method\n\n"@
            + ".method public static main([Ljava/lang/String;)V\n"@ + ".limit stack "@ + decimal(
            self.stack_limit as nat,
        ) + "\n.limit locals "@ + decimal(self.locals as nat) + "\n"@ + lines(self.instructions)
            + "return\n"@ + ".end method\n"@
    }
}

/// [Jasmin](https://jasmin.sourceforge.net/) representation of an Instant program.
pub struct Jasmin {
    class_name: String,
    stack_limit: usize,
    locals: usize,
    instructions: Vec<Instruction>,
}

impl View for Jasmin {
    type V = JasminUnit;

    closed spec fn view(&self) -> JasminUnit {
        JasminUnit {
            class_name: self.class_name@,
            stack_limit: self.stack_limit,
            locals: self.locals,
            instructions: self.instructions@,
        }
    }
}

impl Render for Jasmin {
    open spec fn text(&self) -> Seq<char> {
        self@.text()
    }

    /// Renders the unit as assembler text.
    fn to_string(&self) -> (s: String) {
        let mut s = String::new();
        s.append(".source ");
        s.append(self.class_name.as_str());
        s.append(".j\n\n.class public ");
        s.append(self.class_name.as_str());
        s.append("\n\n.super java/lang/Object\n\n");
        s.append(".method public <init>()V\n");
        s.append(".limit stack 1\n");
        s.append(".limit locals 1\n");
        s.append("aload_0\n");
        s.append("invokenonvirtual java/lang/Object/<init>()V\n");
        s.append("return\n");
        s.append(".end method\n\n");
        s.append(".method public static main([Ljava/lang/String;)V\n");
        s.append(".limit stack ");
        push_decimal(&mut s, self.stack_limit as u64);
        s.append("\n.limit locals ");
        push_decimal(&mut s, self.locals as u64);
        s.append("\n");
        let ghost head = s@;
        let mut i: usize = 0;
        while i < self.instructions.len()
            invariant
                i <= self.instructions@.len(),
                s@ == head + lines(self.instructions@.take(i as int)),
            decreases self.instructions@.len() - i,
        {
            let line = self.instructions[i].to_string();
            s.append(line.as_str());
            s.append("\n");
            proof {
                let done = self.instructions@.take(i + 1);
                assert(done.drop_last() =~= self.instructions@.take(i as int));
                assert(s@ =~= head + lines(done));
            }
            i += 1;
        }
        assert(self.instructions@.take(i as int) =~= self.instructions@);
        s.append("return\n");
        s.append(".end method\n");
        assert(s@ =~= self@.text());
        s
    }
}

/// The binding table after the statements of a program.
pub open spec fn program_locals<'a>(program: Seq<Stmt<'a>>) -> Map<Seq<char>, usize>
    decreases program.len(),
{
    if program.len() == 0 {
        Map::empty()
    } else {
        locals_after(program.last(), program_locals(program.drop_last()))
    }
}

/// The instructions of a program: those of its statements in order, each
/// compiled against the table that the statements before it leave.
pub open spec fn program_code<'a>(program: Seq<Stmt<'a>>) -> Seq<Instruction>
    decreases program.len(),
{
    if program.len() == 0 {
        Seq::empty()
    } else {
        program_code(program.drop_last()) + statement_code(
            program.last(),
            program_locals(program.drop_last()),
        )
    }
}

/// The depth of operand stack that a program needs: the largest depth of its
/// statements.
pub open spec fn program_depth<'a>(program: Seq<Stmt<'a>>) -> nat
    decreases program.len(),
{
    if program.len() == 0 {
        0
    } else if program_depth(program.drop_last()) >= statement_depth(program.last()) {
        program_depth(program.drop_last())
    } else {
        statement_depth(program.last())
    }
}

/// The unit that is generated for a program under a class name.
pub open spec fn program_unit<'a>(class_name: Seq<char>, program: Seq<Stmt<'a>>) -> JasminUnit {
    JasminUnit {
        class_name,
        stack_limit: program_depth(program) as usize,
        locals: (program_locals(program).dom().len() + 1) as usize,
        instructions: program_code(program),
    }
}

/// The names with a slot are the names that the program has assigned to.
pub proof fn lemma_program_locals<'a>(program: Seq<Stmt<'a>>)
    ensures
        program_locals(program).dom() == declared_names(program),
    decreases program.len(),
{
    if program.len() > 0 {
        lemma_program_locals(program.drop_last());
        assert(program_locals(program).dom() =~= declared_names(program));
    }
}

impl Backend for JasminBackend {
    type Representation = Jasmin;

    open spec fn generates<'a>(&self, program: Seq<Stmt<'a>>) -> Seq<char> {
        program_unit(self.class_name(), program).text()
    }

    fn process<'a>(&self, program: &[Stmt<'a>]) -> (result: Result<
        Jasmin,
        UndeclaredVariableError<'a>,
    >)
        ensures
            result matches Ok(unit) ==> {
                &&& unit@ == program_unit(self.class_name(), program@)
                &&& unit@.stack_limit == program_depth(program@)
                &&& unit@.locals == program_locals(program@).dom().len() + 1
            },
    {
        let mut builder = JasminBuilder::new(self.class_name.clone());
        let mut i: usize = 0;
        while i < program.len()
            invariant
                i <= program@.len(),
                builder.wf(),
                first_undeclared(program@.take(i as int)) is None,
                builder@ == (BuilderState {
                    class_name: self.class_name(),
                    stack_depth: program_depth(program@.take(i as int)) as usize,
                    locals: program_locals(program@.take(i as int)),
                    instructions: program_code(program@.take(i as int)),
                }),
                program_depth(program@.take(i as int)) <= usize::MAX,
            decreases program@.len() - i,
        {
            proof {
                let done = program@.take(i + 1);
                assert(done.drop_last() =~= program@.take(i as int));
                assert(done.last() == program@[i as int]);
                lemma_program_locals(program@.take(i as int));
            }
            match builder.add_stmt(&program[i]) {
                Ok(_) => {},
                Err(e) => {
                    proof {
                        lemma_first_undeclared_prefix(program@, i + 1);
                    }
                    return Err(e);
                },
            }
            i += 1;
        }
        assert(program@.take(i as int) =~= program@);
        Ok(builder.build())
    }
}

} // verus!
