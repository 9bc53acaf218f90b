use crate::UndeclaredVariable;
use vstd::prelude::*;

verus! {

/// An integer literal that does not fit in an `i32`.
pub struct LiteralOutOfBoundsError<'a> {
    pub literal: &'a str,
    pub position: usize,
}

/// Binary operation on i32 values.
#[derive(Debug, Clone, Copy, PartialEq, Eq)]
pub enum Op {
    Add,
    Sub,
    Mul,
    Div,
}

/// i32 expression.
#[derive(Debug)]
pub enum Exp<'a> {
    /// i32 literal.
    Lit(i32),
    /// Variable access.
    Var {
        /// Name of the variable.
        name: &'a str,
        /// Byte offset into the parsed input.
        position: usize,
    },
    /// Binary expression.
    Bi { lhs: Box<Exp<'a>>, op: Op, rhs: Box<Exp<'a>> },
}

/// Statement.
#[derive(Debug)]
pub enum Stmt<'a> {
    /// Assignment to a variable.
    Ass { var: &'a str, exp: Exp<'a> },
    /// Expression.
    Exp(Exp<'a>),
}

impl Op {
    /// Whether the operands of the operation may change places.
    pub open spec fn is_commutative(self) -> bool {
        self == Op::Add || self == Op::Mul
    }

    /// Whether the operands of the operation may change places.
    pub fn commutative(self) -> (b: bool)
        ensures
            b == self.is_commutative(),
    {
        match self {
            Op::Add | Op::Mul => true,
            Op::Sub | Op::Div => false,
        }
    }
}

impl<'a> Exp<'a> {
    /// Whether the expression holds an access to `name` recorded at `position`.
    pub open spec fn mentions(self, name: Seq<char>, position: usize) -> bool
        decreases self,
    {
        match self {
            Exp::Lit(_) => false,
            Exp::Var { name: n, position: p } => n@ == name && p == position,
            Exp::Bi { lhs, op, rhs } => lhs.mentions(name, position) || rhs.mentions(
                name,
                position,
            ),
        }
    }

    /// The first access, going through the expression depth first and from
    /// left to right, to a variable that is not among `declared`.
    pub open spec fn first_undeclared(self, declared: Set<Seq<char>>) -> Option<
        UndeclaredVariable,
    >
        decreases self,
    {
        match self {
            Exp::Lit(_) => None,
            Exp::Var { name, position } => if declared.contains(name@) {
                None
            } else {
                Some(UndeclaredVariable { name: name@, byte_offset: position })
            },
            Exp::Bi { lhs, op, rhs } => match lhs.first_undeclared(declared) {
                Some(u) => Some(u),
                None => rhs.first_undeclared(declared),
            },
        }
    }
}

impl<'a> Stmt<'a> {
    /// The expression that the statement evaluates.
    pub open spec fn expression(self) -> Exp<'a> {
        match self {
            Stmt::Ass { var, exp } => exp,
            Stmt::Exp(exp) => exp,
        }
    }

    /// The names that are declared after the statement, given those declared
    /// before it.
    pub open spec fn declares(self, declared: Set<Seq<char>>) -> Set<Seq<char>> {
        match self {
            Stmt::Ass { var, exp } => declared.insert(var@),
            Stmt::Exp(_) => declared,
        }
    }
}

/// The names that a program has assigned to once all its statements have run.
pub open spec fn declared_names<'a>(program: Seq<Stmt<'a>>) -> Set<Seq<char>>
    decreases program.len(),
{
    if program.len() == 0 {
        Set::empty()
    } else {
        program.last().declares(declared_names(program.drop_last()))
    }
}

/// The first access in a program, in statement order, to a variable that no
/// earlier statement has assigned to. The expression of an assignment is
/// looked at before its target is declared.
pub open spec fn first_undeclared<'a>(program: Seq<Stmt<'a>>) -> Option<UndeclaredVariable>
    decreases program.len(),
{
    if program.len() == 0 {
        None
    } else {
        match first_undeclared(program.drop_last()) {
            Some(u) => Some(u),
            None => program.last().expression().first_undeclared(
                declared_names(program.drop_last()),
            ),
        }
    }
}

/// An access is reported exactly when the expression holds an access to a
/// variable that is not declared, however deep it lies; the access reported
/// is one that the expression holds, to a name that is not declared.
pub proof fn lemma_first_undeclared<'a>(exp: Exp<'a>, declared: Set<Seq<char>>)
    ensures
        exp.first_undeclared(declared) is Some <==> exists|name: Seq<char>, position: usize|
            #[trigger] exp.mentions(name, position) && !declared.contains(name),
        exp.first_undeclared(declared) matches Some(u) ==> exp.mentions(u.name, u.byte_offset)
            && !declared.contains(u.name),
    decreases exp,
{
    match exp {
        Exp::Lit(_) => {},
        Exp::Var { name, position } => {
            if !declared.contains(name@) {
                assert(exp.mentions(name@, position));
            }
        },
        Exp::Bi { lhs, op, rhs } => {
            lemma_first_undeclared(*lhs, declared);
            lemma_first_undeclared(*rhs, declared);
            if let Some(u) = exp.first_undeclared(declared) {
                assert(exp.mentions(u.name, u.byte_offset));
            }
            assert forall|name: Seq<char>, position: usize| #[trigger]
                exp.mentions(name, position) && !declared.contains(
                    name,
                ) implies exp.first_undeclared(declared) is Some by {
                if lhs.mentions(name, position) {
                } else {
                    assert(rhs.mentions(name, position));
                }
            }
        },
    }
}

/// An access that is reported for the first statements of a program is the
/// one reported for the whole program.
pub proof fn lemma_first_undeclared_prefix<'a>(program: Seq<Stmt<'a>>, n: int)
    requires
        0 <= n <= program.len(),
        first_undeclared(program.take(n)) is Some,
    ensures
        first_undeclared(program) == first_undeclared(program.take(n)),
    decreases program.len(),
{
    if n == program.len() {
        assert(program.take(n) =~= program);
    } else {
        assert(program.drop_last().take(n) =~= program.take(n));
        lemma_first_undeclared_prefix(program.drop_last(), n);
    }
}

} // verus!
