use vstd::prelude::*;

verus! {

/// A binary operator of the expression language.
#[derive(Clone, Copy, Debug, PartialEq, Eq, Structural)]
pub enum Op {
    Add,
    Subtract,
    Multiply,
    Divide,
    Modulo,
}

/// Precedence tier of a binary operator: the multiplicative operators bind
/// tighter than the additive ones. All binary operators are left-associative.
pub open spec fn prec(op: Op) -> int {
    match op {
        Op::Add => 1,
        Op::Subtract => 1,
        Op::Multiply => 2,
        Op::Divide => 2,
        Op::Modulo => 2,
    }
}

/// Executable precedence table, equal to the specification-level `prec`.
pub fn prec_of(op: Op) -> (p: u32)
    ensures
        p as int == prec(op),
{
    match op {
        Op::Add | Op::Subtract => 1,
        Op::Multiply | Op::Divide | Op::Modulo => 2,
    }
}

/// The expression tree: an integer leaf, a prefix negation, or a binary
/// operation owning both operands. Ownership of the children is exclusive,
/// so every tree is finite and acyclic by construction.
#[derive(Debug)]
pub enum Expr {
    Integer(i32),
    UnaryMinus(Box<Expr>),
    BinOp { lhs: Box<Expr>, op: Op, rhs: Box<Expr> },
}

/// Trees built by the parser carry only non-negative integer leaves: a
/// negative constant always appears as `UnaryMinus` around its magnitude.
pub open spec fn nonneg_literals(e: Expr) -> bool
    decreases e,
{
    match e {
        Expr::Integer(v) => v >= 0,
        Expr::UnaryMinus(b) => nonneg_literals(*b),
        Expr::BinOp { lhs, op: _, rhs } => nonneg_literals(*lhs) && nonneg_literals(*rhs),
    }
}

} // verus!
