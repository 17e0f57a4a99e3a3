use vstd::prelude::*;

verus! {

/// What the recognizer was looking for at the offset where it failed.
#[derive(Clone, Copy, Debug, PartialEq, Eq, Structural)]
pub enum Expected {
    /// Anything that can start a token: a digit, an operator, a parenthesis,
    /// or whitespace.
    Token,
    /// An integer literal small enough for the 32-bit signed width.
    IntegerInRange,
    /// The start of a term: an integer literal, `(`, or a prefix `-`.
    Term,
    /// A closing parenthesis.
    CloseParen,
    /// Either an infix operator or the end of the input.
    OperatorOrEnd,
}

/// A grammar violation: the line does not match the expression grammar.
/// `off` is the byte offset at which recognition failed.
#[derive(Clone, Copy, Debug, PartialEq, Eq, Structural)]
pub struct SyntaxError {
    pub off: usize,
    pub expected: Expected,
}

/// An arithmetic failure while reducing a tree to a value.
#[derive(Clone, Copy, Debug, PartialEq, Eq, Structural)]
pub enum EvalError {
    /// The divisor of `/` or `%` evaluated to zero.
    DivisionByZero,
    /// A result fell outside the representable 32-bit signed range.
    Overflow,
}

/// Any failure of `parse_and_evaluate`: either the line does not match the
/// grammar, or its tree does not evaluate to a representable value.
#[derive(Clone, Copy, Debug, PartialEq, Eq, Structural)]
pub enum CoreError {
    Syntax(SyntaxError),
    Eval(EvalError),
}

} // verus!
