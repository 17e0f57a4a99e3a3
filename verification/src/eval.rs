use vstd::prelude::*;
use vstd::math::abs;
use crate::ast::{Expr, Op};
use crate::errors::EvalError;

verus! {

/// Truncating integer division: the quotient of the magnitudes, with the
/// usual sign rule. This rounds toward zero, as `/` does on machine integers.
pub open spec fn trunc_div(a: int, b: int) -> int
    recommends
        b != 0,
{
    if (a < 0) == (b < 0) {
        (abs(a) / abs(b)) as int
    } else {
        -((abs(a) / abs(b)) as int)
    }
}

/// The remainder paired with `trunc_div`: its sign follows the dividend.
pub open spec fn trunc_rem(a: int, b: int) -> int
    recommends
        b != 0,
{
    if a < 0 {
        -((abs(a) % abs(b)) as int)
    } else {
        (abs(a) % abs(b)) as int
    }
}

/// Sign convention of the remainder: `trunc_div` and `trunc_rem` satisfy
/// the division identity, the remainder is smaller in magnitude than the
/// divisor, and a nonzero remainder takes the sign of the dividend.
pub proof fn lemma_trunc_div_rem(a: int, b: int)
    requires
        b != 0,
    ensures
        a == b * trunc_div(a, b) + trunc_rem(a, b),
        abs(trunc_rem(a, b)) < abs(b),
        trunc_rem(a, b) == 0 || ((trunc_rem(a, b) < 0) <==> (a < 0)),
{
    let q = trunc_div(a, b);
    let aa = abs(a) as int;
    let ab = abs(b) as int;
    let q0 = aa / ab;
    vstd::arithmetic::div_mod::lemma_fundamental_div_mod(aa, ab);
    vstd::arithmetic::div_mod::lemma_mod_bound(aa, ab);
    if (a < 0) == (b < 0) {
        if a < 0 {
            assert(b * q == -(ab * q0)) by (nonlinear_arith)
                requires
                    b == -ab,
                    q == q0,
            ;
        }
    } else {
        if a < 0 {
            assert(b * q == -(ab * q0)) by (nonlinear_arith)
                requires
                    b == ab,
                    q == -q0,
            ;
        } else {
            assert(b * q == ab * q0) by (nonlinear_arith)
                requires
                    b == -ab,
                    q == -q0,
            ;
        }
    }
}

/// The value of one binary operation on already-evaluated operands, or the
/// arithmetic failure it raises. Division and modulo by zero fail with
/// `DivisionByZero`; a result outside the 32-bit signed range fails with
/// `Overflow`. The remainder never overflows: even the minimum value
/// modulo -1 is 0.
pub open spec fn spec_apply(op: Op, l: i32, r: i32) -> Result<i32, EvalError> {
    match op {
        Op::Add => {
            if i32::MIN <= l + r <= i32::MAX {
                Ok((l + r) as i32)
            } else {
                Err(EvalError::Overflow)
            }
        },
        Op::Subtract => {
            if i32::MIN <= l - r <= i32::MAX {
                Ok((l - r) as i32)
            } else {
                Err(EvalError::Overflow)
            }
        },
        Op::Multiply => {
            if i32::MIN <= l * r <= i32::MAX {
                Ok((l * r) as i32)
            } else {
                Err(EvalError::Overflow)
            }
        },
        Op::Divide => {
            if r == 0 {
                Err(EvalError::DivisionByZero)
            } else if i32::MIN <= trunc_div(l as int, r as int) <= i32::MAX {
                Ok(trunc_div(l as int, r as int) as i32)
            } else {
                Err(EvalError::Overflow)
            }
        },
        Op::Modulo => {
            if r == 0 {
                Err(EvalError::DivisionByZero)
            } else {
                Ok(trunc_rem(l as int, r as int) as i32)
            }
        },
    }
}

/// The value of a whole tree: leaves evaluate to themselves, `UnaryMinus`
/// negates, `BinOp` applies `spec_apply` to the operand values. The left
/// operand is evaluated before the right one, and the first failure
/// propagates upward immediately.
pub open spec fn spec_eval(e: Expr) -> Result<i32, EvalError>
    decreases e,
{
    match e {
        Expr::Integer(v) => Ok(v),
        Expr::UnaryMinus(b) => {
            match spec_eval(*b) {
                Ok(v) => {
                    if v == i32::MIN {
                        Err(EvalError::Overflow)
                    } else {
                        Ok((-(v as int)) as i32)
                    }
                },
                Err(er) => Err(er),
            }
        },
        Expr::BinOp { lhs, op, rhs } => {
            match spec_eval(*lhs) {
                Ok(l) => {
                    match spec_eval(*rhs) {
                        Ok(r) => spec_apply(op, l, r),
                        Err(er) => Err(er),
                    }
                },
                Err(er) => Err(er),
            }
        },
    }
}

/// Applies one binary operator to two evaluated operands with checked
/// arithmetic, returning exactly what `spec_apply` states.
pub fn apply_op(op: Op, l: i32, r: i32) -> (res: Result<i32, EvalError>)
    ensures
        res == spec_apply(op, l, r),
{
    match op {
        Op::Add => {
            match l.checked_add(r) {
                Some(v) => Ok(v),
                None => Err(EvalError::Overflow),
            }
        },
        Op::Subtract => {
            match l.checked_sub(r) {
                Some(v) => Ok(v),
                None => Err(EvalError::Overflow),
            }
        },
        Op::Multiply => {
            match l.checked_mul(r) {
                Some(v) => Ok(v),
                None => Err(EvalError::Overflow),
            }
        },
        Op::Divide => {
            if r == 0 {
                Err(EvalError::DivisionByZero)
            } else {
                match l.checked_div(r) {
                    Some(q) => Ok(q),
                    None => Err(EvalError::Overflow),
                }
            }
        },
        Op::Modulo => {
            if r == 0 {
                Err(EvalError::DivisionByZero)
            } else if r == -1 {
                // The magnitude of any value is a multiple of 1, so the
                // remainder is 0; computing it this way also covers the one
                // operand pair the machine remainder cannot represent.
                Ok(0)
            } else {
                match l.checked_rem(r) {
                    Some(v) => Ok(v),
                    None => Err(EvalError::Overflow),
                }
            }
        },
    }
}

impl Expr {
    /// Reduces the tree to a single value, left operand before right one,
    /// with the first failure propagating upward immediately. Returns
    /// exactly what `spec_eval` states; in particular it never panics.
    pub fn eval(&self) -> (res: Result<i32, EvalError>)
        ensures
            res == spec_eval(*self),
        decreases self,
    {
        match self {
            Expr::Integer(v) => Ok(*v),
            Expr::UnaryMinus(b) => {
                match b.eval() {
                    Ok(v) => {
                        if v == i32::MIN {
                            Err(EvalError::Overflow)
                        } else {
                            Ok(-v)
                        }
                    },
                    Err(er) => Err(er),
                }
            },
            Expr::BinOp { lhs, op, rhs } => {
                match lhs.eval() {
                    Ok(l) => {
                        match rhs.eval() {
                            Ok(r) => apply_op(*op, l, r),
                            Err(er) => Err(er),
                        }
                    },
                    Err(er) => Err(er),
                }
            },
        }
    }
}

} // verus!
