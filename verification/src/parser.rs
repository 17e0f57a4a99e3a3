use vstd::prelude::*;
use vstd::string::StringSliceAdditionalSpecFns;
use crate::ast::{nonneg_literals, prec, prec_of, Expr, Op};
use crate::errors::{Expected, SyntaxError};
use crate::lexer::{spec_tokenize, tokenize, wf_toks, Tok, TokKind};

verus! {

/// How a specification-level parse can fail: with the syntax error the
/// caller sees, or with a violation of the parser's internal invariant that
/// token positions only move forward. The executable parser proves the
/// `Internal` case unreachable: all its contracts return plain syntax
/// errors.
#[derive(Clone, Copy, Debug, PartialEq, Eq, Structural)]
pub enum ParseFailure {
    Syntax(SyntaxError),
    Internal,
}

/// The byte offset reported for a failure at token position `i`: the offset
/// of that token, or the end of the line when the tokens are exhausted.
pub open spec fn off_at(toks: Seq<Tok>, i: nat, eof: nat) -> nat {
    if i < toks.len() {
        toks[i as int].off as nat
    } else {
        eof
    }
}

/// Parses one term at token position `i`: an integer literal, a
/// parenthesized expression, or a prefix `-` applied to a whole term (so
/// the prefix minus binds tighter than every infix operator).
pub open spec fn spec_parse_term(toks: Seq<Tok>, i: nat, eof: nat) -> Result<
    (Expr, int),
    ParseFailure,
>
    decreases toks.len() - i, 0int,
        when i <= toks.len()
{
    if i >= toks.len() {
        Err(ParseFailure::Syntax(SyntaxError { off: eof as usize, expected: Expected::Term }))
    } else {
        match toks[i as int].kind {
            TokKind::Number(v) => Ok((Expr::Integer(v), i + 1 as int)),
            TokKind::OpTok(Op::Subtract) => {
                match spec_parse_term(toks, i + 1, eof) {
                    Ok((e, j)) => Ok((Expr::UnaryMinus(Box::new(e)), j)),
                    Err(f) => Err(f),
                }
            },
            TokKind::OpTok(_) => {
                Err(
                    ParseFailure::Syntax(
                        SyntaxError { off: toks[i as int].off, expected: Expected::Term },
                    ),
                )
            },
            TokKind::LParen => {
                match spec_parse_expr(toks, i + 1, 1, eof) {
                    Ok((e, j)) => {
                        if 0 <= j < toks.len() && toks[j].kind == TokKind::RParen {
                            Ok((e, j + 1))
                        } else {
                            Err(
                                ParseFailure::Syntax(
                                    SyntaxError {
                                        off: off_at(toks, j as nat, eof) as usize,
                                        expected: Expected::CloseParen,
                                    },
                                ),
                            )
                        }
                    },
                    Err(f) => Err(f),
                }
            },
            TokKind::RParen => {
                Err(
                    ParseFailure::Syntax(
                        SyntaxError { off: toks[i as int].off, expected: Expected::Term },
                    ),
                )
            },
        }
    }
}

/// Parses a full expression at position `i`: one term, followed by infix
/// combinations of precedence at least `min_prec`.
pub open spec fn spec_parse_expr(toks: Seq<Tok>, i: nat, min_prec: int, eof: nat) -> Result<
    (Expr, int),
    ParseFailure,
>
    decreases toks.len() - i, 2int,
        when i <= toks.len()
{
    match spec_parse_term(toks, i, eof) {
        Ok((lhs, j)) => {
            if i < j <= toks.len() {
                spec_parse_binops(lhs, toks, j as nat, min_prec, eof)
            } else {
                Err(ParseFailure::Internal)
            }
        },
        Err(f) => Err(f),
    }
}

/// Repeatedly consumes an infix operator of precedence at least `min_prec`
/// together with its right operand — parsed one precedence level higher,
/// which makes equal-precedence chains left-associative — and folds the
/// results into `lhs`.
pub open spec fn spec_parse_binops(
    lhs: Expr,
    toks: Seq<Tok>,
    j: nat,
    min_prec: int,
    eof: nat,
) -> Result<(Expr, int), ParseFailure>
    decreases toks.len() - j, 1int,
        when j <= toks.len()
{
    if j >= toks.len() {
        Ok((lhs, j as int))
    } else {
        match toks[j as int].kind {
            TokKind::OpTok(op) => {
                if prec(op) >= min_prec {
                    match spec_parse_expr(toks, j + 1, prec(op) + 1, eof) {
                        Ok((rhs, k)) => {
                            if j < k <= toks.len() {
                                spec_parse_binops(
                                    Expr::BinOp { lhs: Box::new(lhs), op, rhs: Box::new(rhs) },
                                    toks,
                                    k as nat,
                                    min_prec,
                                    eof,
                                )
                            } else {
                                Err(ParseFailure::Internal)
                            }
                        },
                        Err(f) => Err(f),
                    }
                } else {
                    Ok((lhs, j as int))
                }
            },
            _ => Ok((lhs, j as int)),
        }
    }
}

/// Parses a whole token sequence as one expression; tokens trailing after a
/// complete expression are a syntax error and no tree is produced.
pub open spec fn spec_parse(toks: Seq<Tok>, eof: nat) -> Result<Expr, ParseFailure> {
    match spec_parse_expr(toks, 0, 1, eof) {
        Ok((e, j)) => {
            if j == toks.len() {
                Ok(e)
            } else {
                Err(
                    ParseFailure::Syntax(
                        SyntaxError {
                            off: off_at(toks, j as nat, eof) as usize,
                            expected: Expected::OperatorOrEnd,
                        },
                    ),
                )
            }
        },
        Err(f) => Err(f),
    }
}

/// Parses one term at token position `i`, returning exactly what
/// `spec_parse_term` states; on success the position strictly advances.
fn parse_term_at(toks: &Vec<Tok>, i: usize, eof: usize) -> (r: Result<(Expr, usize), SyntaxError>)
    requires
        i <= toks@.len(),
    ensures
        (match r {
            Ok(p) => spec_parse_term(toks@, i as nat, eof as nat) == Ok::<
                (Expr, int),
                ParseFailure,
            >((p.0, p.1 as int)) && i < p.1 <= toks@.len() && (wf_toks(toks@)
                ==> nonneg_literals(p.0)),
            Err(se) => spec_parse_term(toks@, i as nat, eof as nat) == Err::<
                (Expr, int),
                ParseFailure,
            >(ParseFailure::Syntax(se)),
        }),
    decreases toks@.len() - i, 0int,
{
    if i >= toks.len() {
        return Err(SyntaxError { off: eof, expected: Expected::Term });
    }
    let t = toks[i];
    match t.kind {
        TokKind::Number(v) => Ok((Expr::Integer(v), i + 1)),
        TokKind::OpTok(Op::Subtract) => {
            match parse_term_at(toks, i + 1, eof) {
                Ok((e, j)) => Ok((Expr::UnaryMinus(Box::new(e)), j)),
                Err(se) => Err(se),
            }
        },
        TokKind::OpTok(_) => Err(SyntaxError { off: t.off, expected: Expected::Term }),
        TokKind::LParen => {
            match parse_expr_at(toks, i + 1, 1, eof) {
                Ok((e, j)) => {
                    if j < toks.len() {
                        let t2 = toks[j];
                        match t2.kind {
                            TokKind::RParen => Ok((e, j + 1)),
                            _ => Err(SyntaxError { off: t2.off, expected: Expected::CloseParen }),
                        }
                    } else {
                        Err(SyntaxError { off: eof, expected: Expected::CloseParen })
                    }
                },
                Err(se) => Err(se),
            }
        },
        TokKind::RParen => Err(SyntaxError { off: t.off, expected: Expected::Term }),
    }
}

/// Parses an expression at position `i` with minimum operator precedence
/// `min_prec`, returning exactly what `spec_parse_expr` states.
fn parse_expr_at(toks: &Vec<Tok>, i: usize, min_prec: u32, eof: usize) -> (r: Result<
    (Expr, usize),
    SyntaxError,
>)
    requires
        i <= toks@.len(),
    ensures
        (match r {
            Ok(p) => spec_parse_expr(toks@, i as nat, min_prec as int, eof as nat) == Ok::<
                (Expr, int),
                ParseFailure,
            >((p.0, p.1 as int)) && i < p.1 <= toks@.len() && (wf_toks(toks@)
                ==> nonneg_literals(p.0)),
            Err(se) => spec_parse_expr(toks@, i as nat, min_prec as int, eof as nat) == Err::<
                (Expr, int),
                ParseFailure,
            >(ParseFailure::Syntax(se)),
        }),
    decreases toks@.len() - i, 2int,
{
    let first = parse_term_at(toks, i, eof);
    let (mut lhs, mut j) = match first {
        Ok(p) => p,
        Err(se) => {
            return Err(se);
        },
    };
    loop
        invariant
            i < j <= toks@.len(),
            wf_toks(toks@) ==> nonneg_literals(lhs),
            spec_parse_binops(lhs, toks@, j as nat, min_prec as int, eof as nat)
                == spec_parse_expr(toks@, i as nat, min_prec as int, eof as nat),
        decreases toks@.len() - j,
    {
        if j >= toks.len() {
            return Ok((lhs, j));
        }
        let t = toks[j];
        match t.kind {
            TokKind::OpTok(op) => {
                let p = prec_of(op);
                if p < min_prec {
                    return Ok((lhs, j));
                }
                match parse_expr_at(toks, j + 1, p + 1, eof) {
                    Ok((rhs, k)) => {
                        lhs = Expr::BinOp { lhs: Box::new(lhs), op, rhs: Box::new(rhs) };
                        j = k;
                    },
                    Err(se) => {
                        return Err(se);
                    },
                }
            },
            _ => {
                return Ok((lhs, j));
            },
        }
    }
}

/// Builds the expression tree for a token sequence, as `spec_parse` states:
/// the tokens must form exactly one expression, with nothing trailing.
/// `eof` is the byte length of the line, reported as the offset of failures
/// at the end of the input.
pub fn parse_expr(toks: &Vec<Tok>, eof: usize) -> (r: Result<Expr, SyntaxError>)
    ensures
        (match r {
            Ok(e) => spec_parse(toks@, eof as nat) == Ok::<Expr, ParseFailure>(e) && (wf_toks(
                toks@,
            ) ==> nonneg_literals(e)),
            Err(se) => spec_parse(toks@, eof as nat) == Err::<Expr, ParseFailure>(
                ParseFailure::Syntax(se),
            ),
        }),
{
    match parse_expr_at(toks, 0, 1, eof) {
        Ok((e, j)) => {
            if j == toks.len() {
                Ok(e)
            } else {
                let t = toks[j];
                Err(SyntaxError { off: t.off, expected: Expected::OperatorOrEnd })
            }
        },
        Err(se) => Err(se),
    }
}

/// The grammar recognizer: the entry point that turns one line of text into
/// an expression tree.
pub struct CalculatorParser;

impl CalculatorParser {
    /// Tokenizes and parses one line. Success, the tree, and the exact
    /// error are fixed by `spec_tokenize` and `spec_parse` on the line's
    /// bytes; no tree is produced for a malformed line.
    pub fn parse(line: &str) -> (r: Result<Expr, SyntaxError>)
        ensures
            r matches Ok(e) ==> nonneg_literals(e),
            (match spec_tokenize(line.spec_bytes(), 0) {
                Ok(ts) => (match r {
                    Ok(e) => spec_parse(ts, line.spec_bytes().len()) == Ok::<Expr, ParseFailure>(
                        e,
                    ),
                    Err(se) => spec_parse(ts, line.spec_bytes().len()) == Err::<
                        Expr,
                        ParseFailure,
                    >(ParseFailure::Syntax(se)),
                }),
                Err(se) => r == Err::<Expr, SyntaxError>(se),
            }),
    {
        let bytes = line.as_bytes();
        let n = bytes.len();
        match tokenize(bytes) {
            Ok(toks) => parse_expr(&toks, n),
            Err(se) => Err(se),
        }
    }
}

/// The operand of a prefix minus is exactly one term, never an infix
/// combination: unary minus binds tighter than every binary operator.
pub proof fn lemma_unary_minus_binds_tighter(toks: Seq<Tok>, i: nat, eof: nat)
    requires
        i < toks.len(),
        toks[i as int].kind == TokKind::OpTok(Op::Subtract),
    ensures
        spec_parse_term(toks, i, eof) == (match spec_parse_term(toks, i + 1, eof) {
            Ok(p) => Ok::<(Expr, int), ParseFailure>((Expr::UnaryMinus(Box::new(p.0)), p.1)),
            Err(f) => Err::<(Expr, int), ParseFailure>(f),
        }),
{
}

/// Precedence and left-associativity: when a whole line consists of three
/// terms joined by two operators, the operator of higher precedence binds
/// its operands first, and of two operators of equal precedence the left
/// one does.
pub proof fn lemma_precedence_and_associativity(
    toks: Seq<Tok>,
    eof: nat,
    a: Expr,
    b: Expr,
    c: Expr,
    op1: Op,
    op2: Op,
    j1: nat,
    j2: nat,
)
    requires
        spec_parse_term(toks, 0, eof) == Ok::<(Expr, int), ParseFailure>((a, j1 as int)),
        spec_parse_term(toks, j1 + 1, eof) == Ok::<(Expr, int), ParseFailure>((b, j2 as int)),
        spec_parse_term(toks, j2 + 1, eof) == Ok::<(Expr, int), ParseFailure>(
            (c, toks.len() as int),
        ),
        0 < j1 < toks.len(),
        j1 + 1 < j2 < toks.len(),
        j2 + 1 < toks.len(),
        toks[j1 as int].kind == TokKind::OpTok(op1),
        toks[j2 as int].kind == TokKind::OpTok(op2),
    ensures
        spec_parse(toks, eof) == Ok::<Expr, ParseFailure>(
            if prec(op1) < prec(op2) {
                (Expr::BinOp {
                    lhs: Box::new(a),
                    op: op1,
                    rhs: Box::new(
                        Expr::BinOp { lhs: Box::new(b), op: op2, rhs: Box::new(c) },
                    ),
                })
            } else {
                (Expr::BinOp {
                    lhs: Box::new(
                        Expr::BinOp { lhs: Box::new(a), op: op1, rhs: Box::new(b) },
                    ),
                    op: op2,
                    rhs: Box::new(c),
                })
            },
        ),
{
    let p1 = prec(op1);
    let p2 = prec(op2);
    assert(1 <= p1 <= 2 && 1 <= p2 <= 2);
    let n = toks.len();
    // The last term is followed by nothing, so climbing stops after it.
    assert(spec_parse_binops(c, toks, n, p2 + 1, eof) == Ok::<(Expr, int), ParseFailure>(
        (c, n as int),
    ));
    assert(spec_parse_expr(toks, j2 + 1, p2 + 1, eof) == Ok::<(Expr, int), ParseFailure>(
        (c, n as int),
    ));
    if p1 < p2 {
        let bc = Expr::BinOp { lhs: Box::new(b), op: op2, rhs: Box::new(c) };
        assert(spec_parse_binops(bc, toks, n, p1 + 1, eof) == Ok::<(Expr, int), ParseFailure>(
            (bc, n as int),
        ));
        assert(spec_parse_binops(b, toks, j2, p1 + 1, eof) == Ok::<(Expr, int), ParseFailure>(
            (bc, n as int),
        ));
        assert(spec_parse_expr(toks, j1 + 1, p1 + 1, eof) == Ok::<(Expr, int), ParseFailure>(
            (bc, n as int),
        ));
        let abc = Expr::BinOp { lhs: Box::new(a), op: op1, rhs: Box::new(bc) };
        assert(spec_parse_binops(abc, toks, n, 1, eof) == Ok::<(Expr, int), ParseFailure>(
            (abc, n as int),
        ));
        assert(spec_parse_binops(a, toks, j1, 1, eof) == Ok::<(Expr, int), ParseFailure>(
            (abc, n as int),
        ));
        assert(spec_parse_expr(toks, 0, 1, eof) == Ok::<(Expr, int), ParseFailure>(
            (abc, n as int),
        ));
    } else {
        assert(spec_parse_binops(b, toks, j2, p1 + 1, eof) == Ok::<(Expr, int), ParseFailure>(
            (b, j2 as int),
        ));
        assert(spec_parse_expr(toks, j1 + 1, p1 + 1, eof) == Ok::<(Expr, int), ParseFailure>(
            (b, j2 as int),
        ));
        let ab = Expr::BinOp { lhs: Box::new(a), op: op1, rhs: Box::new(b) };
        let abc = Expr::BinOp { lhs: Box::new(ab), op: op2, rhs: Box::new(c) };
        assert(spec_parse_binops(abc, toks, n, 1, eof) == Ok::<(Expr, int), ParseFailure>(
            (abc, n as int),
        ));
        assert(spec_parse_binops(ab, toks, j2, 1, eof) == Ok::<(Expr, int), ParseFailure>(
            (abc, n as int),
        ));
        assert(spec_parse_binops(a, toks, j1, 1, eof) == Ok::<(Expr, int), ParseFailure>(
            (abc, n as int),
        ));
        assert(spec_parse_expr(toks, 0, 1, eof) == Ok::<(Expr, int), ParseFailure>(
            (abc, n as int),
        ));
    }
}

} // verus!
