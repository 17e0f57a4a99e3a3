use vstd::prelude::*;
use crate::ast::Op;
use crate::errors::{Expected, SyntaxError};

verus! {

/// One lexical token of the surface syntax.
#[derive(Clone, Copy, Debug, PartialEq, Eq, Structural)]
pub enum TokKind {
    /// An unsigned integer literal; a leading `-` is always a separate token.
    Number(i32),
    /// An operator symbol. `Op::Subtract` also stands for the prefix minus.
    OpTok(Op),
    LParen,
    RParen,
}

/// A token together with the byte offset at which it starts.
#[derive(Clone, Copy, Debug, PartialEq, Eq, Structural)]
pub struct Tok {
    pub kind: TokKind,
    pub off: usize,
}

/// The whitespace the grammar skips: space and tab.
pub open spec fn is_space(b: u8) -> bool {
    b == 32 || b == 9
}

/// An ASCII decimal digit.
pub open spec fn is_digit(b: u8) -> bool {
    48 <= b && b <= 57
}

/// The operator or parenthesis token denoted by one byte, if any.
pub open spec fn symbol_kind(b: u8) -> Option<TokKind> {
    if b == 43 {
        Some(TokKind::OpTok(Op::Add))
    } else if b == 45 {
        Some(TokKind::OpTok(Op::Subtract))
    } else if b == 42 {
        Some(TokKind::OpTok(Op::Multiply))
    } else if b == 47 {
        Some(TokKind::OpTok(Op::Divide))
    } else if b == 37 {
        Some(TokKind::OpTok(Op::Modulo))
    } else if b == 40 {
        Some(TokKind::LParen)
    } else if b == 41 {
        Some(TokKind::RParen)
    } else {
        None
    }
}

/// The token sequence of `s` from offset `i` on, or the syntax error that
/// scanning raises: a byte that can start no token, or an integer literal
/// beyond the 32-bit signed range.
pub open spec fn spec_tokenize(s: Seq<u8>, i: nat) -> Result<Seq<Tok>, SyntaxError>
    decreases s.len() - i, 0int,
        when i <= s.len()
{
    if i >= s.len() {
        Ok(Seq::empty())
    } else if is_space(s[i as int]) {
        spec_tokenize(s, i + 1)
    } else if is_digit(s[i as int]) {
        spec_lex_int(s, i + 1, (s[i as int] - 48) as int, i)
    } else {
        match symbol_kind(s[i as int]) {
            Some(k) => {
                match spec_tokenize(s, i + 1) {
                    Ok(rest) => Ok(seq![Tok { kind: k, off: i as usize }] + rest),
                    Err(e) => Err(e),
                }
            },
            None => Err(SyntaxError { off: i as usize, expected: Expected::Token }),
        }
    }
}

/// Scans the remaining digits of an integer literal that started at offset
/// `start` and whose digits so far have value `acc`, then hands the scan
/// back to `spec_tokenize`. A value beyond `i32::MAX` is a syntax error at
/// the start of the literal, not a silent wraparound.
pub open spec fn spec_lex_int(s: Seq<u8>, i: nat, acc: int, start: nat) -> Result<
    Seq<Tok>,
    SyntaxError,
>
    decreases s.len() - i, 1int,
        when i <= s.len()
{
    if acc > i32::MAX {
        Err(SyntaxError { off: start as usize, expected: Expected::IntegerInRange })
    } else if i < s.len() && is_digit(s[i as int]) {
        spec_lex_int(s, i + 1, acc * 10 + (s[i as int] - 48), start)
    } else {
        match spec_tokenize(s, i) {
            Ok(rest) => Ok(
                seq![Tok { kind: TokKind::Number(acc as i32), off: start as usize }] + rest,
            ),
            Err(e) => Err(e),
        }
    }
}

/// Every `Number` token carries a non-negative value, as all the scanner
/// produces do: a literal has no sign of its own.
pub open spec fn wf_toks(ts: Seq<Tok>) -> bool {
    forall|k: int|
        0 <= k < ts.len() ==> ((#[trigger] ts[k].kind) matches TokKind::Number(v) ==> v >= 0)
}

/// Splits a line into tokens, returning exactly what `spec_tokenize` states
/// for the whole input. Every `Number` token carries a value in
/// `0 ..= i32::MAX`.
pub fn tokenize(s: &[u8]) -> (r: Result<Vec<Tok>, SyntaxError>)
    ensures
        (match r {
            Ok(ts) => spec_tokenize(s@, 0) == Ok::<Seq<Tok>, SyntaxError>(ts@) && wf_toks(ts@),
            Err(e) => spec_tokenize(s@, 0) == Err::<Seq<Tok>, SyntaxError>(e),
        }),
{
    let n = s.len();
    let mut toks: Vec<Tok> = Vec::new();
    let mut i: usize = 0;
    while i < n
        invariant
            n == s@.len(),
            i <= n,
            wf_toks(toks@),
            (match spec_tokenize(s@, i as nat) {
                Ok(rest) => spec_tokenize(s@, 0) == Ok::<Seq<Tok>, SyntaxError>(toks@ + rest),
                Err(e) => spec_tokenize(s@, 0) == Err::<Seq<Tok>, SyntaxError>(e),
            }),
        decreases n - i,
    {
        let b = s[i];
        if b == 32 || b == 9 {
            i = i + 1;
        } else if 48 <= b && b <= 57 {
            let start = i;
            let mut acc: u64 = (b - 48) as u64;
            i = i + 1;
            while i < n && 48 <= s[i] && s[i] <= 57
                invariant
                    n == s@.len(),
                    start < i <= n,
                    acc <= 2147483647,
                    wf_toks(toks@),
                    (match spec_lex_int(s@, i as nat, acc as int, start as nat) {
                        Ok(rest) => spec_tokenize(s@, 0) == Ok::<Seq<Tok>, SyntaxError>(
                            toks@ + rest,
                        ),
                        Err(e) => spec_tokenize(s@, 0) == Err::<Seq<Tok>, SyntaxError>(e),
                    }),
                decreases n - i,
            {
                let d = s[i] - 48;
                let acc2 = acc * 10 + (d as u64);
                if acc2 > 2147483647 {
                    proof {
                        assert(spec_lex_int(s@, i as nat, acc as int, start as nat)
                            == spec_lex_int(s@, i as nat + 1, acc2 as int, start as nat));
                    }
                    return Err(SyntaxError { off: start, expected: Expected::IntegerInRange });
                }
                acc = acc2;
                i = i + 1;
            }
            let t = Tok { kind: TokKind::Number(acc as i32), off: start };
            let ghost prev = toks@;
            toks.push(t);
            proof {
                assert(toks@ =~= prev + seq![t]);
                match spec_tokenize(s@, i as nat) {
                    Ok(rest) => {
                        assert(prev + (seq![t] + rest) =~= toks@ + rest);
                    },
                    Err(_) => {},
                }
            }
        } else {
            let k: TokKind = if b == 43 {
                TokKind::OpTok(Op::Add)
            } else if b == 45 {
                TokKind::OpTok(Op::Subtract)
            } else if b == 42 {
                TokKind::OpTok(Op::Multiply)
            } else if b == 47 {
                TokKind::OpTok(Op::Divide)
            } else if b == 37 {
                TokKind::OpTok(Op::Modulo)
            } else if b == 40 {
                TokKind::LParen
            } else if b == 41 {
                TokKind::RParen
            } else {
                return Err(SyntaxError { off: i, expected: Expected::Token });
            };
            let t = Tok { kind: k, off: i };
            let ghost prev = toks@;
            toks.push(t);
            proof {
                assert(toks@ =~= prev + seq![t]);
                match spec_tokenize(s@, i as nat + 1) {
                    Ok(rest) => {
                        assert(prev + (seq![t] + rest) =~= toks@ + rest);
                    },
                    Err(_) => {},
                }
            }
            i = i + 1;
        }
    }
    proof {
        assert(toks@ + Seq::<Tok>::empty() =~= toks@);
    }
    Ok(toks)
}

} // verus!
