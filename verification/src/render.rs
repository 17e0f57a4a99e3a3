use vstd::prelude::*;
use crate::ast::{nonneg_literals, prec, Expr, Op};
use crate::errors::SyntaxError;
use crate::lexer::{is_digit, is_space, spec_lex_int, spec_tokenize, symbol_kind, Tok, TokKind};
use crate::parser::{spec_parse, spec_parse_binops, spec_parse_expr, spec_parse_term, ParseFailure};

verus! {

/// The token spelling of a tree, parenthesized at every binary node.
pub open spec fn render_toks(e: Expr) -> Seq<TokKind>
    decreases e,
{
    match e {
        Expr::Integer(v) => seq![TokKind::Number(v)],
        Expr::UnaryMinus(b) => seq![TokKind::OpTok(Op::Subtract)] + render_toks(*b),
        Expr::BinOp { lhs, op, rhs } => seq![TokKind::LParen] + render_toks(*lhs) + seq![
            TokKind::OpTok(op),
        ] + render_toks(*rhs) + seq![TokKind::RParen],
    }
}

/// `ks` occurs at position `i` of `toks`, comparing token kinds only (the
/// parser never reads offsets except to report errors).
pub open spec fn kinds_at(toks: Seq<Tok>, i: nat, ks: Seq<TokKind>) -> bool {
    &&& i + ks.len() <= toks.len()
    &&& forall|k: int| 0 <= k < ks.len() ==> toks[i + k].kind == ks[k]
}

/// Every tree spells at least one token.
pub proof fn lemma_render_toks_len(e: Expr)
    ensures
        render_toks(e).len() >= 1,
    decreases e,
{
    match e {
        Expr::Integer(_) => {},
        Expr::UnaryMinus(b) => {
            lemma_render_toks_len(*b);
        },
        Expr::BinOp { lhs, op: _, rhs } => {
            lemma_render_toks_len(*lhs);
            lemma_render_toks_len(*rhs);
        },
    }
}

/// Round trip, term level: wherever the token spelling of a tree occurs,
/// the term parser consumes exactly that spelling and returns that very
/// tree. Rendering loses nothing: precedence and associativity are encoded
/// in the tree's parentheses alone.
pub proof fn lemma_render_reparse_term(e: Expr, toks: Seq<Tok>, i: nat, eof: nat)
    requires
        kinds_at(toks, i, render_toks(e)),
    ensures
        spec_parse_term(toks, i, eof) == Ok::<(Expr, int), ParseFailure>(
            (e, i + render_toks(e).len() as int),
        ),
    decreases e,
{
    let rks = render_toks(e);
    lemma_render_toks_len(e);
    assert(toks[i as int + 0].kind == rks[0]);
    match e {
        Expr::Integer(v) => {
            assert(rks[0] == TokKind::Number(v));
            assert(toks[i as int].kind == TokKind::Number(v));
            assert(rks.len() == 1);
            assert(spec_parse_term(toks, i, eof) == Ok::<(Expr, int), ParseFailure>(
                (Expr::Integer(v), i + 1 as int),
            ));
            assert(spec_parse_term(toks, i, eof) == Ok::<(Expr, int), ParseFailure>(
                (e, i + rks.len() as int),
            ));
        },
        Expr::UnaryMinus(b) => {
            let rb = render_toks(*b);
            assert(rks[0] == TokKind::OpTok(Op::Subtract));
            assert(kinds_at(toks, i + 1, rb)) by {
                assert forall|k: int| 0 <= k < rb.len() implies toks[i + 1 + k].kind == rb[k] by {
                    assert(rks[1 + k] == rb[k]);
                    assert(toks[i + (1 + k)].kind == rks[1 + k]);
                }
            }
            lemma_render_reparse_term(*b, toks, i + 1, eof);
            assert(spec_parse_term(toks, i, eof) == Ok::<(Expr, int), ParseFailure>(
                (Expr::UnaryMinus(Box::new(*b)), i + rks.len() as int),
            ));
            assert(Expr::UnaryMinus(Box::new(*b)) == e);
            assert(spec_parse_term(toks, i, eof) == Ok::<(Expr, int), ParseFailure>(
                (e, i + rks.len() as int),
            ));
        },
        Expr::BinOp { lhs, op, rhs } => {
            let rl = render_toks(*lhs);
            let rr = render_toks(*rhs);
            lemma_render_toks_len(*lhs);
            lemma_render_toks_len(*rhs);
            let ll = rl.len() as int;
            let a1 = seq![TokKind::LParen] + rl;
            let a2 = a1 + seq![TokKind::OpTok(op)];
            let a3 = a2 + rr;
            assert(rks == a3 + seq![TokKind::RParen]);
            assert(rks.len() == rl.len() + rr.len() + 3);
            // Where each piece of the spelling sits inside `rks`.
            assert(rks[0] == TokKind::LParen);
            assert forall|k: int| 0 <= k < rl.len() implies rks[1 + k] == rl[k] by {
                assert(a1[1 + k] == rl[k]);
                assert(a2[1 + k] == a1[1 + k]);
                assert(a3[1 + k] == a2[1 + k]);
                assert(rks[1 + k] == a3[1 + k]);
            }
            assert(rks[1 + ll] == TokKind::OpTok(op)) by {
                assert(a2[1 + ll] == TokKind::OpTok(op));
                assert(a3[1 + ll] == a2[1 + ll]);
                assert(rks[1 + ll] == a3[1 + ll]);
            }
            assert forall|k: int| 0 <= k < rr.len() implies rks[2 + ll + k] == rr[k] by {
                assert(a3[a2.len() + k] == rr[k]);
                assert(rks[a2.len() + k] == a3[a2.len() + k]);
            }
            assert(rks[rks.len() - 1] == TokKind::RParen);
            // The sub-spellings occur in `toks` at their shifted positions.
            assert(kinds_at(toks, i + 1, rl)) by {
                assert forall|k: int| 0 <= k < rl.len() implies toks[i + 1 + k].kind == rl[k] by {
                    assert(toks[i + (1 + k)].kind == rks[1 + k]);
                }
            }
            let j1 = i + 1 + rl.len();
            assert(toks[i + (1 + ll)].kind == rks[1 + ll]);
            assert(toks[j1 as int].kind == TokKind::OpTok(op));
            assert(kinds_at(toks, j1 + 1, rr)) by {
                assert forall|k: int| 0 <= k < rr.len() implies toks[j1 + 1 + k].kind == rr[k] by {
                    assert(toks[i + (2 + ll + k)].kind == rks[2 + ll + k]);
                }
            }
            let k2 = j1 + 1 + rr.len();
            assert(toks[i + (rks.len() - 1)].kind == rks[rks.len() - 1]);
            assert(toks[k2 as int].kind == TokKind::RParen);
            lemma_render_reparse_term(*lhs, toks, i + 1, eof);
            lemma_render_reparse_term(*rhs, toks, j1 + 1, eof);
            // Walk the parse of `( lhs op rhs )` step by step.
            assert(1 <= prec(op) <= 2);
            assert(k2 < toks.len());
            assert(spec_parse_term(toks, j1 + 1, eof) == Ok::<(Expr, int), ParseFailure>(
                (*rhs, k2 as int),
            ));
            assert(spec_parse_binops(*rhs, toks, k2, prec(op) + 1, eof) == Ok::<
                (Expr, int),
                ParseFailure,
            >((*rhs, k2 as int)));
            assert(spec_parse_expr(toks, j1 + 1, prec(op) + 1, eof) == Ok::<
                (Expr, int),
                ParseFailure,
            >((*rhs, k2 as int)));
            let combined = Expr::BinOp { lhs: Box::new(*lhs), op, rhs: Box::new(*rhs) };
            assert(spec_parse_binops(combined, toks, k2, 1, eof) == Ok::<
                (Expr, int),
                ParseFailure,
            >((combined, k2 as int)));
            assert(spec_parse_binops(*lhs, toks, j1, 1, eof) == Ok::<(Expr, int), ParseFailure>(
                (combined, k2 as int),
            ));
            assert(spec_parse_expr(toks, i + 1, 1, eof) == Ok::<(Expr, int), ParseFailure>(
                (combined, k2 as int),
            ));
            assert(combined == e);
            assert(spec_parse_term(toks, i, eof) == Ok::<(Expr, int), ParseFailure>(
                (e, i + rks.len() as int),
            ));
        },
    }
}

/// Round trip, whole line: a token sequence that spells a tree fully
/// parenthesized parses back to that very tree — so it evaluates to the
/// same value as the tree it was rendered from.
pub proof fn lemma_render_round_trip(e: Expr, toks: Seq<Tok>, eof: nat)
    requires
        toks.len() == render_toks(e).len(),
        kinds_at(toks, 0, render_toks(e)),
    ensures
        spec_parse(toks, eof) == Ok::<Expr, ParseFailure>(e),
{
    lemma_render_toks_len(e);
    lemma_render_reparse_term(e, toks, 0, eof);
}

/// Renders a tree to its fully parenthesized token spelling (offsets are
/// immaterial for parsing and set to zero).
pub fn render_tokens(e: &Expr) -> (r: Vec<Tok>)
    ensures
        r@.len() == render_toks(*e).len(),
        kinds_at(r@, 0, render_toks(*e)),
    decreases e,
{
    match e {
        Expr::Integer(v) => {
            let mut out: Vec<Tok> = Vec::new();
            out.push(Tok { kind: TokKind::Number(*v), off: 0 });
            out
        },
        Expr::UnaryMinus(b) => {
            let mut out: Vec<Tok> = Vec::new();
            out.push(Tok { kind: TokKind::OpTok(Op::Subtract), off: 0 });
            let mut inner = render_tokens(b);
            let ghost gi = inner@;
            out.append(&mut inner);
            proof {
                let rb = render_toks(**b);
                let rks = render_toks(*e);
                assert forall|k: int| 0 <= k < rks.len() implies out@[k].kind == rks[k] by {
                    if k >= 1 {
                        assert(rks[k] == rb[k - 1]);
                        assert(out@[k] == gi[k - 1]);
                    }
                }
            }
            out
        },
        Expr::BinOp { lhs, op, rhs } => {
            let mut out: Vec<Tok> = Vec::new();
            out.push(Tok { kind: TokKind::LParen, off: 0 });
            let mut left = render_tokens(lhs);
            let ghost gl = left@;
            out.append(&mut left);
            out.push(Tok { kind: TokKind::OpTok(*op), off: 0 });
            let mut right = render_tokens(rhs);
            let ghost gr = right@;
            out.append(&mut right);
            out.push(Tok { kind: TokKind::RParen, off: 0 });
            proof {
                let rl = render_toks(**lhs);
                let rr = render_toks(**rhs);
                let rks = render_toks(*e);
                let ll = rl.len() as int;
                let a1 = seq![TokKind::LParen] + rl;
                let a2 = a1 + seq![TokKind::OpTok(*op)];
                let a3 = a2 + rr;
                assert(rks == a3 + seq![TokKind::RParen]);
                assert(out@.len() == rks.len());
                assert forall|k: int| 0 <= k < rks.len() implies out@[k].kind == rks[k] by {
                    if k == 0 {
                        assert(rks[0] == TokKind::LParen);
                    } else if k < 1 + ll {
                        assert(out@[k] == gl[k - 1]);
                        assert(rks[k] == a3[k]);
                        assert(a3[k] == a2[k]);
                        assert(a2[k] == a1[k]);
                        assert(a1[k] == rl[k - 1]);
                    } else if k == 1 + ll {
                        assert(rks[k] == a3[k]);
                        assert(a3[k] == a2[k]);
                        assert(a2[k] == TokKind::OpTok(*op));
                    } else if k < 2 + ll + rr.len() {
                        assert(out@[k] == gr[k - (2 + ll)]);
                        assert(rks[k] == a3[k]);
                        assert(a3[k] == rr[k - a2.len()]);
                    } else {
                        assert(rks[k] == TokKind::RParen);
                    }
                }
            }
            out
        },
    }
}

/// The byte spelling one operator.
pub open spec fn op_byte(op: Op) -> u8 {
    match op {
        Op::Add => 43,
        Op::Subtract => 45,
        Op::Multiply => 42,
        Op::Divide => 47,
        Op::Modulo => 37,
    }
}

/// The decimal digits of `n`, most significant first; empty for zero.
pub open spec fn dec_digits(n: nat) -> Seq<u8>
    decreases n,
{
    if n == 0 {
        Seq::empty()
    } else {
        dec_digits(n / 10) + seq![(48 + n % 10) as u8]
    }
}

/// The text of one integer value: `0`, the decimal digits of a positive
/// value, or `-` before the digits of a negative value's magnitude.
pub open spec fn render_int_bytes(v: int) -> Seq<u8> {
    if v < 0 {
        seq![45u8] + dec_digits((-v) as nat)
    } else if v == 0 {
        seq![48u8]
    } else {
        dec_digits(v as nat)
    }
}

/// The fully parenthesized text of a tree: every binary node in parentheses
/// with one space on each side of its operator, and a bare `-` before a
/// negated term.
pub open spec fn render_bytes(e: Expr) -> Seq<u8>
    decreases e,
{
    match e {
        Expr::Integer(v) => render_int_bytes(v as int),
        Expr::UnaryMinus(b) => seq![45u8] + render_bytes(*b),
        Expr::BinOp { lhs, op, rhs } => seq![40u8] + render_bytes(*lhs) + seq![
            32u8,
            op_byte(op),
            32u8,
        ] + render_bytes(*rhs) + seq![41u8],
    }
}

/// Executable operator spelling, equal to `op_byte`.
fn op_byte_of(op: Op) -> (b: u8)
    ensures
        b == op_byte(op),
{
    match op {
        Op::Add => 43,
        Op::Subtract => 45,
        Op::Multiply => 42,
        Op::Divide => 47,
        Op::Modulo => 37,
    }
}

/// Appends the decimal digits of `m0` to `out`.
fn push_digits(out: &mut Vec<u8>, m0: u64)
    requires
        m0 >= 1,
    ensures
        final(out)@ == old(out)@ + dec_digits(m0 as nat),
{
    let mut ds: Vec<u8> = Vec::new();
    let mut m: u64 = m0;
    proof {
        assert(dec_digits(m0 as nat) =~= dec_digits(m as nat) + ds@);
    }
    while m > 0
        invariant
            dec_digits(m0 as nat) == dec_digits(m as nat) + ds@,
        decreases m,
    {
        let d: u8 = (m % 10) as u8 + 48;
        let ghost dsold = ds@;
        let ghost mold = m;
        ds.insert(0, d);
        m = m / 10;
        proof {
            assert(ds@ =~= seq![d] + dsold);
            assert(dec_digits(mold as nat) == dec_digits(mold as nat / 10) + seq![
                (48 + mold as nat % 10) as u8,
            ]);
            assert(m as nat == mold as nat / 10);
            assert((48 + mold as nat % 10) as u8 == d);
            assert(dec_digits(m0 as nat) =~= dec_digits(m as nat) + ds@);
        }
    }
    let ghost outpre = out@;
    out.append(&mut ds);
    proof {
        assert(dec_digits(0nat) =~= Seq::<u8>::empty());
        assert(out@ =~= outpre + dec_digits(m0 as nat));
    }
}

/// Appends the fully parenthesized text of a tree to `out`.
fn render_into(e: &Expr, out: &mut Vec<u8>)
    ensures
        final(out)@ == old(out)@ + render_bytes(*e),
    decreases e,
{
    let ghost o0 = out@;
    match e {
        Expr::Integer(v) => {
            if *v == 0 {
                out.push(48);
                proof {
                    assert(out@ =~= o0 + render_bytes(*e));
                }
            } else if *v > 0 {
                push_digits(out, *v as u64);
            } else {
                out.push(45);
                push_digits(out, (-(*v as i64)) as u64);
                proof {
                    assert(out@ =~= o0 + render_bytes(*e));
                }
            }
        },
        Expr::UnaryMinus(b) => {
            out.push(45);
            render_into(b, out);
            proof {
                assert(out@ =~= o0 + render_bytes(*e));
            }
        },
        Expr::BinOp { lhs, op, rhs } => {
            out.push(40);
            render_into(lhs, out);
            out.push(32);
            let ob = op_byte_of(*op);
            out.push(ob);
            out.push(32);
            render_into(rhs, out);
            out.push(41);
            proof {
                assert(out@ =~= o0 + render_bytes(*e));
            }
        },
    }
}

/// The value the scanner accumulates by reading `ds` as decimal digits,
/// left to right, starting from `acc`.
spec fn dval_acc(ds: Seq<u8>, acc: int) -> int
    decreases ds.len(),
{
    if ds.len() == 0 {
        acc
    } else {
        dval_acc(ds.skip(1), acc * 10 + (ds[0] - 48))
    }
}

/// The power of ten with exponent `k`.
spec fn pow10(k: nat) -> int
    decreases k,
{
    if k == 0 {
        1
    } else {
        10 * pow10((k - 1) as nat)
    }
}

/// Reading digits only grows the accumulated value.
proof fn lemma_dval_acc_lower(ds: Seq<u8>, acc: int)
    requires
        acc >= 0,
        forall|k: int| 0 <= k < ds.len() ==> is_digit(ds[k]),
    ensures
        dval_acc(ds, acc) >= acc,
    decreases ds.len(),
{
    if ds.len() > 0 {
        assert(is_digit(ds[0]));
        assert(forall|k: int| 0 <= k < ds.skip(1).len() ==> ds.skip(1)[k] == ds[k + 1]);
        lemma_dval_acc_lower(ds.skip(1), acc * 10 + (ds[0] - 48));
    }
}

/// Every byte of `dec_digits` is a decimal digit.
proof fn lemma_dec_digits_are_digits(n: nat)
    ensures
        forall|k: int| 0 <= k < dec_digits(n).len() ==> is_digit(dec_digits(n)[k]),
    decreases n,
{
    if n > 0 {
        lemma_dec_digits_are_digits(n / 10);
        let a = dec_digits(n / 10);
        let d = (48 + n % 10) as u8;
        vstd::arithmetic::div_mod::lemma_mod_bound(n as int, 10);
        assert(is_digit(d));
        assert(forall|k: int| 0 <= k < a.len() ==> dec_digits(n)[k] == a[k]);
        assert(dec_digits(n)[a.len() as int] == d);
    }
}

/// Appending one digit multiplies the accumulated value by ten.
proof fn lemma_dval_acc_append(a: Seq<u8>, d: u8, acc: int)
    ensures
        dval_acc(a + seq![d], acc) == dval_acc(a, acc) * 10 + (d - 48),
    decreases a.len(),
{
    if a.len() == 0 {
        assert(a + seq![d] =~= seq![d]);
        assert((seq![d]).skip(1) =~= Seq::<u8>::empty());
        assert(dval_acc(Seq::<u8>::empty(), acc * 10 + (d - 48)) == acc * 10 + (d - 48));
        assert(dval_acc(seq![d], acc) == dval_acc((seq![d]).skip(1), acc * 10 + (seq![d][0]
            - 48)));
    } else {
        assert((a + seq![d]).skip(1) =~= a.skip(1) + seq![d]);
        assert((a + seq![d])[0] == a[0]);
        lemma_dval_acc_append(a.skip(1), d, acc * 10 + (a[0] - 48));
        assert(dval_acc(a + seq![d], acc) == dval_acc(a.skip(1) + seq![d], acc * 10 + (a[0]
            - 48)));
        assert(dval_acc(a, acc) == dval_acc(a.skip(1), acc * 10 + (a[0] - 48)));
    }
}

/// Scanning the decimal digits of `n` from `acc` yields `acc` shifted past
/// them plus `n` itself.
proof fn lemma_dec_digits_val(n: nat, acc: int)
    requires
        acc >= 0,
    ensures
        dval_acc(dec_digits(n), acc) == acc * pow10(dec_digits(n).len()) + n,
    decreases n,
{
    if n == 0 {
        assert(dec_digits(0nat) =~= Seq::<u8>::empty());
    } else {
        let a = dec_digits(n / 10);
        let d = (48 + n % 10) as u8;
        lemma_dec_digits_val(n / 10, acc);
        lemma_dval_acc_append(a, d, acc);
        vstd::arithmetic::div_mod::lemma_fundamental_div_mod(n as int, 10);
        vstd::arithmetic::div_mod::lemma_mod_bound(n as int, 10);
        assert(d - 48 == n % 10);
        assert((acc * pow10(a.len()) + (n / 10) as int) * 10 == acc * (10 * pow10(a.len())) + ((n
            / 10) as int) * 10) by (nonlinear_arith);
        assert(dec_digits(n).len() == a.len() + 1);
        assert(pow10(a.len() + 1) == 10 * pow10(a.len()));
    }
}

/// `bs` occurs at position `i` of `s`.
spec fn bytes_at(s: Seq<u8>, i: nat, bs: Seq<u8>) -> bool {
    &&& i + bs.len() <= s.len()
    &&& forall|k: int| 0 <= k < bs.len() ==> s[i + k] == bs[k]
}

/// Scanning `s` from `i` yields the token kinds `ks` and then continues
/// exactly as scanning from `j` does — including failing with the very same
/// error.
spec fn tokenizes_to(s: Seq<u8>, i: nat, ks: Seq<TokKind>, j: nat) -> bool {
    match (spec_tokenize(s, i), spec_tokenize(s, j)) {
        (Ok(all), Ok(rest)) => {
            &&& all.len() == ks.len() + rest.len()
            &&& (forall|k: int| 0 <= k < ks.len() ==> all[k].kind == ks[k])
            &&& all.skip(ks.len() as int) == rest
        },
        (Err(e1), Err(e2)) => e1 == e2,
        _ => false,
    }
}

/// Chaining two scans chains their token kinds.
proof fn lemma_tokenizes_to_trans(
    s: Seq<u8>,
    i: nat,
    ks1: Seq<TokKind>,
    j: nat,
    ks2: Seq<TokKind>,
    l: nat,
)
    requires
        tokenizes_to(s, i, ks1, j),
        tokenizes_to(s, j, ks2, l),
    ensures
        tokenizes_to(s, i, ks1 + ks2, l),
{
    match (spec_tokenize(s, i), spec_tokenize(s, j), spec_tokenize(s, l)) {
        (Ok(all), Ok(mid), Ok(rest)) => {
            let l1 = ks1.len() as int;
            let l2 = ks2.len() as int;
            assert(all.skip(l1) == mid);
            assert forall|k: int| 0 <= k < (ks1 + ks2).len() implies all[k].kind == (ks1
                + ks2)[k] by {
                if k < l1 {
                    assert((ks1 + ks2)[k] == ks1[k]);
                } else {
                    assert((ks1 + ks2)[k] == ks2[k - l1]);
                    assert(all.skip(l1)[k - l1] == all[k]);
                    assert(mid[k - l1].kind == ks2[k - l1]);
                }
            }
            assert(all.skip(l1).skip(l2) =~= all.skip(l1 + l2));
            assert(all.skip((ks1 + ks2).len() as int) == rest);
        },
        _ => {},
    }
}

/// One operator or parenthesis byte scans to its one token.
proof fn lemma_tokenize_symbol(s: Seq<u8>, i: nat, k: TokKind)
    requires
        i < s.len(),
        symbol_kind(s[i as int]) == Some(k),
    ensures
        tokenizes_to(s, i, seq![k], i + 1),
{
    assert(!is_space(s[i as int]));
    assert(!is_digit(s[i as int]));
    match spec_tokenize(s, i + 1) {
        Ok(rest) => {
            let t = Tok { kind: k, off: i as usize };
            assert(spec_tokenize(s, i) == Ok::<Seq<Tok>, SyntaxError>(seq![t] + rest));
            assert((seq![t] + rest).skip(1) =~= rest);
        },
        Err(_) => {},
    }
}

/// One whitespace byte scans to no token.
proof fn lemma_tokenize_space(s: Seq<u8>, i: nat)
    requires
        i < s.len(),
        is_space(s[i as int]),
    ensures
        tokenizes_to(s, i, Seq::<TokKind>::empty(), i + 1),
{
    assert(spec_tokenize(s, i) == spec_tokenize(s, i + 1));
    match spec_tokenize(s, i + 1) {
        Ok(rest) => {
            assert(rest.skip(0) =~= rest);
        },
        Err(_) => {},
    }
}

/// Scanning from inside a digit run that ends at `j`: when the value read
/// over the whole run stays within the width, exactly one `Number` token
/// comes out of it.
proof fn lemma_lex_digit_run(s: Seq<u8>, i: nat, acc: int, start: nat, j: nat)
    requires
        i <= j <= s.len(),
        forall|k: int| i <= k < j ==> is_digit(s[k]),
        j == s.len() || !is_digit(s[j as int]),
        acc >= 0,
        dval_acc(s.subrange(i as int, j as int), acc) <= i32::MAX,
    ensures
        (match (spec_lex_int(s, i, acc, start), spec_tokenize(s, j)) {
            (Ok(all), Ok(rest)) => {
                &&& all.len() == 1 + rest.len()
                &&& all[0] == (Tok {
                    kind: TokKind::Number(
                        dval_acc(s.subrange(i as int, j as int), acc) as i32,
                    ),
                    off: start as usize,
                })
                &&& all.skip(1) == rest
            },
            (Err(e1), Err(e2)) => e1 == e2,
            _ => false,
        }),
    decreases j - i,
{
    let ds = s.subrange(i as int, j as int);
    assert(forall|k: int| 0 <= k < ds.len() ==> is_digit(ds[k]));
    lemma_dval_acc_lower(ds, acc);
    if i == j {
        assert(ds =~= Seq::<u8>::empty());
        match spec_tokenize(s, j) {
            Ok(rest) => {
                let t = Tok { kind: TokKind::Number(acc as i32), off: start as usize };
                assert(spec_lex_int(s, i, acc, start) == Ok::<Seq<Tok>, SyntaxError>(
                    seq![t] + rest,
                ));
                assert((seq![t] + rest).skip(1) =~= rest);
            },
            Err(_) => {},
        }
    } else {
        assert(is_digit(s[i as int]));
        assert(ds[0] == s[i as int]);
        assert(ds.skip(1) =~= s.subrange(i as int + 1, j as int));
        assert(dval_acc(ds, acc) == dval_acc(ds.skip(1), acc * 10 + (ds[0] - 48)));
        lemma_lex_digit_run(s, i + 1, acc * 10 + (s[i as int] - 48), start, j);
    }
}

/// The text of one in-range literal scans to its one `Number` token.
proof fn lemma_tokenize_number(s: Seq<u8>, i: nat, v: i32, j: nat)
    requires
        0 <= v,
        bytes_at(s, i, render_int_bytes(v as int)),
        j == i + render_int_bytes(v as int).len(),
        j == s.len() || !is_digit(s[j as int]),
    ensures
        tokenizes_to(s, i, seq![TokKind::Number(v)], j),
{
    let bs = render_int_bytes(v as int);
    if v == 0 {
        assert(bs =~= seq![48u8]);
        assert(s[i as int] == 48);
    } else {
        lemma_dec_digits_are_digits(v as nat);
        lemma_dec_digits_val(v as nat, 0);
        assert(dval_acc(bs, 0) == v);
        assert(bs.len() >= 1);
        assert(s[i as int] == bs[0]);
        assert(is_digit(bs[0]));
    }
    assert(forall|k: int| 0 <= k < bs.len() ==> is_digit(bs[k]));
    assert(is_digit(s[i as int]));
    assert(!is_space(s[i as int]));
    assert(s.subrange(i as int, j as int) =~= bs);
    assert(s.subrange(i as int + 1, j as int) =~= bs.skip(1));
    assert forall|k: int| i + 1 <= k < j implies is_digit(s[k]) by {
        assert(s[i + (k - i)] == bs[k - i]);
        assert(is_digit(bs[k - i]));
    }
    assert(dval_acc(bs, 0) == dval_acc(bs.skip(1), bs[0] - 48));
    assert(dval_acc(bs, 0) == v as int);
    lemma_lex_digit_run(s, i + 1, (s[i as int] - 48) as int, i, j);
    assert(spec_tokenize(s, i) == spec_lex_int(s, i + 1, (s[i as int] - 48) as int, i));
}

/// Scanning the rendered text of a tree yields exactly its token spelling,
/// then continues as scanning whatever follows would.
proof fn lemma_tokenize_render(e: Expr, s: Seq<u8>, i: nat, j: nat)
    requires
        nonneg_literals(e),
        bytes_at(s, i, render_bytes(e)),
        j == i + render_bytes(e).len(),
        j == s.len() || !is_digit(s[j as int]),
    ensures
        tokenizes_to(s, i, render_toks(e), j),
    decreases e,
{
    let bs = render_bytes(e);
    match e {
        Expr::Integer(v) => {
            lemma_tokenize_number(s, i, v, j);
            assert(render_toks(e) =~= seq![TokKind::Number(v)]);
        },
        Expr::UnaryMinus(b) => {
            let bb = render_bytes(*b);
            assert(s[i as int + 0] == bs[0]);
            assert(bs[0] == 45u8);
            lemma_tokenize_symbol(s, i, TokKind::OpTok(Op::Subtract));
            assert(bytes_at(s, i + 1, bb)) by {
                assert forall|k: int| 0 <= k < bb.len() implies s[i + 1 + k] == bb[k] by {
                    assert(bs[1 + k] == bb[k]);
                    assert(s[i + (1 + k)] == bs[1 + k]);
                }
            }
            lemma_tokenize_render(*b, s, i + 1, j);
            lemma_tokenizes_to_trans(
                s,
                i,
                seq![TokKind::OpTok(Op::Subtract)],
                i + 1,
                render_toks(*b),
                j,
            );
        },
        Expr::BinOp { lhs, op, rhs } => {
            let bl = render_bytes(*lhs);
            let br = render_bytes(*rhs);
            let lb = bl.len() as int;
            let c1 = seq![40u8] + bl;
            let c2 = c1 + seq![32u8, op_byte(op), 32u8];
            let c3 = c2 + br;
            assert(bs == c3 + seq![41u8]);
            assert(bs.len() == bl.len() + br.len() + 5);
            // Where each piece of the text sits inside `bs`.
            assert(bs[0] == 40u8);
            assert forall|k: int| 0 <= k < lb implies bs[1 + k] == bl[k] by {
                assert(c1[1 + k] == bl[k]);
                assert(c2[1 + k] == c1[1 + k]);
                assert(c3[1 + k] == c2[1 + k]);
                assert(bs[1 + k] == c3[1 + k]);
            }
            assert(bs[1 + lb] == 32u8 && bs[2 + lb] == op_byte(op) && bs[3 + lb] == 32u8) by {
                assert(c2[c1.len() as int] == 32u8);
                assert(c2[c1.len() as int + 1] == op_byte(op));
                assert(c2[c1.len() as int + 2] == 32u8);
                assert(c3[1 + lb] == c2[1 + lb]);
                assert(c3[2 + lb] == c2[2 + lb]);
                assert(c3[3 + lb] == c2[3 + lb]);
                assert(bs[1 + lb] == c3[1 + lb]);
                assert(bs[2 + lb] == c3[2 + lb]);
                assert(bs[3 + lb] == c3[3 + lb]);
            }
            assert forall|k: int| 0 <= k < br.len() implies bs[4 + lb + k] == br[k] by {
                assert(c3[c2.len() + k] == br[k]);
                assert(bs[c2.len() + k] == c3[c2.len() + k]);
            }
            assert(bs[bs.len() - 1] == 41u8);
            let m1 = i + 1 + bl.len();
            let m2 = m1 + 3 + br.len();
            // `(`
            assert(s[i as int + 0] == bs[0]);
            lemma_tokenize_symbol(s, i, TokKind::LParen);
            // the left operand, which a space (no digit) follows
            assert(bytes_at(s, i + 1, bl)) by {
                assert forall|k: int| 0 <= k < lb implies s[i + 1 + k] == bl[k] by {
                    assert(s[i + (1 + k)] == bs[1 + k]);
                }
            }
            assert(s[i + (1 + lb)] == bs[1 + lb]);
            assert(s[m1 as int] == 32u8);
            lemma_tokenize_render(*lhs, s, i + 1, m1);
            lemma_tokenize_space(s, m1);
            // the operator between two spaces
            assert(s[i + (2 + lb)] == bs[2 + lb]);
            assert(s[m1 as int + 1] == op_byte(op));
            assert(symbol_kind(op_byte(op)) == Some(TokKind::OpTok(op)));
            lemma_tokenize_symbol(s, m1 + 1, TokKind::OpTok(op));
            assert(s[i + (3 + lb)] == bs[3 + lb]);
            assert(s[m1 as int + 2] == 32u8);
            lemma_tokenize_space(s, m1 + 2);
            // the right operand, which `)` (no digit) follows
            assert(bytes_at(s, m1 + 3, br)) by {
                assert forall|k: int| 0 <= k < br.len() implies s[m1 + 3 + k] == br[k] by {
                    assert(s[i + (4 + lb + k)] == bs[4 + lb + k]);
                }
            }
            assert(s[i + (bs.len() - 1)] == bs[bs.len() - 1]);
            assert(s[m2 as int] == 41u8);
            lemma_tokenize_render(*rhs, s, m1 + 3, m2);
            lemma_tokenize_symbol(s, m2, TokKind::RParen);
            // chain the six scans together
            let k1 = seq![TokKind::LParen];
            let kl = render_toks(*lhs);
            let ko = seq![TokKind::OpTok(op)];
            let kr = render_toks(*rhs);
            let k5 = seq![TokKind::RParen];
            let none = Seq::<TokKind>::empty();
            lemma_tokenizes_to_trans(s, i, k1, i + 1, kl, m1);
            lemma_tokenizes_to_trans(s, i, k1 + kl, m1, none, m1 + 1);
            lemma_tokenizes_to_trans(s, i, (k1 + kl) + none, m1 + 1, ko, m1 + 2);
            lemma_tokenizes_to_trans(s, i, ((k1 + kl) + none) + ko, m1 + 2, none, m1 + 3);
            lemma_tokenizes_to_trans(s, i, (((k1 + kl) + none) + ko) + none, m1 + 3, kr, m2);
            lemma_tokenizes_to_trans(
                s,
                i,
                ((((k1 + kl) + none) + ko) + none) + kr,
                m2,
                k5,
                j,
            );
            assert((((((k1 + kl) + none) + ko) + none) + kr) + k5 =~= render_toks(e));
        },
    }
}

/// Round trip, text level: scanning and re-parsing the rendered text of a
/// tree whose literals are non-negative — as the literals of every tree the
/// parser builds are — yields exactly that tree, and so the same value.
pub proof fn lemma_text_round_trip(e: Expr)
    requires
        nonneg_literals(e),
    ensures
        (match spec_tokenize(render_bytes(e), 0) {
            Ok(ts) => spec_parse(ts, render_bytes(e).len()) == Ok::<Expr, ParseFailure>(e),
            Err(_) => false,
        }),
{
    let s = render_bytes(e);
    assert(bytes_at(s, 0, s));
    lemma_tokenize_render(e, s, 0, s.len());
    match spec_tokenize(s, 0) {
        Ok(ts) => {
            assert(kinds_at(ts, 0, render_toks(e))) by {
                assert forall|k: int| 0 <= k < render_toks(e).len() implies ts[0 + k].kind
                    == render_toks(e)[k] by {
                    assert(ts[k].kind == render_toks(e)[k]);
                }
            }
            lemma_render_round_trip(e, ts, s.len());
        },
        Err(_) => {},
    }
}

/// Renders a tree to its fully parenthesized text, as `render_bytes`
/// states. Re-parsing that text yields a tree with the same value, which
/// trees of negative leaves reach through a prefix minus.
pub fn render(e: &Expr) -> (r: Vec<u8>)
    ensures
        r@ == render_bytes(*e),
{
    let mut out: Vec<u8> = Vec::new();
    render_into(e, &mut out);
    proof {
        assert(Seq::<u8>::empty() + render_bytes(*e) =~= render_bytes(*e));
    }
    out
}

} // verus!
