//! A verified calculator for arithmetic expressions over 32-bit signed
//! integers: `+ - * / %`, parentheses, and a prefix minus, with standard
//! precedence and left-associativity. A line of text is tokenized, parsed by
//! precedence climbing into an expression tree, and evaluated with checked
//! arithmetic; malformed lines and arithmetic failures are reported as typed
//! errors, never as panics.

use vstd::prelude::*;
use vstd::string::StringSliceAdditionalSpecFns;

pub mod ast;
pub mod errors;
pub mod eval;
pub mod lexer;
pub mod parser;
pub mod render;

use crate::errors::CoreError;
use crate::eval::spec_eval;
use crate::lexer::spec_tokenize;
use crate::parser::{spec_parse, CalculatorParser, ParseFailure};

verus! {

/// Parses one line and reduces it to a single value. The result is a
/// function of the line's bytes alone — evaluating the same line twice
/// yields the identical value or the identical error:
/// - a scanning failure is returned as `spec_tokenize` states it;
/// - a parse failure is returned as `spec_parse` states it, and is always a
///   syntax error (the parser's internal-invariant failure is unreachable);
/// - for a well-formed line, the value or arithmetic error is exactly
///   `spec_eval` of the parsed tree.
pub fn parse_and_evaluate(line: &str) -> (r: Result<i32, CoreError>)
    ensures
        ({
            let s = line.spec_bytes();
            match spec_tokenize(s, 0) {
                Err(se) => r == Err::<i32, CoreError>(CoreError::Syntax(se)),
                Ok(ts) => (match spec_parse(ts, s.len()) {
                    Ok(e) => (match spec_eval(e) {
                        Ok(v) => r == Ok::<i32, CoreError>(v),
                        Err(ee) => r == Err::<i32, CoreError>(CoreError::Eval(ee)),
                    }),
                    Err(f) => f matches ParseFailure::Syntax(se) && r == Err::<i32, CoreError>(
                        CoreError::Syntax(se),
                    ),
                }),
            }
        }),
{
    match CalculatorParser::parse(line) {
        Ok(e) => {
            match e.eval() {
                Ok(v) => Ok(v),
                Err(ee) => Err(CoreError::Eval(ee)),
            }
        },
        Err(se) => Err(CoreError::Syntax(se)),
    }
}

} // verus!
