use calculator::ast::Expr;
use calculator::errors::{CoreError, EvalError, Expected, SyntaxError};
use calculator::parse_and_evaluate;
use calculator::parser::{parse_expr, CalculatorParser};
use calculator::render::{render, render_tokens};

fn eval_line(input: &str) -> Result<i32, CoreError> {
    parse_and_evaluate(input)
}

fn value_of(input: &str) -> i32 {
    match eval_line(input) {
        Ok(v) => v,
        Err(e) => panic!("expected a value for {:?}, got {:?}", input, e),
    }
}

#[test]
fn run_tests() {
    let test_table = vec![
        ("5 + 5", 10),
        ("5 - 5", 0),
        ("5 * 5", 25),
        ("5 / 5", 1),
        ("(13 * 25 / 2) - ((25 - 4) + (16 / 3) * 2)", 131),
        ("5 * 6 * 7 + 24 - 16", 218),
        ("750 / 5 + (6 * 2) / 2", 156),
        ("1024 + 256 + 256 + 256 + 256 / (2)", 1920),
    ];
    for test in test_table.into_iter() {
        let (input, expected) = test;
        assert_eq!(value_of(input), expected);
    }
}

#[test]
fn precedence_of_multiplication_over_addition() {
    assert_eq!(value_of("2 + 3 * 4"), 14);
    assert_eq!(value_of("(2 + 3) * 4"), 20);
}

#[test]
fn left_associativity_of_equal_precedence_chains() {
    assert_eq!(value_of("10 - 3 - 2"), 5);
    assert_eq!(value_of("100 / 10 / 5"), 2);
}

#[test]
fn unary_minus_binds_tighter_than_binary_operators() {
    assert_eq!(value_of("-3 + 5"), 2);
    assert_eq!(value_of("-3 * 5"), -15);
}

#[test]
fn nested_unary_minus_composes_as_negation() {
    assert_eq!(value_of("--5"), 5);
    assert_eq!(value_of("- - 5"), 5);
    assert_eq!(value_of("---5"), -5);
    assert_eq!(value_of("-(2 + 3)"), -5);
}

#[test]
fn modulo_sign_follows_the_dividend() {
    assert_eq!(value_of("-7 % 3"), -1);
    assert_eq!(value_of("7 % 3"), 1);
    assert_eq!(value_of("7 % -3"), 1);
    assert_eq!(value_of("-7 % -3"), -1);
}

#[test]
fn division_truncates_toward_zero() {
    assert_eq!(value_of("7 / 2"), 3);
    assert_eq!(value_of("-7 / 2"), -3);
    assert_eq!(value_of("7 / -2"), -3);
    assert_eq!(value_of("-7 / -2"), 3);
}

#[test]
fn division_and_modulo_by_zero_fail() {
    assert_eq!(
        eval_line("5 / 0"),
        Err(CoreError::Eval(EvalError::DivisionByZero))
    );
    assert_eq!(
        eval_line("5 % 0"),
        Err(CoreError::Eval(EvalError::DivisionByZero))
    );
}

#[test]
fn malformed_inputs_are_syntax_errors() {
    assert_eq!(
        eval_line("5 + "),
        Err(CoreError::Syntax(SyntaxError {
            off: 4,
            expected: Expected::Term
        }))
    );
    assert_eq!(
        eval_line("(5 + 3"),
        Err(CoreError::Syntax(SyntaxError {
            off: 6,
            expected: Expected::CloseParen
        }))
    );
    assert_eq!(
        eval_line("5 $ 3"),
        Err(CoreError::Syntax(SyntaxError {
            off: 2,
            expected: Expected::Token
        }))
    );
}

#[test]
fn empty_and_trailing_inputs_are_syntax_errors() {
    assert_eq!(
        eval_line(""),
        Err(CoreError::Syntax(SyntaxError {
            off: 0,
            expected: Expected::Term
        }))
    );
    assert_eq!(
        eval_line("()"),
        Err(CoreError::Syntax(SyntaxError {
            off: 1,
            expected: Expected::Term
        }))
    );
    assert_eq!(
        eval_line("5 5"),
        Err(CoreError::Syntax(SyntaxError {
            off: 2,
            expected: Expected::OperatorOrEnd
        }))
    );
}

#[test]
fn whitespace_around_tokens_is_skipped() {
    assert_eq!(value_of("  1 +\t2  "), 3);
    assert_eq!(value_of(" ( 1 + 2 ) * 3 "), 9);
}

#[test]
fn literal_at_the_width_limit_is_accepted() {
    assert_eq!(value_of("2147483647"), 2147483647);
}

#[test]
fn literal_beyond_the_width_limit_is_a_syntax_error() {
    assert_eq!(
        eval_line("2147483648"),
        Err(CoreError::Syntax(SyntaxError {
            off: 0,
            expected: Expected::IntegerInRange
        }))
    );
    // The minimum value has no literal spelling: `-` is an operator and the
    // magnitude 2147483648 itself does not fit the width.
    assert_eq!(
        eval_line("-2147483648"),
        Err(CoreError::Syntax(SyntaxError {
            off: 1,
            expected: Expected::IntegerInRange
        }))
    );
}

#[test]
fn arithmetic_overflow_fails() {
    assert_eq!(
        eval_line("2147483647 + 1"),
        Err(CoreError::Eval(EvalError::Overflow))
    );
    assert_eq!(
        eval_line("(0 - 2147483647 - 1) / (0 - 1)"),
        Err(CoreError::Eval(EvalError::Overflow))
    );
    assert_eq!(
        eval_line("-(0 - 2147483647 - 1)"),
        Err(CoreError::Eval(EvalError::Overflow))
    );
}

#[test]
fn minimum_value_modulo_minus_one_is_zero() {
    assert_eq!(eval_line("(0 - 2147483647 - 1) % (0 - 1)"), Ok(0));
}

#[test]
fn first_error_is_depth_first_left_to_right() {
    assert_eq!(
        eval_line("(5 / 0) + (2147483647 + 1)"),
        Err(CoreError::Eval(EvalError::DivisionByZero))
    );
    assert_eq!(
        eval_line("(2147483647 + 1) + (5 / 0)"),
        Err(CoreError::Eval(EvalError::Overflow))
    );
}

#[test]
fn evaluating_the_same_line_twice_is_identical() {
    for input in ["2 + 3 * 4", "5 / 0", "5 + ", "2147483647 + 1"] {
        assert_eq!(eval_line(input), eval_line(input));
    }
}

#[test]
fn rendered_text_round_trips_to_the_same_value() {
    for input in [
        "2 + 3 * 4",
        "10 - 3 - 2",
        "-3 + 5",
        "(13 * 25 / 2) - ((25 - 4) + (16 / 3) * 2)",
        "1024 + 256 + 256 + 256 + 256 / (2)",
        "--5",
    ] {
        let tree: Expr = CalculatorParser::parse(input).unwrap();
        let text = String::from_utf8(render(&tree)).unwrap();
        assert_eq!(eval_line(&text), eval_line(input), "render of {:?} was {:?}", input, text);
    }
}

#[test]
fn rendered_tokens_round_trip_to_the_same_tree_value() {
    for input in ["2 + 3 * 4", "100 / 10 / 5", "-7 % 3", "5 * 6 * 7 + 24 - 16"] {
        let tree: Expr = CalculatorParser::parse(input).unwrap();
        let toks = render_tokens(&tree);
        let reparsed: Expr = parse_expr(&toks, 0).unwrap();
        assert_eq!(reparsed.eval(), tree.eval());
        assert_eq!(Ok(reparsed.eval().unwrap()), eval_line(input));
    }
}

#[test]
fn evaluation_applies_to_the_built_tree() {
    let tree: Expr = CalculatorParser::parse("2 + 3 * 4").unwrap();
    assert_eq!(tree.eval(), Ok(14));
}
