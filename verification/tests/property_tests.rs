//! Structural properties of the parser: the exact shape of the returned
//! trees, and the exact text of rendered errors.

use expr::{parse, BinOp, Expr, Func2, MathConst, SyntaxError};

fn err_of(x: &str) -> SyntaxError {
    parse(x, x, 0).expect_err("")
}

#[test]
fn literal_leaf_spans_whole_token() {
    assert_eq!(parse("1.25", "1.25", 0).unwrap(), Expr::Literal { start: 0, end: 4 });
    assert_eq!(parse("nan", "nan", 0).unwrap(), Expr::Literal { start: 0, end: 3 });
}

#[test]
fn constant_leaves() {
    assert_eq!(parse("pi", "pi", 0).unwrap(), Expr::Constant(MathConst::Pi));
    assert_eq!(parse("e", "e", 0).unwrap(), Expr::Constant(MathConst::E));
}

#[test]
fn unary_sign_substitutes_zero() {
    assert_eq!(
        parse("-5", "-5", 0).unwrap(),
        Expr::Binary(
            BinOp::Sub,
            Box::new(Expr::ImplicitZero),
            Box::new(Expr::Literal { start: 1, end: 2 })
        )
    );
}

#[test]
fn left_associative_tree() {
    assert_eq!(
        parse("1-1-1", "1-1-1", 0).unwrap(),
        Expr::Binary(
            BinOp::Sub,
            Box::new(Expr::Binary(
                BinOp::Sub,
                Box::new(Expr::Literal { start: 0, end: 1 }),
                Box::new(Expr::Literal { start: 2, end: 3 })
            )),
            Box::new(Expr::Literal { start: 4, end: 5 })
        )
    );
}

#[test]
fn two_argument_call_tree() {
    assert_eq!(
        parse("logab(2,16)", "logab(2,16)", 0).unwrap(),
        Expr::Call2(
            Func2::Logab,
            Box::new(Expr::Literal { start: 6, end: 7 }),
            Box::new(Expr::Literal { start: 8, end: 10 })
        )
    );
}

#[test]
fn wrapping_keeps_tree_shape() {
    let plain = parse("5", "5", 0).unwrap();
    assert_eq!(plain, Expr::Literal { start: 0, end: 1 });
    let wrapped = parse("(5)", "(5)", 0).unwrap();
    assert_eq!(wrapped, Expr::Literal { start: 1, end: 2 });
    let quoted = parse("\"5\"", "\"5\"", 0).unwrap();
    assert_eq!(quoted, Expr::Literal { start: 1, end: 2 });
}

#[test]
fn lone_delimiter_errors() {
    assert_eq!(
        err_of("(").render(),
        "error while parsing token \"(\" in expression \"(\": missing closing parenthesis, ( <-- HERE"
    );
    assert_eq!(
        err_of(")").render(),
        "error while parsing token \")\" in expression \")\": missing opening parenthesis, ) <-- HERE"
    );
    assert_eq!(
        err_of("!").render(),
        "error while parsing token \"!\" in expression \"!\": expected token before operator !, ! <-- HERE"
    );
    assert_eq!(
        err_of("-").render(),
        "error while parsing token \"-\" in expression \"-\": expected token after operator -, - <-- HERE"
    );
}

#[test]
fn unclosed_inner_group_is_not_a_call() {
    assert_eq!(
        err_of("a(b(c)").render(),
        "error while parsing token \"a(b(c)\" in expression \"a(b(c)\": missing opening parenthesis, a(b(c) <-- HERE"
    );
}

#[test]
fn empty_input_error() {
    assert_eq!(
        err_of("").render(),
        "error while parsing token \"\" in expression \"\": trying to parse an empty token,  <-- HERE"
    );
}

#[test]
fn quoted_blank_error_position() {
    assert_eq!(
        err_of("\"\"").render(),
        "error while parsing token \"\" in expression \"\"\"\": trying to parse an empty token, \" <-- HERE"
    );
}
