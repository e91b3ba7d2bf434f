//! The parser's behaviour on whole expressions: numeric results are
//! obtained by folding the returned expression tree with ordinary
//! floating-point arithmetic, and error results are compared against their
//! rendered form.

use expr::{parse, BinOp, Expr, Func1, Func2, MathConst, SyntaxError};

const TWO_SQRT_E_OVER_PI: f64 = 1.860_382_734_205_265_7;
const GAMMA_R: f64 = 10.900511;
const GAMMA_DK: &[f64] = &[
    2.485_740_891_387_535_5e-5,
    1.051_423_785_817_219_7,
    -3.456_870_972_220_162_5,
    4.512_277_094_668_948,
    -2.982_852_253_235_766_4,
    1.056_397_115_771_267,
    -1.954_287_731_916_458_7e-1,
    1.709_705_434_044_412e-2,
    -5.719_261_174_043_057e-4,
    4.633_994_733_599_057e-6,
    -2.719_949_084_886_077_2e-9,
];

fn gamma(x: f64) -> f64 {
    if x < 0.5 {
        let s = GAMMA_DK
            .iter()
            .enumerate()
            .skip(1)
            .fold(GAMMA_DK[0], |s, t| s + t.1 / (t.0 as f64 - x));
        std::f64::consts::PI
            / ((std::f64::consts::PI * x).sin()
                * s
                * TWO_SQRT_E_OVER_PI
                * ((0.5 - x + GAMMA_R) / std::f64::consts::E).powf(0.5 - x))
    } else {
        let s = GAMMA_DK
            .iter()
            .enumerate()
            .skip(1)
            .fold(GAMMA_DK[0], |s, t| s + t.1 / (x + t.0 as f64 - 1.0));
        s * TWO_SQRT_E_OVER_PI * ((x - 0.5 + GAMMA_R) / std::f64::consts::E).powf(x - 0.5)
    }
}

fn fact_int(x: u64) -> f64 {
    let mut count: f64 = 1.;
    if x == 0 || x == 1 {
        return 1.;
    } else if x > 170 {
        return f64::INFINITY;
    }
    for i in 2..x + 1 {
        count *= i as f64;
    }
    count
}

fn fact(x: f64) -> f64 {
    if x < 0. {
        f64::NAN
    } else if (x - x.trunc()).abs() < f64::EPSILON {
        fact_int(x.round() as u64)
    } else {
        gamma(x + 1.)
    }
}

fn eval_expr(e: &Expr, full: &str) -> f64 {
    match e {
        Expr::Literal { start, end } => full[*start..*end].parse::<f64>().unwrap(),
        Expr::Constant(MathConst::Pi) => std::f64::consts::PI,
        Expr::Constant(MathConst::E) => std::f64::consts::E,
        Expr::ImplicitZero => 0.,
        Expr::Binary(op, l, r) => {
            let a = eval_expr(l, full);
            let b = eval_expr(r, full);
            match op {
                BinOp::Add => a + b,
                BinOp::Sub => a - b,
                BinOp::Mul => a * b,
                BinOp::Div => a / b,
                BinOp::Pow => {
                    if (a + b).abs() < f64::EPSILON {
                        f64::NAN
                    } else {
                        f64::powf(a, b)
                    }
                }
            }
        }
        Expr::Factorial(l) => fact(eval_expr(l, full)),
        Expr::Call1(f, a) => {
            let x = eval_expr(a, full);
            match f {
                Func1::Cos => x.cos(),
                Func1::Sin => x.sin(),
                Func1::Tan => x.tan(),
                Func1::Acos => x.acos(),
                Func1::Asin => x.asin(),
                Func1::Atan => x.atan(),
                Func1::Ln => x.ln(),
                Func1::Sqrt => x.sqrt(),
            }
        }
        Expr::Call2(f, a, b) => {
            let x = eval_expr(a, full);
            let y = eval_expr(b, full);
            match f {
                Func2::Logab => y.ln() / x.ln(),
                Func2::Nroot => f64::powf(y, 1. / x),
            }
        }
    }
}

fn evaluate(full: &str) -> Result<f64, SyntaxError> {
    parse(full, full, 0).map(|e| eval_expr(&e, full))
}

fn assert_parse_result_float(x: &str, y: f64) {
    assert!((evaluate(x).unwrap() - y).abs() < f64::EPSILON);
}

fn assert_parse_error(x: &str, y: &str) {
    assert_eq!(parse(x, x, 0).expect_err("").render(), y);
}

#[test]
fn parse_unkown_token() {
    assert_parse_error("error", "error while parsing token \"error\" in expression \"error\": unknown token, error <-- HERE");
}

#[test]
fn parse_float_simple() {
    assert_parse_result_float("1", 1.0);
    assert_parse_result_float("-5", -5.0);
}

#[test]
fn parse_float_decimals() {
    assert_parse_result_float("1.", 1.0);
    assert_parse_result_float(".1", 0.1);
    assert_parse_result_float("1.1", 1.1);
}

#[test]
fn parse_float_nan() {
    assert!(evaluate("nan").unwrap().is_nan());
}

#[test]
fn parse_float_inf() {
    assert!(evaluate("inf").unwrap().is_infinite());
}

#[test]
fn parse_operator_sum() {
    assert_parse_result_float("5+3", 8.);
}

#[test]
fn parse_operator_difference() {
    assert_parse_result_float("1-1", 0.);
}

#[test]
fn parse_operator_product() {
    assert_parse_result_float("2*4", 8.);
}

#[test]
fn parse_operator_quotient() {
    assert_parse_result_float("10/2", 5.);
}

#[test]
fn parse_operator_exponent() {
    assert_parse_result_float("2^2", 4.);
}

#[test]
fn parse_operator_factorial() {
    assert!(evaluate("(-1)!").unwrap().is_nan());
    assert_parse_result_float("0!", 1.);
    assert_parse_result_float("1!", 1.);
    assert_parse_result_float("2!", 2.);
    assert_parse_result_float("3!", 6.);
    assert_parse_result_float("4!", 24.);
}

#[test]
fn parse_operator_precedence() {
    assert_parse_result_float("1+2*3", 7.);
    assert_parse_result_float("2*3-1", 5.);
    assert_parse_result_float("1+4/2", 3.);
    assert_parse_result_float("1^2/4", 0.25);
}

#[test]
fn parse_operator_expected_token() {
    assert_parse_error("1*", "error while parsing token \"1*\" in expression \"1*\": expected token after operator *, 1* <-- HERE");
    assert_parse_error("*1", "error while parsing token \"*1\" in expression \"*1\": expected token before operator *, *1 <-- HERE");
}

#[test]
fn parse_operator_unexpected_token() {
    assert_parse_error("1!1", "error while parsing token \"1!1\" in expression \"1!1\": unexpected token after operator \"!\", 1!1 <-- HERE");
}

#[test]
fn parse_implicit_operators() {
    assert_parse_result_float("2*-2", -4.);
    assert_parse_result_float("1--1", 2.);
    assert_parse_result_float("-1*-1", 1.);
}

#[test]
fn parse_unwrap_quotes() {
    assert_parse_result_float("\"10-10\"", 0.);
}

#[test]
fn parse_unwrap_parenthesis_simple() {
    assert_parse_result_float("(1+1)", 2.);
}

#[test]
fn parse_unwrap_parenthesis_nested() {
    assert_parse_result_float("(((1)+1)+(1+(1)))", 4.);
    assert_parse_result_float("(1+(1+(1+(1+(1+(1+(1)))))))", 7.);
}

#[test]
fn parse_unwrap_parenthesis_missing_closing() {
    assert_parse_error("(1+1", "error while parsing token \"(1+1\" in expression \"(1+1\": missing closing parenthesis, (1+1 <-- HERE");
    assert_parse_error("(1+(1)", "error while parsing token \"(1+(1)\" in expression \"(1+(1)\": missing closing parenthesis, (1+(1) <-- HERE");
}

#[test]
fn parse_unwrap_parenthesis_missing_opening() {
    assert_parse_error("1+1)", "error while parsing token \"1)\" in expression \"1+1)\": missing opening parenthesis, 1+1) <-- HERE");
    assert_parse_error("(1+1))", "error while parsing token \"(1+1))\" in expression \"(1+1))\": missing opening parenthesis, (1+1)) <-- HERE");
}

#[test]
fn parse_function_single_cos() {
    assert_parse_result_float("cos(0)", 1.0);
    assert_parse_result_float("cos(pi)", -1.0);
}

#[test]
fn parse_function_single_sin() {
    assert_parse_result_float("sin(0)", 0.0);
    assert_parse_result_float("sin(pi)", 0.0);
}

#[test]
fn parse_function_single_tan() {
    assert_parse_result_float("tan(0)", 0.0);
}

#[test]
fn parse_function_single_acos() {
    assert_parse_result_float("acos(0)", std::f64::consts::FRAC_PI_2);
}

#[test]
fn parse_function_single_asin() {
    assert_parse_result_float("asin(1)", std::f64::consts::FRAC_PI_2);
}

#[test]
fn parse_function_single_atan() {
    assert_parse_result_float("atan(1)", std::f64::consts::FRAC_PI_4);
}

#[test]
fn parse_function_single_ln() {
    assert!(evaluate("ln(0)").unwrap().is_infinite());
    assert_parse_result_float("ln(1)", 0.0);
    assert_parse_result_float("ln(e)", 1.0);
}

#[test]
fn parse_function_single_sqrt() {
    assert_parse_result_float("sqrt(9)", 3.);
    assert_parse_result_float("sqrt(4)", 2.);
    assert_parse_result_float("sqrt(0)", 0.);
    assert!(evaluate("sqrt(-1)").unwrap().is_nan());
}

#[test]
fn parse_function_two_logab() {
    assert_parse_result_float("logab(2,16)", 4.);
    assert_parse_result_float("logab(3,9)", 2.);
    assert!(evaluate("logab(1,1)").unwrap().is_nan());
}

#[test]
fn parse_function_two_nroot() {
    assert_parse_result_float("nroot(3,8)", 2.);
    assert_parse_result_float("nroot(4,16)", 2.);
}

#[test]
fn parse_function_unkown_name() {
    assert_parse_error("test()", "error while parsing token \"test()\" in expression \"test()\": unknown function name \"test\", test() <-- HERE");
}

#[test]
fn parse_left_associative_chain() {
    assert_parse_result_float("1-1-1", -1.);
    assert_parse_result_float("8/4/2", 1.);
}

#[test]
fn parse_factorial_gamma_value() {
    assert!((evaluate("2.5!").unwrap() - 3.3233509704478403).abs() < f64::EPSILON);
}

#[test]
fn parse_wrapping_transparent() {
    assert_eq!(evaluate("(2*3)").unwrap(), evaluate("2*3").unwrap());
    assert_eq!(evaluate("\"2*3\"").unwrap(), evaluate("2*3").unwrap());
    assert_eq!(evaluate("((0.5))").unwrap(), evaluate("0.5").unwrap());
}

#[test]
fn parse_unary_on_group() {
    assert_parse_result_float("-(1+1)", -2.);
}

#[test]
fn parse_literal_round_trip() {
    for v in [0.0_f64, 1.0, 1.25, 0.5, 100.0, 0.0625, 42.0] {
        let text = format!("{}", v);
        assert_eq!(evaluate(&text).unwrap(), v);
    }
    assert_eq!(evaluate("3e2").unwrap(), 300.0);
}

#[test]
fn parse_function_argument_missmatch() {
    assert_parse_error("sqrt()", "error while parsing token \"sqrt()\" in expression \"sqrt()\": incorrect number of arguments passed, function sqrt takes 1 parameters but 0 were passed, sqrt( <-- HERE");
    assert_parse_error("sqrt(1,1)", "error while parsing token \"sqrt(1,1)\" in expression \"sqrt(1,1)\": incorrect number of arguments passed, function sqrt takes 1 parameters but 2 were passed, sqrt( <-- HERE");
    assert_parse_error("logab()", "error while parsing token \"logab()\" in expression \"logab()\": incorrect number of arguments passed, function logab takes 2 parameters but 0 were passed, logab( <-- HERE");
    assert_parse_error("logab(1)", "error while parsing token \"logab(1)\" in expression \"logab(1)\": incorrect number of arguments passed, function logab takes 2 parameters but 1 was passed, logab( <-- HERE");
    assert_parse_error("logab(1,1,1)", "error while parsing token \"logab(1,1,1)\" in expression \"logab(1,1,1)\": incorrect number of arguments passed, function logab takes 2 parameters but 3 were passed, logab( <-- HERE");
}
