//! The recursive evaluator's front: one pass over a subexpression that
//! unwraps quotes and expression-spanning parentheses, finds the top-level
//! operator of loosest precedence (rightmost on ties, which groups
//! same-precedence chains left-to-right), and otherwise classifies the
//! subexpression as a literal, a constant, a function call, or an error.
//! The whole procedure is specified by [`spec_parse`] and proved about
//! [`parse`].

use vstd::prelude::*;
use vstd::string::*;

use crate::ast::{BinOp, Expr, Func1, Func2, MathConst};
use crate::errors::{SpecSyntaxError, SyntaxError};
use crate::helpers::{
    count_args, find_closing_parenthesis, find_nth_comma, is_function_call, lemma_close_from_range,
    lemma_two_args_have_comma, paren_delta, spec_call_paren, spec_count_args, spec_find_closing,
    spec_find_nth_comma, str_eq,
};
use crate::literal::{is_float_literal, spec_is_float_literal};
use crate::numeral::{push_decimal, spec_decimal};

verus! {

/// The characters that act as operators.
pub open spec fn is_op_char(c: char) -> bool {
    c == '+' || c == '-' || c == '*' || c == '/' || c == '^' || c == '!'
}

/// The precedence rank of an operator character: the higher the rank, the
/// tighter it binds. `+ -` bind loosest, then `* /`, then `^`, and the
/// postfix `!` tightest.
pub open spec fn op_prec(c: char) -> int {
    if c == '+' || c == '-' {
        0
    } else if c == '*' || c == '/' {
        1
    } else if c == '^' {
        2
    } else {
        3
    }
}

/// Whether `c` is an operator character, with its rank.
fn op_char(c: char) -> (r: Option<u32>)
    ensures
        r is Some <==> is_op_char(c),
        r is Some ==> r->0 == op_prec(c),
{
    if c == '+' || c == '-' {
        Some(0)
    } else if c == '*' || c == '/' {
        Some(1)
    } else if c == '^' {
        Some(2)
    } else if c == '!' {
        Some(3)
    } else {
        None
    }
}

/// A `+` or `-` immediately preceded by another operator character is a
/// sign, not a split candidate.
pub open spec fn excluded_sign(s: Seq<char>, i: int) -> bool {
    (s[i] == '+' || s[i] == '-') && i != 0 && is_op_char(s[i - 1])
}

/// The operator-scan fold: from index `i`, with `skipping`/`level` tracking
/// an open parenthesis group and `cur` the best split found so far. Inside
/// a group every character is skipped; outside, an operator character that
/// is not an excluded sign replaces `cur` whenever its rank is at most the
/// rank of the current candidate, so the loosest-binding operator wins and
/// ties go to the rightmost occurrence.
pub open spec fn scan_from(
    s: Seq<char>,
    i: int,
    skipping: bool,
    level: int,
    cur: Option<(int, char)>,
) -> Option<(int, char)>
    decreases s.len() - i,
{
    if i < 0 || i >= s.len() {
        cur
    } else {
        let c = s[i];
        if skipping || c == '(' {
            let next = level + paren_delta(c);
            scan_from(s, i + 1, next != 0, next, cur)
        } else if is_op_char(c) && !excluded_sign(s, i) && (cur is None || op_prec(c) <= op_prec(
            (cur->0).1,
        )) {
            scan_from(s, i + 1, false, level, Some((i, c)))
        } else {
            scan_from(s, i + 1, false, level, cur)
        }
    }
}

/// The top-level split point of `s`: the position and character of the
/// loosest-binding operator outside every parenthesis group, rightmost on
/// equal rank. The scan only ever yields the operator character standing
/// at the returned position; the guard makes that plain to every reader of
/// the definition.
pub open spec fn spec_scan(s: Seq<char>) -> Option<(int, char)> {
    match scan_from(s, 0, false, 0, None) {
        Some(pc) => if 0 <= pc.0 < s.len() && s[pc.0] == pc.1 && is_op_char(pc.1) {
            Some(pc)
        } else {
            None
        },
        None => None,
    }
}

/// The exec view of a scan candidate.
spec fn candidate_view(cur: Option<(usize, char)>) -> Option<(int, char)> {
    match cur {
        None => None,
        Some(pc) => Some((pc.0 as int, pc.1)),
    }
}

/// Finds the top-level split operator of `expr`, as [`spec_scan`] says.
fn find_top_operator(expr: &str) -> (r: Option<(usize, char)>)
    ensures
        spec_scan(expr@) == candidate_view(r),
        r is Some ==> (r->0).0 < expr@.len(),
{
    let n = expr.unicode_len();
    let mut i: usize = 0;
    let mut skipping: bool = false;
    let mut level: i128 = 0;
    let mut cur: Option<(usize, char)> = None;
    while i < n
        invariant
            i <= n,
            n == expr@.len(),
            -(i as int) <= level <= i as int,
            scan_from(expr@, 0, false, 0, None) == scan_from(
                expr@,
                i as int,
                skipping,
                level as int,
                candidate_view(cur),
            ),
            cur is Some ==> ({
                let (p, c) = cur->0;
                &&& p < i
                &&& expr@[p as int] == c
                &&& is_op_char(c)
            }),
        decreases n - i,
    {
        let c = expr.get_char(i);
        if skipping || c == '(' {
            let next: i128 = level + if c == '(' {
                1
            } else if c == ')' {
                -1
            } else {
                0
            };
            proof {
                assert(next == level + paren_delta(expr@[i as int]));
            }
            skipping = next != 0;
            level = next;
        } else {
            match op_char(c) {
                Some(rank) => {
                    let signlike = (c == '+' || c == '-') && i != 0 && op_char(
                        expr.get_char(i - 1),
                    ).is_some();
                    proof {
                        assert(signlike == excluded_sign(expr@, i as int));
                    }
                    if !signlike {
                        let better = match cur {
                            None => true,
                            Some((_, pc)) => {
                                let prev_rank = match op_char(pc) {
                                    Some(pr) => pr,
                                    None => 0,
                                };
                                rank <= prev_rank
                            },
                        };
                        if better {
                            cur = Some((i, c));
                        }
                    }
                },
                None => {},
            }
        }
        i = i + 1;
    }
    proof {
        if cur is Some {
            assert(spec_scan(expr@) == candidate_view(cur));
        }
    }
    cur
}

/// A named function together with its arity, one variant per argument
/// count.
#[derive(Debug, Clone, Copy, PartialEq, Eq)]
pub enum FuncKind {
    /// A function of one argument.
    One(Func1),
    /// A function of two arguments.
    Two(Func2),
}

/// How many arguments a function requires.
pub open spec fn func_arity(k: FuncKind) -> nat {
    match k {
        FuncKind::One(_) => 1,
        FuncKind::Two(_) => 2,
    }
}

/// The function table: each name the evaluator knows, with its arity.
pub open spec fn spec_lookup_function(name: Seq<char>) -> Option<FuncKind> {
    if name == "cos"@ {
        Some(FuncKind::One(Func1::Cos))
    } else if name == "sin"@ {
        Some(FuncKind::One(Func1::Sin))
    } else if name == "tan"@ {
        Some(FuncKind::One(Func1::Tan))
    } else if name == "acos"@ {
        Some(FuncKind::One(Func1::Acos))
    } else if name == "asin"@ {
        Some(FuncKind::One(Func1::Asin))
    } else if name == "atan"@ {
        Some(FuncKind::One(Func1::Atan))
    } else if name == "ln"@ {
        Some(FuncKind::One(Func1::Ln))
    } else if name == "sqrt"@ {
        Some(FuncKind::One(Func1::Sqrt))
    } else if name == "logab"@ {
        Some(FuncKind::Two(Func2::Logab))
    } else if name == "nroot"@ {
        Some(FuncKind::Two(Func2::Nroot))
    } else {
        None
    }
}

/// Looks a function name up in the table of [`spec_lookup_function`].
fn lookup_function(name: &str) -> (r: Option<FuncKind>)
    ensures
        r == spec_lookup_function(name@),
{
    if str_eq(name, "cos") {
        Some(FuncKind::One(Func1::Cos))
    } else if str_eq(name, "sin") {
        Some(FuncKind::One(Func1::Sin))
    } else if str_eq(name, "tan") {
        Some(FuncKind::One(Func1::Tan))
    } else if str_eq(name, "acos") {
        Some(FuncKind::One(Func1::Acos))
    } else if str_eq(name, "asin") {
        Some(FuncKind::One(Func1::Asin))
    } else if str_eq(name, "atan") {
        Some(FuncKind::One(Func1::Atan))
    } else if str_eq(name, "ln") {
        Some(FuncKind::One(Func1::Ln))
    } else if str_eq(name, "sqrt") {
        Some(FuncKind::One(Func1::Sqrt))
    } else if str_eq(name, "logab") {
        Some(FuncKind::Two(Func2::Logab))
    } else if str_eq(name, "nroot") {
        Some(FuncKind::Two(Func2::Nroot))
    } else {
        None
    }
}

/// The constant table: each named constant the evaluator knows.
pub open spec fn spec_lookup_constant(name: Seq<char>) -> Option<MathConst> {
    if name == "pi"@ {
        Some(MathConst::Pi)
    } else if name == "e"@ {
        Some(MathConst::E)
    } else {
        None
    }
}

/// Looks a constant name up in the table of [`spec_lookup_constant`].
fn lookup_constant(name: &str) -> (r: Option<MathConst>)
    ensures
        r == spec_lookup_constant(name@),
{
    if str_eq(name, "pi") {
        Some(MathConst::Pi)
    } else if str_eq(name, "e") {
        Some(MathConst::E)
    } else {
        None
    }
}

/// The binary-operator variant for an operator character; `!` has its own
/// expression form and never reaches this map.
pub open spec fn binop_of(c: char) -> BinOp {
    if c == '+' {
        BinOp::Add
    } else if c == '-' {
        BinOp::Sub
    } else if c == '*' {
        BinOp::Mul
    } else if c == '/' {
        BinOp::Div
    } else {
        BinOp::Pow
    }
}

/// All characters of `s` are spaces (vacuously true of the empty
/// sequence).
pub open spec fn all_spaces(s: Seq<char>) -> bool {
    forall|i: int| 0 <= i < s.len() ==> s[i] == ' '
}

/// Whether every character of `expr` is a space.
fn all_spaces_exec(expr: &str) -> (b: bool)
    ensures
        b == all_spaces(expr@),
{
    let n = expr.unicode_len();
    let mut i: usize = 0;
    while i < n
        invariant
            i <= n,
            n == expr@.len(),
            forall|j: int| 0 <= j < i ==> expr@[j] == ' ',
        decreases n - i,
    {
        if expr.get_char(i) != ' ' {
            return false;
        }
        i = i + 1;
    }
    true
}

/// The message of the blank-input error.
pub open spec fn msg_empty_token() -> Seq<char> {
    "trying to parse an empty token"@
}

/// The message of an unclosed parenthesis group.
pub open spec fn msg_missing_closing() -> Seq<char> {
    "missing closing parenthesis"@
}

/// The message of a stray, unmatched closing parenthesis.
pub open spec fn msg_missing_opening() -> Seq<char> {
    "missing opening parenthesis"@
}

/// The message of a token that is neither a literal, a constant, nor a
/// call.
pub open spec fn msg_unknown_token() -> Seq<char> {
    "unknown token"@
}

/// The message of a call whose name is not in the function table.
pub open spec fn msg_unknown_function(name: Seq<char>) -> Seq<char> {
    "unknown function name \""@ + name + "\""@
}

/// The message of an operator with nothing on its left that is not a sign.
pub open spec fn msg_expected_before(c: char) -> Seq<char> {
    "expected token before operator "@ + seq![c]
}

/// The message of a non-postfix operator with nothing on its right.
pub open spec fn msg_expected_after(c: char) -> Seq<char> {
    "expected token after operator "@ + seq![c]
}

/// The message of a factorial that is not the rightmost token.
pub open spec fn msg_unexpected_after_factorial() -> Seq<char> {
    "unexpected token after operator \"!\""@
}

/// The message of a call with the wrong number of arguments.
pub open spec fn msg_arity(name: Seq<char>, expected: nat, actual: nat) -> Seq<char> {
    "incorrect number of arguments passed, function "@ + name + " takes "@ + spec_decimal(expected)
        + " parameters but "@ + spec_decimal(actual) + (if actual == 1 {
        " was passed"@
    } else {
        " were passed"@
    })
}

/// The interior of a quoted or parenthesised token: everything between the
/// first and last characters, or nothing when they are the same character.
pub open spec fn group_inner(s: Seq<char>) -> Seq<char> {
    if s.len() >= 2 {
        s.subrange(1, s.len() - 1)
    } else {
        Seq::empty()
    }
}

/// What parsing a subexpression yields, as [`parse`] computes it. `s` is
/// the subexpression, `full` the whole original expression (recorded in
/// every error), and `off` the position of `s[0]` within `full`.
pub open spec fn spec_parse(s: Seq<char>, full: Seq<char>, off: int) -> Result<
    Expr,
    SpecSyntaxError,
>
    decreases s.len(), 3int,
{
    if all_spaces(s) {
        Err(SpecSyntaxError {
            expression: s,
            full_expression: full,
            message: msg_empty_token(),
            position: off,
        })
    } else if s[0] == '"' && s[s.len() - 1] == '"' {
        spec_parse(group_inner(s), full, off + 1)
    } else if s[0] == '(' {
        match spec_find_closing(s) {
            None => Err(SpecSyntaxError {
                expression: s,
                full_expression: full,
                message: msg_missing_closing(),
                position: off + s.len(),
            }),
            Some(i) => if i == s.len() - 1 {
                spec_parse(group_inner(s), full, off + 1)
            } else {
                spec_parse_split(s, full, off)
            },
        }
    } else {
        spec_parse_split(s, full, off)
    }
}

/// Parsing once quote and parenthesis unwrapping are done: split at the
/// top-level operator, or read the subexpression as a leaf.
pub open spec fn spec_parse_split(s: Seq<char>, full: Seq<char>, off: int) -> Result<
    Expr,
    SpecSyntaxError,
>
    decreases s.len(), 2int,
{
    match spec_scan(s) {
        None => spec_parse_leaf(s, full, off),
        Some((pos, c)) => spec_parse_operator(s, full, off, pos, c),
    }
}

/// A leaf: a literal, a constant, a function call, or one of the leaf
/// errors.
pub open spec fn spec_parse_leaf(s: Seq<char>, full: Seq<char>, off: int) -> Result<
    Expr,
    SpecSyntaxError,
>
    decreases s.len(), 1int,
{
    if spec_is_float_literal(s) {
        Ok(Expr::Literal { start: off as usize, end: (off + s.len()) as usize })
    } else {
        match spec_lookup_constant(s) {
            Some(k) => Ok(Expr::Constant(k)),
            None => match spec_call_paren(s) {
                Some(pos) => spec_parse_call(s, full, off, pos),
                None => if s[s.len() - 1] == ')' {
                    Err(SpecSyntaxError {
                        expression: s,
                        full_expression: full,
                        message: msg_missing_opening(),
                        position: off + s.len(),
                    })
                } else {
                    Err(SpecSyntaxError {
                        expression: s,
                        full_expression: full,
                        message: msg_unknown_token(),
                        position: off + s.len(),
                    })
                },
            },
        }
    }
}

/// A function call `name(args)` with the `(` at `pos`: arity is checked
/// against the table, then each argument is parsed at its own offset.
pub open spec fn spec_parse_call(s: Seq<char>, full: Seq<char>, off: int, pos: int) -> Result<
    Expr,
    SpecSyntaxError,
>
    decreases s.len(), 0int,
        when 0 < pos && pos + 1 < s.len()
{
    let name = s.subrange(0, pos);
    let args = s.subrange(pos + 1, s.len() - 1);
    match spec_lookup_function(name) {
        None => Err(SpecSyntaxError {
            expression: s,
            full_expression: full,
            message: msg_unknown_function(name),
            position: off + s.len(),
        }),
        Some(kind) => {
            let actual = spec_count_args(args);
            if actual != func_arity(kind) {
                Err(SpecSyntaxError {
                    expression: s,
                    full_expression: full,
                    message: msg_arity(name, func_arity(kind), actual),
                    position: off + pos + 1,
                })
            } else {
                match kind {
                    FuncKind::One(f) => match spec_parse(args, full, off + pos + 1) {
                        Ok(a) => Ok(Expr::Call1(f, Box::new(a))),
                        Err(e) => Err(e),
                    },
                    FuncKind::Two(f) => match spec_find_nth_comma(args, 1) {
                        // Two arguments always have a first top-level comma,
                        // so the None arm below is never taken.
                        Some(k) => match spec_parse(args.subrange(0, k), full, off + pos + 1) {
                            Err(e) => Err(e),
                            Ok(a) => match spec_parse(
                                args.subrange(k + 1, args.len() as int),
                                full,
                                off + pos + k + 2,
                            ) {
                                Err(e) => Err(e),
                                Ok(b) => Ok(Expr::Call2(f, Box::new(a), Box::new(b))),
                            },
                        },
                        None => Err(SpecSyntaxError {
                            expression: s,
                            full_expression: full,
                            message: msg_arity(name, func_arity(kind), actual),
                            position: off + pos + 1,
                        }),
                    },
                }
            }
        },
    }
}

/// A split at the operator `c` standing at `pos`: an empty left side is
/// the implicit zero of a unary `+`/`-`, an empty right side is allowed
/// only for the postfix `!`, and everything after a `!` is an error.
pub open spec fn spec_parse_operator(
    s: Seq<char>,
    full: Seq<char>,
    off: int,
    pos: int,
    c: char,
) -> Result<Expr, SpecSyntaxError>
    decreases s.len(), 0int,
        when 0 <= pos < s.len()
{
    let left = s.subrange(0, pos);
    let right = s.subrange(pos + 1, s.len() as int);
    if left.len() == 0 && !(c == '+' || c == '-') {
        Err(SpecSyntaxError {
            expression: s,
            full_expression: full,
            message: msg_expected_before(c),
            position: off + s.len(),
        })
    } else {
        let lres = if left.len() == 0 {
            Ok(Expr::ImplicitZero)
        } else {
            spec_parse(left, full, off)
        };
        match lres {
            Err(e) => Err(e),
            Ok(l) => if right.len() == 0 && c != '!' {
                Err(SpecSyntaxError {
                    expression: s,
                    full_expression: full,
                    message: msg_expected_after(c),
                    position: off + s.len(),
                })
            } else if right.len() > 0 && c == '!' {
                Err(SpecSyntaxError {
                    expression: s,
                    full_expression: full,
                    message: msg_unexpected_after_factorial(),
                    position: off + s.len(),
                })
            } else if c == '!' {
                Ok(Expr::Factorial(Box::new(l)))
            } else {
                match spec_parse(right, full, off + pos + 1) {
                    Err(e) => Err(e),
                    Ok(r) => Ok(Expr::Binary(binop_of(c), Box::new(l), Box::new(r))),
                }
            },
        }
    }
}

/// Every error the parser signals points into the window of the
/// subexpression it was parsing: at or after its first character, at or
/// just past its last.
pub proof fn lemma_parse_err_position(s: Seq<char>, full: Seq<char>, off: int)
    requires
        spec_parse(s, full, off) is Err,
    ensures
        off <= spec_parse(s, full, off)->Err_0.position <= off + s.len(),
        spec_parse(s, full, off)->Err_0.full_expression == full,
    decreases s.len(),
{
    if all_spaces(s) {
    } else if s[0] == '"' && s[s.len() - 1] == '"' {
        lemma_parse_err_position(group_inner(s), full, off + 1);
    } else if s[0] == '(' && spec_find_closing(s) is None {
    } else if s[0] == '(' && spec_find_closing(s) == Some(s.len() - 1) {
        lemma_parse_err_position(group_inner(s), full, off + 1);
    } else {
        assert(spec_parse(s, full, off) == spec_parse_split(s, full, off));
        match spec_scan(s) {
            None => {
                assert(spec_parse_split(s, full, off) == spec_parse_leaf(s, full, off));
                match spec_call_paren(s) {
                    Some(pos) => {
                        assert(spec_parse_leaf(s, full, off) == spec_parse_call(s, full, off, pos));
                        let args = s.subrange(pos + 1, s.len() - 1);
                        if spec_parse(args, full, off + pos + 1) is Err {
                            lemma_parse_err_position(args, full, off + pos + 1);
                        }
                        match spec_find_nth_comma(args, 1) {
                            Some(k) => {
                                if spec_parse(args.subrange(0, k), full, off + pos + 1) is Err {
                                    lemma_parse_err_position(
                                        args.subrange(0, k),
                                        full,
                                        off + pos + 1,
                                    );
                                }
                                if spec_parse(
                                    args.subrange(k + 1, args.len() as int),
                                    full,
                                    off + pos + k + 2,
                                ) is Err {
                                    lemma_parse_err_position(
                                        args.subrange(k + 1, args.len() as int),
                                        full,
                                        off + pos + k + 2,
                                    );
                                }
                            },
                            None => {},
                        }
                    },
                    None => {},
                }
            },
            Some((pos, c)) => {
                assert(spec_parse_split(s, full, off) == spec_parse_operator(s, full, off, pos, c));
                let left = s.subrange(0, pos);
                let right = s.subrange(pos + 1, s.len() as int);
                if left.len() > 0 && spec_parse(left, full, off) is Err {
                    lemma_parse_err_position(left, full, off);
                }
                if right.len() > 0 && spec_parse(right, full, off + pos + 1) is Err {
                    lemma_parse_err_position(right, full, off + pos + 1);
                }
            },
        }
    }
}

/// The one-character string for an operator character.
fn op_str(c: char) -> (s: &'static str)
    requires
        is_op_char(c),
    ensures
        s@ == seq![c],
{
    let s = match c {
        '+' => "+",
        '-' => "-",
        '*' => "*",
        '/' => "/",
        '^' => "^",
        _ => "!",
    };
    proof {
        reveal_strlit("+");
        reveal_strlit("-");
        reveal_strlit("*");
        reveal_strlit("/");
        reveal_strlit("^");
        reveal_strlit("!");
        assert(s@ =~= seq![c]);
    }
    s
}

/// The binary-operator variant for an operator character other than `!`.
fn binop_char(c: char) -> (op: BinOp)
    requires
        is_op_char(c),
    ensures
        op == binop_of(c),
{
    match c {
        '+' => BinOp::Add,
        '-' => BinOp::Sub,
        '*' => BinOp::Mul,
        '/' => BinOp::Div,
        _ => BinOp::Pow,
    }
}

/// Packs an error for the subexpression `expr` of `full_expr`.
fn make_error(expr: &str, full_expr: &str, msg: String, pos: usize) -> (e: SyntaxError)
    ensures
        e@ == (SpecSyntaxError {
            expression: expr@,
            full_expression: full_expr@,
            message: msg@,
            position: pos as int,
        }),
{
    SyntaxError::new(String::from_str(expr), String::from_str(full_expr), msg, pos)
}

/// Parses a subexpression in which no top-level operator split was found:
/// a literal, a constant, a function call, or one of the leaf errors, as
/// [`spec_parse_leaf`] says.
#[verifier::rlimit(100)]
fn parse_leaf(expr: &str, full_expr: &str, offset: usize) -> (r: Result<Expr, SyntaxError>)
    requires
        expr@.len() > 0,
        offset + expr@.len() <= full_expr@.len(),
        expr@ == full_expr@.subrange(offset as int, offset as int + expr@.len()),
    ensures
        r is Ok <==> spec_parse_leaf(expr@, full_expr@, offset as int) is Ok,
        r is Ok ==> r->Ok_0 == spec_parse_leaf(expr@, full_expr@, offset as int)->Ok_0,
        r is Err ==> r->Err_0@ == spec_parse_leaf(expr@, full_expr@, offset as int)->Err_0,
    decreases expr@.len(), 0int,
{
    let ghost sres = spec_parse_leaf(expr@, full_expr@, offset as int);
    // the full expression's length bounds every offset sum below
    let fl = full_expr.unicode_len();
    let n = expr.unicode_len();
    let last = expr.get_char(n - 1);
    if is_float_literal(expr) {
        return Ok(Expr::Literal { start: offset, end: offset + n });
    }
    match lookup_constant(expr) {
        Some(k) => {
            return Ok(Expr::Constant(k));
        },
        None => {},
    }
    match is_function_call(expr) {
        Some((name, args, pos)) => {
            proof {
                assert(spec_call_paren(expr@) == Some(pos as int));
                assert(sres == spec_parse_call(
                    expr@,
                    full_expr@,
                    offset as int,
                    pos as int,
                ));
            }
            match lookup_function(name) {
                None => {
                    let mut m = String::from_str("unknown function name \"");
                    m.append(name);
                    m.append("\"");
                    proof {
                        assert(m@ =~= msg_unknown_function(name@));
                    }
                    return Err(make_error(expr, full_expr, m, offset + n));
                },
                Some(kind) => {
                    let expected: usize = match kind {
                        FuncKind::One(_) => 1,
                        FuncKind::Two(_) => 2,
                    };
                    let actual = count_args(args);
                    if actual != expected {
                        let mut m = String::from_str(
                            "incorrect number of arguments passed, function ",
                        );
                        m.append(name);
                        m.append(" takes ");
                        push_decimal(&mut m, expected);
                        m.append(" parameters but ");
                        push_decimal(&mut m, actual);
                        if actual == 1 {
                            m.append(" was passed");
                        } else {
                            m.append(" were passed");
                        }
                        proof {
                            assert(m@ =~= msg_arity(
                                name@,
                                expected as nat,
                                actual as nat,
                            ));
                        }
                        return Err(make_error(expr, full_expr, m, offset + pos + 1));
                    }
                    proof {
                        assert(args@ =~= full_expr@.subrange(
                            offset + pos + 1,
                            offset + pos + 1 + args@.len(),
                        ));
                    }
                    match kind {
                        FuncKind::One(f) => {
                            match parse(args, full_expr, offset + pos + 1) {
                                Ok(a) => {
                                    return Ok(Expr::Call1(f, Box::new(a)));
                                },
                                Err(e) => {
                                    return Err(e);
                                },
                            }
                        },
                        FuncKind::Two(f) => {
                            match find_nth_comma(args, 1) {
                                None => {
                                    proof {
                                        lemma_two_args_have_comma(args@);
                                        assert(false);
                                    }
                                    unreached()
                                },
                                Some(k) => {
                                    let args_n = args.unicode_len();
                                    let first_arg = args.substring_char(0, k);
                                    let second_arg = args.substring_char(k + 1, args_n);
                                    proof {
                                        assert(first_arg@ =~= full_expr@.subrange(
                                            offset + pos + 1,
                                            offset + pos + 1 + k,
                                        ));
                                        assert(second_arg@ =~= full_expr@.subrange(
                                            offset + pos + k + 2,
                                            offset + pos + k + 2 + (args@.len() - k - 1),
                                        ));
                                    }
                                    match parse(first_arg, full_expr, offset + pos + 1) {
                                        Err(e) => {
                                            return Err(e);
                                        },
                                        Ok(a) => {
                                            match parse(
                                                second_arg,
                                                full_expr,
                                                offset + pos + k + 2,
                                            ) {
                                                Err(e) => {
                                                    return Err(e);
                                                },
                                                Ok(b) => {
                                                    return Ok(
                                                        Expr::Call2(
                                                            f,
                                                            Box::new(a),
                                                            Box::new(b),
                                                        ),
                                                    );
                                                },
                                            }
                                        },
                                    }
                                },
                            }
                        },
                    }
                },
            }
        },
        None => {
            if last == ')' {
                return Err(
                    make_error(
                        expr,
                        full_expr,
                        String::from_str("missing opening parenthesis"),
                        offset + n,
                    ),
                );
            } else {
                return Err(
                    make_error(expr, full_expr, String::from_str("unknown token"), offset + n),
                );
            }
        },
    }
}

/// Parses a subexpression that splits at the operator `c` standing at
/// `pos`, as [`spec_parse_operator`] says.
#[verifier::rlimit(100)]
fn parse_operator(expr: &str, full_expr: &str, offset: usize, pos: usize, c: char) -> (r: Result<
    Expr,
    SyntaxError,
>)
    requires
        offset + expr@.len() <= full_expr@.len(),
        expr@ == full_expr@.subrange(offset as int, offset as int + expr@.len()),
        pos < expr@.len(),
        expr@[pos as int] == c,
        is_op_char(c),
    ensures
        r is Ok <==> spec_parse_operator(expr@, full_expr@, offset as int, pos as int, c) is Ok,
        r is Ok ==> r->Ok_0 == spec_parse_operator(
            expr@,
            full_expr@,
            offset as int,
            pos as int,
            c,
        )->Ok_0,
        r is Err ==> r->Err_0@ == spec_parse_operator(
            expr@,
            full_expr@,
            offset as int,
            pos as int,
            c,
        )->Err_0,
    decreases expr@.len(), 0int,
{
    let ghost sres = spec_parse_operator(expr@, full_expr@, offset as int, pos as int, c);
    // the full expression's length bounds every offset sum below
    let fl = full_expr.unicode_len();
    let n = expr.unicode_len();
    let lres: Expr;
    if pos == 0 {
        if !(c == '+' || c == '-') {
            let mut m = String::from_str("expected token before operator ");
            m.append(op_str(c));
            proof {
                assert(m@ =~= msg_expected_before(c));
            }
            return Err(make_error(expr, full_expr, m, offset + n));
        }
        lres = Expr::ImplicitZero;
    } else {
        let left = expr.substring_char(0, pos);
        proof {
            assert(left@ =~= full_expr@.subrange(
                offset as int,
                offset as int + left@.len(),
            ));
        }
        match parse(left, full_expr, offset) {
            Ok(l) => {
                lres = l;
            },
            Err(e) => {
                return Err(e);
            },
        }
    }
    if pos + 1 == n {
        if c != '!' {
            let mut m = String::from_str("expected token after operator ");
            m.append(op_str(c));
            proof {
                assert(m@ =~= msg_expected_after(c));
            }
            return Err(make_error(expr, full_expr, m, offset + n));
        }
        return Ok(Expr::Factorial(Box::new(lres)));
    }
    if c == '!' {
        return Err(
            make_error(
                expr,
                full_expr,
                String::from_str("unexpected token after operator \"!\""),
                offset + n,
            ),
        );
    }
    let right = expr.substring_char(pos + 1, n);
    proof {
        assert(right@ =~= full_expr@.subrange(
            offset + pos + 1,
            offset + pos + 1 + right@.len(),
        ));
    }
    match parse(right, full_expr, offset + pos + 1) {
        Ok(b) => Ok(Expr::Binary(binop_char(c), Box::new(lres), Box::new(b))),
        Err(e) => Err(e),
    }
}

/// Parses the subexpression `expr`, standing at character offset `offset`
/// within `full_expr`, into an expression tree, or into the located error
/// that [`spec_parse`] names. Every structural decision — quote and
/// parenthesis unwrapping, the operator split, leaf classification, arity
/// checking, and error positions — is fixed by that specification.
#[verifier::rlimit(100)]
pub fn parse(expr: &str, full_expr: &str, offset: usize) -> (r: Result<Expr, SyntaxError>)
    requires
        offset + expr@.len() <= full_expr@.len(),
        expr@ == full_expr@.subrange(offset as int, offset as int + expr@.len()),
    ensures
        r is Ok <==> spec_parse(expr@, full_expr@, offset as int) is Ok,
        r is Ok ==> r->Ok_0 == spec_parse(expr@, full_expr@, offset as int)->Ok_0,
        r is Err ==> r->Err_0@ == spec_parse(expr@, full_expr@, offset as int)->Err_0,
        r is Err ==> r->Err_0.wf(),
    decreases expr@.len(), 1int,
{
    let ghost sres = spec_parse(expr@, full_expr@, offset as int);
    proof {
        if sres is Err {
            lemma_parse_err_position(expr@, full_expr@, offset as int);
        }
    }
    // the full expression's length bounds every offset sum below
    let fl = full_expr.unicode_len();
    let n = expr.unicode_len();
    if all_spaces_exec(expr) {
        return Err(
            make_error(
                expr,
                full_expr,
                String::from_str("trying to parse an empty token"),
                offset,
            ),
        );
    }
    proof {
        if n == 0 {
            assert(all_spaces(expr@));
        }
    }
    let first = expr.get_char(0);
    let last = expr.get_char(n - 1);
    if first == '"' && last == '"' {
        let inner = if n >= 2 {
            expr.substring_char(1, n - 1)
        } else {
            expr.substring_char(0, 0)
        };
        proof {
            assert(inner@ =~= group_inner(expr@));
            assert(inner@ =~= full_expr@.subrange(
                offset + 1,
                offset + 1 + inner@.len(),
            ));
            assert(sres == spec_parse(inner@, full_expr@, offset + 1));
        }
        return parse(inner, full_expr, offset + 1);
    }
    if first == '(' {
        match find_closing_parenthesis(expr) {
            None => {
                return Err(
                    make_error(
                        expr,
                        full_expr,
                        String::from_str("missing closing parenthesis"),
                        offset + n,
                    ),
                );
            },
            Some(i) => {
                if i == n - 1 {
                    proof {
                        lemma_close_from_range(expr@, 1, 1);
                        assert(i >= 1);
                        assert(expr@.subrange(1, n - 1) =~= full_expr@.subrange(
                            offset + 1,
                            offset + 1 + (n - 2),
                        ));
                    }
                    let inner = expr.substring_char(1, n - 1);
                    proof {
                        assert(inner@ =~= group_inner(expr@));
                        assert(sres == spec_parse(inner@, full_expr@, offset + 1));
                    }
                    return parse(inner, full_expr, offset + 1);
                }
            },
        }
    }
    proof {
        assert(sres == spec_parse_split(expr@, full_expr@, offset as int));
    }
    match find_top_operator(expr) {
        None => {
            proof {
                assert(sres == spec_parse_leaf(expr@, full_expr@, offset as int));
            }
            parse_leaf(expr, full_expr, offset)
        },
        Some((pos, c)) => {
            proof {
                assert(spec_scan(expr@) == Some((pos as int, c)));
                assert(is_op_char(c));
                assert(sres == spec_parse_operator(
                    expr@,
                    full_expr@,
                    offset as int,
                    pos as int,
                    c,
                ));
            }
            parse_operator(expr, full_expr, offset, pos, c)
        },
    }
}

} // verus!
