//! The structured form of a parsed expression. Leaves carry either a
//! numeric literal, given as the character span of its text within the full
//! expression, or a named constant; inner nodes are the binary operators,
//! the postfix factorial, and the fixed-arity named functions. A closed set
//! of variants stands in for the operator and function tables, so every
//! dispatch over them is an exhaustive match.

use vstd::prelude::*;

verus! {

/// A binary operator: `+ - * / ^`.
#[derive(Debug, Clone, Copy, PartialEq, Eq)]
pub enum BinOp {
    /// Addition, `+`.
    Add,
    /// Subtraction, `-`.
    Sub,
    /// Multiplication, `*`.
    Mul,
    /// Division, `/`.
    Div,
    /// Exponentiation, `^`.
    Pow,
}

/// A named function of one argument.
#[derive(Debug, Clone, Copy, PartialEq, Eq)]
pub enum Func1 {
    /// `cos`: cosine.
    Cos,
    /// `sin`: sine.
    Sin,
    /// `tan`: tangent.
    Tan,
    /// `acos`: inverse cosine.
    Acos,
    /// `asin`: inverse sine.
    Asin,
    /// `atan`: inverse tangent.
    Atan,
    /// `ln`: natural logarithm.
    Ln,
    /// `sqrt`: square root.
    Sqrt,
}

/// A named function of two arguments.
#[derive(Debug, Clone, Copy, PartialEq, Eq)]
pub enum Func2 {
    /// `logab(a, b)`: the base-`a` logarithm of `b`.
    Logab,
    /// `nroot(n, x)`: the `n`-th root of `x`.
    Nroot,
}

/// A named mathematical constant.
#[derive(Debug, Clone, Copy, PartialEq, Eq)]
pub enum MathConst {
    /// `pi`.
    Pi,
    /// `e`.
    E,
}

/// A parsed expression. `Literal` spans are character offsets into the full
/// expression the tree was parsed from; `ImplicitZero` is the zero operand
/// substituted when `+` or `-` stands in unary position.
#[derive(Debug, PartialEq)]
pub enum Expr {
    /// A numeric literal: the characters `full[start .. end]` of the full
    /// expression, matching the decimal-literal grammar.
    Literal { start: usize, end: usize },
    /// A named constant.
    Constant(MathConst),
    /// The operand substituted for the empty left side of a unary `+`/`-`.
    ImplicitZero,
    /// A binary operator applied to two operands.
    Binary(BinOp, Box<Expr>, Box<Expr>),
    /// The postfix factorial, generalised to non-integer operands.
    Factorial(Box<Expr>),
    /// A call of a one-argument named function.
    Call1(Func1, Box<Expr>),
    /// A call of a two-argument named function.
    Call2(Func2, Box<Expr>, Box<Expr>),
}

} // verus!
