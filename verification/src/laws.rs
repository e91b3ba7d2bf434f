//! Laws of the parser, proved once and for all inputs: a numeric literal
//! parses to exactly its own leaf, or, with a leading sign, to the unary
//! tree over that leaf; parsing does not depend on
//! where a subexpression stands, beyond moving literal spans and error
//! positions along; and wrapping an expression in quotes or in
//! parentheses is transparent, both for a subexpression and for the
//! whole input.

use vstd::prelude::*;

use crate::ast::Expr;
use crate::errors::SpecSyntaxError;
use crate::helpers::{
    call_shape_from, close_from, is_letter, paren_delta, spec_call_paren, spec_count_args,
    spec_find_closing, spec_find_nth_comma,
};
use crate::literal::{
    exp_marker_from, first_exp_marker, is_digit_char, is_exponent, is_inf_keyword,
    is_infinity_keyword, is_mantissa, is_nan_keyword, spec_is_float_literal, strip_sign,
};
use crate::parser::{
    all_spaces, binop_of, func_arity, group_inner, is_op_char, scan_from, spec_lookup_constant,
    spec_lookup_function, spec_parse, spec_parse_call, spec_parse_leaf, spec_parse_operator,
    spec_parse_split, spec_scan, FuncKind,
};

verus! {

/// The parenthesis nesting level after the first `i` characters of `s`.
pub open spec fn prefix_depth(s: Seq<char>, i: int) -> int
    decreases i,
{
    if i <= 0 {
        0
    } else {
        prefix_depth(s, i - 1) + paren_delta(s[i - 1])
    }
}

/// Well-nested text: the running nesting level never dips below zero and
/// ends at zero.
pub open spec fn well_nested(s: Seq<char>) -> bool {
    &&& prefix_depth(s, s.len() as int) == 0
    &&& forall|i: int| 0 <= i <= s.len() ==> prefix_depth(s, i) >= 0
}

/// The prefix depth only depends on the characters of the prefix.
proof fn lemma_prefix_depth_eq(s: Seq<char>, t: Seq<char>, i: int)
    requires
        0 <= i <= s.len(),
        i <= t.len(),
        forall|j: int| 0 <= j < i ==> s[j] == t[j],
    ensures
        prefix_depth(s, i) == prefix_depth(t, i),
    decreases i,
{
    if i > 0 {
        lemma_prefix_depth_eq(s, t, i - 1);
    }
}

/// The prefix depth splits at any midpoint into the depth up to the
/// midpoint plus the depth of the remainder's own prefix.
proof fn lemma_prefix_depth_concat(s: Seq<char>, m: int, i: int)
    requires
        0 <= m <= i <= s.len(),
    ensures
        prefix_depth(s, i) == prefix_depth(s, m) + prefix_depth(
            s.subrange(m, s.len() as int),
            i - m,
        ),
    decreases i - m,
{
    if i > m {
        lemma_prefix_depth_concat(s, m, i - 1);
        assert(s.subrange(m, s.len() as int)[i - m - 1] == s[i - 1]);
    }
}

/// A text without parentheses has prefix depth zero everywhere.
proof fn lemma_no_paren_depth(s: Seq<char>, i: int)
    requires
        0 <= i <= s.len(),
        forall|j: int| 0 <= j < i ==> s[j] != '(' && s[j] != ')',
    ensures
        prefix_depth(s, i) == 0,
    decreases i,
{
    if i > 0 {
        lemma_no_paren_depth(s, i - 1);
    }
}

/// Where the closing scan succeeds from `i` at the true running level, the
/// level stays away from zero strictly between, and returns to zero just
/// past the found index.
proof fn lemma_close_characterize(s: Seq<char>, i: int)
    requires
        0 <= i <= s.len(),
        close_from(s, i, prefix_depth(s, i)) is Some,
    ensures
        ({
            let m = close_from(s, i, prefix_depth(s, i))->0;
            &&& i <= m < s.len()
            &&& prefix_depth(s, m + 1) == 0
            &&& forall|k: int| i < k <= m ==> prefix_depth(s, k) != 0
        }),
    decreases s.len() - i,
{
    let next = prefix_depth(s, i) + paren_delta(s[i]);
    assert(next == prefix_depth(s, i + 1));
    if next == 0 {
    } else {
        lemma_close_characterize(s, i + 1);
    }
}

/// Between an opening parenthesis and its match the running level stays at
/// least one, once it is at least one and never zero.
proof fn lemma_positive_run(s: Seq<char>, k: int, m: int)
    requires
        0 <= k <= m <= s.len(),
        prefix_depth(s, k) >= 1,
        forall|j: int| k < j <= m ==> prefix_depth(s, j) != 0,
    ensures
        forall|j: int| k <= j <= m ==> prefix_depth(s, j) >= 1,
    decreases m - k,
{
    if k < m {
        assert(prefix_depth(s, k + 1) == prefix_depth(s, k) + paren_delta(s[k]));
        assert(prefix_depth(s, k + 1) >= 1);
        lemma_positive_run(s, k + 1, m);
    }
}

/// A parenthesis group that closes exactly at its end is well-nested, with
/// the level at least one strictly inside.
proof fn lemma_group_depths(s: Seq<char>)
    requires
        s.len() > 0,
        s[0] == '(',
        spec_find_closing(s) == Some(s.len() - 1),
    ensures
        well_nested(s),
        forall|k: int| 1 <= k <= s.len() - 1 ==> prefix_depth(s, k) >= 1,
{
    assert(close_from(s, 0, prefix_depth(s, 0)) == Some(s.len() - 1));
    lemma_close_characterize(s, 0);
    assert(prefix_depth(s, 1) == 1);
    lemma_positive_run(s, 1, s.len() - 1);
}

/// Scanning a wrapped text `( s )` from inside, at the true level, runs to
/// the final closing parenthesis when `s` is well-nested.
proof fn lemma_wrap_close_aux(s: Seq<char>, w: Seq<char>, i: int)
    requires
        w == seq!['('] + s + seq![')'],
        well_nested(s),
        0 <= i <= s.len(),
    ensures
        close_from(w, i + 1, 1 + prefix_depth(s, i)) == Some(s.len() as int + 1),
    decreases s.len() - i,
{
    if i == s.len() {
        assert(w[i + 1] == ')');
        assert(1 + prefix_depth(s, i) + paren_delta(w[i + 1]) == 0);
    } else {
        assert(w[i + 1] == s[i]);
        assert(1 + prefix_depth(s, i) + paren_delta(w[i + 1]) == 1 + prefix_depth(s, i + 1));
        assert(prefix_depth(s, i + 1) >= 0);
        lemma_wrap_close_aux(s, w, i + 1);
    }
}

/// Wrapping a well-nested text in parentheses yields a group that closes
/// exactly at its end.
proof fn lemma_wrap_close(s: Seq<char>)
    requires
        well_nested(s),
    ensures
        spec_find_closing(seq!['('] + s + seq![')']) == Some(s.len() as int + 1),
{
    let w = seq!['('] + s + seq![')'];
    assert(w[0] == '(');
    assert(prefix_depth(s, 0) == 0);
    lemma_wrap_close_aux(s, w, 0);
    assert(close_from(w, 0, 0) == close_from(w, 1, 1));
}

/// The first exponent marker found from `i` is an `e` or `E` inside the
/// sequence.
proof fn lemma_exp_marker_char(s: Seq<char>, i: int)
    requires
        0 <= i,
        exp_marker_from(s, i) is Some,
    ensures
        ({
            let k = exp_marker_from(s, i)->0;
            &&& i <= k < s.len()
            &&& (s[k] == 'e' || s[k] == 'E')
        }),
    decreases s.len() - i,
{
    if i < s.len() && !(s[i] == 'e' || s[i] == 'E') {
        lemma_exp_marker_char(s, i + 1);
    }
}

/// Whether a character may occur in a decimal literal.
pub open spec fn literal_char(c: char) -> bool {
    is_digit_char(c) || c == '.' || is_letter(c) || c == '+' || c == '-'
}

/// A decimal literal is non-empty and made of digits, dots, letters and
/// signs only.
proof fn lemma_literal_chars(s: Seq<char>)
    requires
        spec_is_float_literal(s),
    ensures
        s.len() > 0,
        forall|j: int| 0 <= j < s.len() ==> literal_char(s[j]),
{
    let b = strip_sign(s);
    assert(b.len() > 0) by {
        if b.len() == 0 {
            assert(!is_mantissa(b));
            if first_exp_marker(b) is Some {
                lemma_exp_marker_char(b, 0);
            }
        }
    }
    assert forall|j: int| 0 <= j < b.len() implies literal_char(b[j]) by {
        if is_inf_keyword(b) || is_infinity_keyword(b) || is_nan_keyword(b) {
        } else {
            match first_exp_marker(b) {
                None => {
                    assert(is_mantissa(b));
                },
                Some(k) => {
                    lemma_exp_marker_char(b, 0);
                    let mant = b.subrange(0, k);
                    let p = b.subrange(k + 1, b.len() as int);
                    assert(is_mantissa(mant) && is_exponent(p));
                    if j < k {
                        assert(b[j] == mant[j]);
                        assert(is_digit_char(mant[j]) || mant[j] == '.');
                    } else if j == k {
                    } else {
                        assert(b[j] == p[j - k - 1]);
                        if p.len() > 0 && (p[0] == '+' || p[0] == '-') {
                            if j == k + 1 {
                            } else {
                                assert(p[j - k - 1] == strip_sign(p)[j - k - 2]);
                            }
                        } else {
                            assert(p[j - k - 1] == strip_sign(p)[j - k - 1]);
                        }
                    }
                },
            }
        }
    }
    if s.len() > 0 && (s[0] == '+' || s[0] == '-') {
        assert forall|j: int| 0 <= j < s.len() implies literal_char(s[j]) by {
            if j >= 1 {
                assert(s[j] == b[j - 1]);
            }
        }
    } else {
        assert(s =~= b);
    }
}

/// Where no character from `i` onward is an operator or an opening
/// parenthesis, the operator scan keeps its candidate.
proof fn lemma_scan_absent(s: Seq<char>, i: int, level: int, cur: Option<(int, char)>)
    requires
        0 <= i,
        forall|j: int| i <= j < s.len() ==> !is_op_char(s[j]) && s[j] != '(',
    ensures
        scan_from(s, i, false, level, cur) == cur,
    decreases s.len() - i,
{
    if i < s.len() {
        lemma_scan_absent(s, i + 1, level, cur);
    }
}

/// A literal without sign characters parses to exactly its own leaf, for
/// any position it stands at: the round trip from literal text to
/// expression keeps the text.
pub proof fn lemma_plain_literal_parses_to_itself(s: Seq<char>, full: Seq<char>, off: int)
    requires
        spec_is_float_literal(s),
        forall|i: int| 0 <= i < s.len() ==> s[i] != '+' && s[i] != '-',
    ensures
        spec_parse(s, full, off) == Ok::<Expr, SpecSyntaxError>(
            Expr::Literal { start: off as usize, end: (off + s.len()) as usize },
        ),
{
    lemma_literal_chars(s);
    assert(s[0] != ' ');
    assert(!all_spaces(s));
    lemma_scan_absent(s, 0, 0, None);
    assert(spec_scan(s) is None);
    assert(spec_parse(s, full, off) == spec_parse_split(s, full, off));
}

/// A literal whose only sign character leads it parses to the unary tree
/// over the leaf of its unsigned remainder: an implicit zero combined with
/// the remainder's span by the sign's operator. Together with
/// [`lemma_plain_literal_parses_to_itself`] this covers every literal text
/// in which a sign can stand only at the front.
pub proof fn lemma_signed_literal_parses_to_unary(s: Seq<char>, full: Seq<char>, off: int)
    requires
        spec_is_float_literal(s),
        s.len() > 0,
        s[0] == '+' || s[0] == '-',
        forall|i: int| 1 <= i < s.len() ==> s[i] != '+' && s[i] != '-',
    ensures
        spec_parse(s, full, off) == Ok::<Expr, SpecSyntaxError>(
            Expr::Binary(
                binop_of(s[0]),
                Box::new(Expr::ImplicitZero),
                Box::new(
                    Expr::Literal { start: (off + 1) as usize, end: (off + s.len()) as usize },
                ),
            ),
        ),
{
    lemma_literal_chars(s);
    let body = s.subrange(1, s.len() as int);
    assert(strip_sign(s) =~= body);
    assert(body.len() > 0) by {
        if body.len() == 0 {
            assert(!is_mantissa(body));
            assert(exp_marker_from(body, 0) is None);
        }
    }
    assert(strip_sign(body) =~= body);
    assert(spec_is_float_literal(body));
    assert(!all_spaces(s));
    assert(scan_from(s, 0, false, 0, None) == scan_from(
        s,
        1,
        false,
        0,
        Some((0int, s[0])),
    ));
    assert forall|j: int| 1 <= j < s.len() implies !is_op_char(s[j]) && s[j] != '(' by {
        assert(literal_char(s[j]));
    }
    lemma_scan_absent(s, 1, 0, Some((0int, s[0])));
    assert(spec_scan(s) == Some((0int, s[0])));
    assert(spec_parse(s, full, off) == spec_parse_split(s, full, off));
    assert(spec_parse_split(s, full, off) == spec_parse_operator(s, full, off, 0, s[0]));
    lemma_plain_literal_parses_to_itself(body, full, off + 1);
}

/// Quote wrapping is transparent: parsing `"s"` is parsing `s`, one
/// character further in.
pub proof fn lemma_quote_wrapping_transparent(s: Seq<char>, full: Seq<char>, off: int)
    ensures
        spec_parse(seq!['"'] + s + seq!['"'], full, off) == spec_parse(s, full, off + 1),
{
    let w = seq!['"'] + s + seq!['"'];
    assert(w[0] == '"');
    assert(w[w.len() - 1] == '"');
    assert(!all_spaces(w));
    assert(group_inner(w) =~= s);
}

/// A text whose first and last characters carry no nesting weight and
/// whose interior is well-nested is well-nested itself.
proof fn lemma_wrap_depths(s: Seq<char>)
    requires
        s.len() >= 2,
        paren_delta(s[0]) == 0,
        paren_delta(s[s.len() - 1]) == 0,
        well_nested(s.subrange(1, s.len() - 1)),
    ensures
        well_nested(s),
{
    let inner = s.subrange(1, s.len() - 1);
    let t = s.subrange(1, s.len() as int);
    assert forall|i: int| 0 <= i <= s.len() implies prefix_depth(s, i) >= 0 && (i == s.len()
        ==> prefix_depth(s, i) == 0) by {
        if i >= 1 {
            lemma_prefix_depth_concat(s, 1, i);
            assert(prefix_depth(s, 0) == 0);
            assert(prefix_depth(s, 1) == 0);
            if i - 1 <= s.len() - 2 {
                lemma_prefix_depth_eq(t, inner, i - 1);
                assert(prefix_depth(t, i - 1) == prefix_depth(inner, i - 1));
            } else {
                assert(i == s.len());
                assert(prefix_depth(t, i - 1) == prefix_depth(t, i - 2) + paren_delta(t[i - 2]));
                lemma_prefix_depth_eq(t, inner, i - 2);
                assert(t[i - 2] == s[s.len() - 1]);
                assert(prefix_depth(inner, i - 2) == 0);
            }
        }
    }
}

/// A text split by a weightless character into two well-nested sides is
/// well-nested itself.
proof fn lemma_split_depths(s: Seq<char>, pos: int)
    requires
        0 <= pos < s.len(),
        paren_delta(s[pos]) == 0,
        well_nested(s.subrange(0, pos)),
        well_nested(s.subrange(pos + 1, s.len() as int)),
    ensures
        well_nested(s),
{
    let left = s.subrange(0, pos);
    let right = s.subrange(pos + 1, s.len() as int);
    assert forall|i: int| 0 <= i <= s.len() implies prefix_depth(s, i) >= 0 && (i == s.len()
        ==> prefix_depth(s, i) == 0) by {
        if i <= pos {
            lemma_prefix_depth_eq(s, left, i);
        } else {
            lemma_prefix_depth_eq(s, left, pos);
            assert(prefix_depth(s, pos + 1) == prefix_depth(s, pos) + paren_delta(s[pos]));
            lemma_prefix_depth_concat(s, pos + 1, i);
            let t = s.subrange(pos + 1, s.len() as int);
            assert(t =~= right);
        }
    }
}

/// A text of weightless characters followed by a group that closes at its
/// end is well-nested.
proof fn lemma_call_depths(s: Seq<char>, pos: int)
    requires
        0 < pos,
        pos + 1 < s.len(),
        forall|j: int| 0 <= j < pos ==> s[j] != '(' && s[j] != ')',
        s[pos] == '(',
        spec_find_closing(s.subrange(pos, s.len() as int)) == Some(s.len() - pos - 1),
    ensures
        well_nested(s),
{
    let g = s.subrange(pos, s.len() as int);
    lemma_group_depths(g);
    assert forall|i: int| 0 <= i <= s.len() implies prefix_depth(s, i) >= 0 && (i == s.len()
        ==> prefix_depth(s, i) == 0) by {
        if i <= pos {
            lemma_no_paren_depth(s, i);
        } else {
            lemma_no_paren_depth(s, pos);
            lemma_prefix_depth_concat(s, pos, i);
            assert(prefix_depth(g, g.len() as int) == 0);
        }
    }
}

/// A name the function table knows contains no parenthesis.
proof fn lemma_function_name_chars(name: Seq<char>)
    requires
        spec_lookup_function(name) is Some,
    ensures
        forall|j: int| 0 <= j < name.len() ==> name[j] != '(' && name[j] != ')',
{
    reveal_strlit("cos");
    reveal_strlit("sin");
    reveal_strlit("tan");
    reveal_strlit("acos");
    reveal_strlit("asin");
    reveal_strlit("atan");
    reveal_strlit("ln");
    reveal_strlit("logab");
    reveal_strlit("sqrt");
    reveal_strlit("nroot");
}

/// The call shape found by the scan: an opening parenthesis whose group
/// closes exactly at the end of the text.
proof fn lemma_call_shape_group(s: Seq<char>, i: int)
    requires
        0 <= i,
        call_shape_from(s, i) is Some,
    ensures
        ({
            let p = call_shape_from(s, i)->0;
            &&& i <= p < s.len()
            &&& s[p] == '('
            &&& spec_find_closing(s.subrange(p, s.len() as int)) == Some(s.len() - p - 1)
        }),
    decreases s.len() - i,
{
    if i < s.len() {
        if s[i] == '(' && i != 0 {
        } else if is_letter(s[i]) {
            lemma_call_shape_group(s, i + 1);
        }
    }
}

/// Whatever parses successfully is well-nested: its parentheses match and
/// never dip below the level they started at.
proof fn lemma_parse_ok_well_nested(s: Seq<char>, full: Seq<char>, off: int)
    requires
        spec_parse(s, full, off) is Ok,
    ensures
        well_nested(s),
    decreases s.len(),
{
    if all_spaces(s) {
        assert(false);
    } else if s[0] == '"' && s[s.len() - 1] == '"' {
        lemma_parse_ok_well_nested(group_inner(s), full, off + 1);
        if s.len() < 2 {
            assert(all_spaces(group_inner(s)));
            assert(false);
        }
        lemma_wrap_depths(s);
    } else if s[0] == '(' && spec_find_closing(s) is None {
        assert(false);
    } else if s[0] == '(' && spec_find_closing(s) == Some(s.len() - 1) {
        lemma_group_depths(s);
    } else {
        assert(spec_parse(s, full, off) == spec_parse_split(s, full, off));
        match spec_scan(s) {
            None => {
                assert(spec_parse_split(s, full, off) == spec_parse_leaf(s, full, off));
                if spec_is_float_literal(s) {
                    lemma_literal_chars(s);
                    assert forall|i: int| 0 <= i <= s.len() implies prefix_depth(s, i) >= 0 && (i
                        == s.len() ==> prefix_depth(s, i) == 0) by {
                        lemma_no_paren_depth(s, i);
                    }
                } else {
                    match spec_lookup_constant(s) {
                        Some(k) => {
                            reveal_strlit("pi");
                            reveal_strlit("e");
                            assert forall|i: int| 0 <= i <= s.len() implies prefix_depth(s, i) >= 0
                                && (i == s.len() ==> prefix_depth(s, i) == 0) by {
                                lemma_no_paren_depth(s, i);
                            }
                        },
                        None => {
                            match spec_call_paren(s) {
                                Some(pos) => {
                                    assert(spec_parse_leaf(s, full, off) == spec_parse_call(
                                        s,
                                        full,
                                        off,
                                        pos,
                                    ));
                                    let name = s.subrange(0, pos);
                                    assert(spec_lookup_function(name) is Some);
                                    lemma_function_name_chars(name);
                                    lemma_call_shape_group(s, 0);
                                    assert forall|j: int| 0 <= j < pos implies s[j] != '(' && s[j]
                                        != ')' by {
                                        assert(s[j] == name[j]);
                                    }
                                    lemma_call_depths(s, pos);
                                },
                                None => {
                                    assert(false);
                                },
                            }
                        },
                    }
                }
            },
            Some((pos, c)) => {
                assert(spec_parse_split(s, full, off) == spec_parse_operator(s, full, off, pos, c));
                let left = s.subrange(0, pos);
                let right = s.subrange(pos + 1, s.len() as int);
                if left.len() == 0 {
                    assert(well_nested(left));
                } else {
                    assert(spec_parse(left, full, off) is Ok);
                    lemma_parse_ok_well_nested(left, full, off);
                }
                if right.len() == 0 {
                    assert(well_nested(right));
                } else {
                    assert(c != '!');
                    assert(spec_parse(right, full, off + pos + 1) is Ok);
                    lemma_parse_ok_well_nested(right, full, off + pos + 1);
                }
                assert(paren_delta(s[pos]) == 0);
                lemma_split_depths(s, pos);
            },
        }
    }
}

/// Parenthesis wrapping is transparent: for any text that parses
/// successfully, parsing `(s)` is parsing `s`, one character further in.
pub proof fn lemma_paren_wrapping_transparent(s: Seq<char>, full: Seq<char>, off: int)
    requires
        spec_parse(s, full, off + 1) is Ok,
    ensures
        spec_parse(seq!['('] + s + seq![')'], full, off) == spec_parse(s, full, off + 1),
{
    lemma_parse_ok_well_nested(s, full, off + 1);
    lemma_wrap_close(s);
    let w = seq!['('] + s + seq![')'];
    assert(w[0] == '(');
    assert(!all_spaces(w));
    assert(group_inner(w) =~= s);
}

/// The same tree with every literal span moved by `d`.
pub open spec fn shift_expr(e: Expr, d: int) -> Expr
    decreases e,
{
    match e {
        Expr::Literal { start, end } => Expr::Literal {
            start: (start + d) as usize,
            end: (end + d) as usize,
        },
        Expr::Constant(k) => Expr::Constant(k),
        Expr::ImplicitZero => Expr::ImplicitZero,
        Expr::Binary(op, l, r) => Expr::Binary(
            op,
            Box::new(shift_expr(*l, d)),
            Box::new(shift_expr(*r, d)),
        ),
        Expr::Factorial(l) => Expr::Factorial(Box::new(shift_expr(*l, d))),
        Expr::Call1(f, a) => Expr::Call1(f, Box::new(shift_expr(*a, d))),
        Expr::Call2(f, a, b) => Expr::Call2(
            f,
            Box::new(shift_expr(*a, d)),
            Box::new(shift_expr(*b, d)),
        ),
    }
}

/// The claim of [`lemma_parse_offset_shift`], as a predicate over two
/// parse results.
pub open spec fn shifted_result(
    r1: Result<Expr, SpecSyntaxError>,
    r2: Result<Expr, SpecSyntaxError>,
    d: int,
) -> bool {
    &&& (r1 is Ok <==> r2 is Ok)
    &&& (r1 is Ok ==> r2->Ok_0 == shift_expr(r1->Ok_0, d))
    &&& (r1 is Err ==> {
        &&& r2->Err_0.expression == r1->Err_0.expression
        &&& r2->Err_0.message == r1->Err_0.message
        &&& r2->Err_0.position == r1->Err_0.position + d
    })
}

/// Parsing does not depend on where the subexpression stands: moving it to
/// another offset (in any full expression) moves every literal span and
/// every error position along, and changes nothing else.
pub proof fn lemma_parse_offset_shift(
    s: Seq<char>,
    full1: Seq<char>,
    off1: int,
    full2: Seq<char>,
    off2: int,
)
    requires
        0 <= off1,
        0 <= off2,
        off1 + s.len() <= usize::MAX,
        off2 + s.len() <= usize::MAX,
    ensures
        shifted_result(spec_parse(s, full1, off1), spec_parse(s, full2, off2), off2 - off1),
    decreases s.len(), 1int,
{
    if all_spaces(s) {
    } else if s[0] == '"' && s[s.len() - 1] == '"' {
        lemma_parse_offset_shift(group_inner(s), full1, off1 + 1, full2, off2 + 1);
    } else if s[0] == '(' && spec_find_closing(s) is None {
    } else if s[0] == '(' && spec_find_closing(s) == Some(s.len() - 1) {
        lemma_parse_offset_shift(group_inner(s), full1, off1 + 1, full2, off2 + 1);
    } else {
        assert(spec_parse(s, full1, off1) == spec_parse_split(s, full1, off1));
        assert(spec_parse(s, full2, off2) == spec_parse_split(s, full2, off2));
        match spec_scan(s) {
            None => {
                assert(spec_parse_split(s, full1, off1) == spec_parse_leaf(s, full1, off1));
                assert(spec_parse_split(s, full2, off2) == spec_parse_leaf(s, full2, off2));
                if spec_is_float_literal(s) {
                    assert(spec_parse_leaf(s, full2, off2)->Ok_0 == shift_expr(
                        spec_parse_leaf(s, full1, off1)->Ok_0,
                        off2 - off1,
                    ));
                } else if spec_lookup_constant(s) is Some {
                } else {
                    match spec_call_paren(s) {
                        Some(pos) => {
                            lemma_shift_call(s, full1, off1, full2, off2, pos);
                        },
                        None => {},
                    }
                }
            },
            Some((pos, c)) => {
                lemma_shift_operator(s, full1, off1, full2, off2, pos, c);
            },
        }
    }
}

/// The offset-shift claim for a function call.
proof fn lemma_shift_call(
    s: Seq<char>,
    full1: Seq<char>,
    off1: int,
    full2: Seq<char>,
    off2: int,
    pos: int,
)
    requires
        0 <= off1,
        0 <= off2,
        off1 + s.len() <= usize::MAX,
        off2 + s.len() <= usize::MAX,
        0 < pos && pos + 1 < s.len(),
    ensures
        shifted_result(
            spec_parse_call(s, full1, off1, pos),
            spec_parse_call(s, full2, off2, pos),
            off2 - off1,
        ),
    decreases s.len(), 0int,
{
    let d = off2 - off1;
    let name = s.subrange(0, pos);
    let args = s.subrange(pos + 1, s.len() - 1);
    match spec_lookup_function(name) {
        None => {},
        Some(kind) => {
            if spec_count_args(args) != func_arity(kind) {
            } else {
                match kind {
                    FuncKind::One(f) => {
                        lemma_parse_offset_shift(args, full1, off1 + pos + 1, full2, off2 + pos + 1);
                        let r1 = spec_parse(args, full1, off1 + pos + 1);
                        let r2 = spec_parse(args, full2, off2 + pos + 1);
                        if r1 is Ok {
                            assert(spec_parse_call(s, full1, off1, pos)->Ok_0 == Expr::Call1(
                                f,
                                Box::new(r1->Ok_0),
                            ));
                            assert(spec_parse_call(s, full2, off2, pos)->Ok_0 == Expr::Call1(
                                f,
                                Box::new(r2->Ok_0),
                            ));
                            assert(shift_expr(Expr::Call1(f, Box::new(r1->Ok_0)), d)
                                == Expr::Call1(f, Box::new(shift_expr(r1->Ok_0, d))));
                        }
                    },
                    FuncKind::Two(f) => {
                        match spec_find_nth_comma(args, 1) {
                            Some(k) => {
                                let a = args.subrange(0, k);
                                let b = args.subrange(k + 1, args.len() as int);
                                lemma_parse_offset_shift(
                                    a,
                                    full1,
                                    off1 + pos + 1,
                                    full2,
                                    off2 + pos + 1,
                                );
                                lemma_parse_offset_shift(
                                    b,
                                    full1,
                                    off1 + pos + k + 2,
                                    full2,
                                    off2 + pos + k + 2,
                                );
                                let ra1 = spec_parse(a, full1, off1 + pos + 1);
                                let ra2 = spec_parse(a, full2, off2 + pos + 1);
                                let rb1 = spec_parse(b, full1, off1 + pos + k + 2);
                                let rb2 = spec_parse(b, full2, off2 + pos + k + 2);
                                if ra1 is Ok && rb1 is Ok {
                                    assert(spec_parse_call(s, full1, off1, pos)->Ok_0
                                        == Expr::Call2(f, Box::new(ra1->Ok_0), Box::new(rb1->Ok_0)));
                                    assert(spec_parse_call(s, full2, off2, pos)->Ok_0
                                        == Expr::Call2(f, Box::new(ra2->Ok_0), Box::new(rb2->Ok_0)));
                                    assert(shift_expr(
                                        Expr::Call2(f, Box::new(ra1->Ok_0), Box::new(rb1->Ok_0)),
                                        d,
                                    ) == Expr::Call2(
                                        f,
                                        Box::new(shift_expr(ra1->Ok_0, d)),
                                        Box::new(shift_expr(rb1->Ok_0, d)),
                                    ));
                                }
                            },
                            None => {},
                        }
                    },
                }
            }
        },
    }
}

/// The offset-shift claim for an operator split.
proof fn lemma_shift_operator(
    s: Seq<char>,
    full1: Seq<char>,
    off1: int,
    full2: Seq<char>,
    off2: int,
    pos: int,
    c: char,
)
    requires
        0 <= off1,
        0 <= off2,
        off1 + s.len() <= usize::MAX,
        off2 + s.len() <= usize::MAX,
        0 <= pos < s.len(),
    ensures
        shifted_result(
            spec_parse_operator(s, full1, off1, pos, c),
            spec_parse_operator(s, full2, off2, pos, c),
            off2 - off1,
        ),
    decreases s.len(), 0int,
{
    let d = off2 - off1;
    let left = s.subrange(0, pos);
    let right = s.subrange(pos + 1, s.len() as int);
    if left.len() == 0 && !(c == '+' || c == '-') {
    } else {
        let l1 = if left.len() == 0 {
            Ok::<Expr, SpecSyntaxError>(Expr::ImplicitZero)
        } else {
            spec_parse(left, full1, off1)
        };
        let l2 = if left.len() == 0 {
            Ok::<Expr, SpecSyntaxError>(Expr::ImplicitZero)
        } else {
            spec_parse(left, full2, off2)
        };
        if left.len() > 0 {
            lemma_parse_offset_shift(left, full1, off1, full2, off2);
        } else {
            assert(shift_expr(Expr::ImplicitZero, d) == Expr::ImplicitZero);
        }
        if l1 is Err {
        } else {
            if right.len() == 0 && c != '!' {
            } else if right.len() > 0 && c == '!' {
            } else if c == '!' {
                assert(spec_parse_operator(s, full1, off1, pos, c)->Ok_0 == Expr::Factorial(
                    Box::new(l1->Ok_0),
                ));
                assert(spec_parse_operator(s, full2, off2, pos, c)->Ok_0 == Expr::Factorial(
                    Box::new(l2->Ok_0),
                ));
                assert(shift_expr(Expr::Factorial(Box::new(l1->Ok_0)), d) == Expr::Factorial(
                    Box::new(shift_expr(l1->Ok_0, d)),
                ));
            } else {
                lemma_parse_offset_shift(right, full1, off1 + pos + 1, full2, off2 + pos + 1);
                let r1 = spec_parse(right, full1, off1 + pos + 1);
                let r2 = spec_parse(right, full2, off2 + pos + 1);
                if r1 is Ok {
                    assert(spec_parse_operator(s, full1, off1, pos, c)->Ok_0 == Expr::Binary(
                        binop_of(c),
                        Box::new(l1->Ok_0),
                        Box::new(r1->Ok_0),
                    ));
                    assert(spec_parse_operator(s, full2, off2, pos, c)->Ok_0 == Expr::Binary(
                        binop_of(c),
                        Box::new(l2->Ok_0),
                        Box::new(r2->Ok_0),
                    ));
                    assert(shift_expr(
                        Expr::Binary(binop_of(c), Box::new(l1->Ok_0), Box::new(r1->Ok_0)),
                        d,
                    ) == Expr::Binary(
                        binop_of(c),
                        Box::new(shift_expr(l1->Ok_0, d)),
                        Box::new(shift_expr(r1->Ok_0, d)),
                    ));
                }
            }
        }
    }
}

/// Quote wrapping carried to the whole input: evaluating `"s"` yields the
/// very tree of evaluating `s`, with every literal span moved one place,
/// or the very error of `s`, located one place further.
pub proof fn lemma_quote_wrapping_preserves_result(s: Seq<char>)
    requires
        s.len() + 2 <= usize::MAX,
    ensures
        ({
            let w = seq!['"'] + s + seq!['"'];
            &&& spec_parse(w, w, 0) is Ok <==> spec_parse(s, s, 0) is Ok
            &&& spec_parse(s, s, 0) is Ok ==> spec_parse(w, w, 0)->Ok_0 == shift_expr(
                spec_parse(s, s, 0)->Ok_0,
                1,
            )
            &&& spec_parse(s, s, 0) is Err ==> ({
                let e1 = spec_parse(s, s, 0)->Err_0;
                let e2 = spec_parse(w, w, 0)->Err_0;
                &&& e2.expression == e1.expression
                &&& e2.message == e1.message
                &&& e2.position == e1.position + 1
            })
        }),
{
    let w = seq!['"'] + s + seq!['"'];
    lemma_quote_wrapping_transparent(s, w, 0);
    lemma_parse_offset_shift(s, s, 0, w, 1);
}

/// Parenthesis wrapping carried to the whole input: when `s` evaluates
/// successfully, evaluating `(s)` yields the very tree of evaluating `s`,
/// with every literal span moved one place.
pub proof fn lemma_paren_wrapping_preserves_result(s: Seq<char>)
    requires
        s.len() + 2 <= usize::MAX,
        spec_parse(s, s, 0) is Ok,
    ensures
        ({
            let w = seq!['('] + s + seq![')'];
            &&& spec_parse(w, w, 0) is Ok
            &&& spec_parse(w, w, 0)->Ok_0 == shift_expr(spec_parse(s, s, 0)->Ok_0, 1)
        }),
{
    let w = seq!['('] + s + seq![')'];
    lemma_parse_offset_shift(s, s, 0, w, 1);
    lemma_paren_wrapping_transparent(s, w, 0);
}

} // verus!
