//! The decimal-literal grammar: which tokens denote a number. This is the
//! acceptance grammar of Rust's standard floating-point parser — an
//! optional sign, then one of the keywords `inf`, `infinity` or `nan`
//! (case-insensitive) or a mantissa of digits with at most one dot and at
//! least one digit, optionally followed by `e`/`E`, an optional sign and a
//! non-empty run of digits.

use vstd::prelude::*;
use vstd::string::*;

verus! {

/// A decimal digit.
pub open spec fn is_digit_char(c: char) -> bool {
    '0' <= c && c <= '9'
}

/// Whether `c` is a decimal digit.
fn digit(c: char) -> (b: bool)
    ensures
        b == is_digit_char(c),
{
    '0' <= c && c <= '9'
}

/// Case-insensitive match of one character against a letter given in both
/// cases.
pub open spec fn char_ci(c: char, lo: char, up: char) -> bool {
    c == lo || c == up
}

/// `s` without its leading sign, if it has one.
pub open spec fn strip_sign(s: Seq<char>) -> Seq<char> {
    if s.len() > 0 && (s[0] == '+' || s[0] == '-') {
        s.subrange(1, s.len() as int)
    } else {
        s
    }
}

/// The keyword `inf`, in any case.
pub open spec fn is_inf_keyword(s: Seq<char>) -> bool {
    s.len() == 3 && char_ci(s[0], 'i', 'I') && char_ci(s[1], 'n', 'N') && char_ci(s[2], 'f', 'F')
}

/// The keyword `infinity`, in any case.
pub open spec fn is_infinity_keyword(s: Seq<char>) -> bool {
    s.len() == 8 && char_ci(s[0], 'i', 'I') && char_ci(s[1], 'n', 'N') && char_ci(s[2], 'f', 'F')
        && char_ci(s[3], 'i', 'I') && char_ci(s[4], 'n', 'N') && char_ci(s[5], 'i', 'I') && char_ci(
        s[6],
        't',
        'T',
    ) && char_ci(s[7], 'y', 'Y')
}

/// The keyword `nan`, in any case.
pub open spec fn is_nan_keyword(s: Seq<char>) -> bool {
    s.len() == 3 && char_ci(s[0], 'n', 'N') && char_ci(s[1], 'a', 'A') && char_ci(s[2], 'n', 'N')
}

/// A non-empty run of digits.
pub open spec fn all_digits(s: Seq<char>) -> bool {
    forall|i: int| 0 <= i < s.len() ==> is_digit_char(s[i])
}

/// A mantissa: digits with at most one dot among them and at least one
/// digit.
pub open spec fn is_mantissa(m: Seq<char>) -> bool {
    &&& forall|i: int| 0 <= i < m.len() ==> (is_digit_char(m[i]) || m[i] == '.')
    &&& forall|i: int, j: int|
        0 <= i < m.len() && 0 <= j < m.len() && m[i] == '.' && m[j] == '.' ==> i == j
    &&& exists|i: int| 0 <= i < m.len() && is_digit_char(m[i])
}

/// An exponent part (what follows `e`/`E`): an optional sign, then a
/// non-empty run of digits.
pub open spec fn is_exponent(p: Seq<char>) -> bool {
    strip_sign(p).len() > 0 && all_digits(strip_sign(p))
}

/// The first `e` or `E` at or after index `i`.
pub open spec fn exp_marker_from(s: Seq<char>, i: int) -> Option<int>
    decreases s.len() - i,
{
    if i < 0 || i >= s.len() {
        None
    } else if s[i] == 'e' || s[i] == 'E' {
        Some(i)
    } else {
        exp_marker_from(s, i + 1)
    }
}

/// The first `e` or `E` of `s`, splitting mantissa from exponent.
pub open spec fn first_exp_marker(s: Seq<char>) -> Option<int> {
    exp_marker_from(s, 0)
}

/// An unsigned number: a mantissa, optionally followed by an exponent
/// marker and an exponent part.
pub open spec fn is_number(b: Seq<char>) -> bool {
    match first_exp_marker(b) {
        None => is_mantissa(b),
        Some(k) => is_mantissa(b.subrange(0, k)) && is_exponent(
            b.subrange(k + 1, b.len() as int),
        ),
    }
}

/// The whole decimal-literal grammar: an optional sign, then a keyword or
/// an unsigned number.
pub open spec fn spec_is_float_literal(s: Seq<char>) -> bool {
    ||| is_inf_keyword(strip_sign(s))
    ||| is_infinity_keyword(strip_sign(s))
    ||| is_nan_keyword(strip_sign(s))
    ||| is_number(strip_sign(s))
}

/// Whether `body` is one of the keywords `inf`, `infinity` or `nan` in any
/// case.
fn matches_keyword(body: &str) -> (b: bool)
    ensures
        b == (is_inf_keyword(body@) || is_infinity_keyword(body@) || is_nan_keyword(body@)),
{
    let m = body.unicode_len();
    if m == 3 {
        let c0 = body.get_char(0);
        let c1 = body.get_char(1);
        let c2 = body.get_char(2);
        ((c0 == 'i' || c0 == 'I') && (c1 == 'n' || c1 == 'N') && (c2 == 'f' || c2 == 'F')) || ((c0
            == 'n' || c0 == 'N') && (c1 == 'a' || c1 == 'A') && (c2 == 'n' || c2 == 'N'))
    } else if m == 8 {
        let c0 = body.get_char(0);
        let c1 = body.get_char(1);
        let c2 = body.get_char(2);
        let c3 = body.get_char(3);
        let c4 = body.get_char(4);
        let c5 = body.get_char(5);
        let c6 = body.get_char(6);
        let c7 = body.get_char(7);
        (c0 == 'i' || c0 == 'I') && (c1 == 'n' || c1 == 'N') && (c2 == 'f' || c2 == 'F') && (c3
            == 'i' || c3 == 'I') && (c4 == 'n' || c4 == 'N') && (c5 == 'i' || c5 == 'I') && (c6
            == 't' || c6 == 'T') && (c7 == 'y' || c7 == 'Y')
    } else {
        false
    }
}

/// Whether `body` (already stripped of its sign) is an unsigned number of
/// the grammar.
fn is_number_text(body: &str) -> (b: bool)
    ensures
        b == is_number(body@),
{
    let m = body.unicode_len();
    let mut i: usize = 0;
    let mut marker: Option<usize> = None;
    while i < m && marker.is_none()
        invariant
            i <= m,
            m == body@.len(),
            marker is None ==> first_exp_marker(body@) == exp_marker_from(body@, i as int),
            marker is Some ==> first_exp_marker(body@) == Some(marker->0 as int) && marker->0
                == i && i < m,
        decreases m - i + (if marker is None {
            1int
        } else {
            0int
        }),
    {
        let c = body.get_char(i);
        if c == 'e' || c == 'E' {
            proof {
                assert(exp_marker_from(body@, i as int) == Some(i as int));
            }
            marker = Some(i);
        } else {
            i = i + 1;
        }
    }
    let mantissa_end: usize = match marker {
        Some(k) => k,
        None => m,
    };
    let ghost mant: Seq<char> = body@.subrange(0, mantissa_end as int);
    proof {
        if marker is None {
            assert(exp_marker_from(body@, m as int) is None);
            assert(mant =~= body@);
        }
    }
    let mut j: usize = 0;
    let mut seen_digit: bool = false;
    let mut dot: Option<usize> = None;
    while j < mantissa_end
        invariant
            j <= mantissa_end,
            mantissa_end <= m,
            m == body@.len(),
            mant == body@.subrange(0, mantissa_end as int),
            marker is Some ==> mantissa_end == marker->0 && first_exp_marker(body@) == Some(
                mantissa_end as int,
            ),
            marker is None ==> mantissa_end == m && first_exp_marker(body@) is None,
            forall|p: int| 0 <= p < j ==> (is_digit_char(mant[p]) || mant[p] == '.'),
            seen_digit <==> exists|p: int| 0 <= p < j && is_digit_char(mant[p]),
            dot is Some ==> dot->0 < j && mant[dot->0 as int] == '.',
            forall|p: int| 0 <= p < j && mant[p] == '.' ==> dot == Some(p as usize),
        decreases mantissa_end - j,
    {
        let c = body.get_char(j);
        proof {
            assert(mant[j as int] == body@[j as int]);
        }
        if digit(c) {
            seen_digit = true;
        } else if c == '.' {
            if dot.is_some() {
                proof {
                    assert(!is_mantissa(mant));
                }
                return false;
            }
            dot = Some(j);
        } else {
            proof {
                assert(!(is_digit_char(mant[j as int]) || mant[j as int] == '.'));
                assert(!is_mantissa(mant));
            }
            return false;
        }
        j = j + 1;
    }
    if !seen_digit {
        proof {
            assert(!is_mantissa(mant));
        }
        return false;
    }
    proof {
        assert(is_mantissa(mant));
    }
    match marker {
        None => true,
        Some(k) => {
            let ghost expo: Seq<char> = body@.subrange(k + 1, m as int);
            let estart: usize = if k + 1 < m {
                let c = body.get_char(k + 1);
                if c == '+' || c == '-' {
                    k + 2
                } else {
                    k + 1
                }
            } else {
                k + 1
            };
            proof {
                assert(body@.subrange(estart as int, m as int) =~= strip_sign(expo));
            }
            if estart == m {
                proof {
                    assert(strip_sign(expo).len() == 0);
                    assert(!is_exponent(expo));
                }
                return false;
            }
            let mut q: usize = estart;
            while q < m
                invariant
                    estart <= q <= m,
                    m == body@.len(),
                    estart < m,
                    k < estart,
                    mantissa_end == k,
                    is_mantissa(mant),
                    mant == body@.subrange(0, k as int),
                    expo == body@.subrange(k + 1, m as int),
                    first_exp_marker(body@) == Some(k as int),
                    body@.subrange(estart as int, m as int) =~= strip_sign(expo),
                    forall|p: int| estart <= p < q ==> is_digit_char(body@[p]),
                decreases m - q,
            {
                let c = body.get_char(q);
                if !digit(c) {
                    proof {
                        let st = strip_sign(expo);
                        assert(st[q - estart] == body@[q as int]);
                        assert(!all_digits(st));
                    }
                    return false;
                }
                q = q + 1;
            }
            proof {
                let st = strip_sign(expo);
                assert(forall|p: int|
                    0 <= p < st.len() ==> st[p] == body@[p + estart] && is_digit_char(
                        body@[p + estart],
                    ));
                assert(is_exponent(expo));
            }
            true
        },
    }
}

/// Whether `expr` denotes a number: the full decimal-literal grammar,
/// sign included.
pub(crate) fn is_float_literal(expr: &str) -> (b: bool)
    ensures
        b == spec_is_float_literal(expr@),
{
    let n = expr.unicode_len();
    let start: usize = if n > 0 {
        let c = expr.get_char(0);
        if c == '+' || c == '-' {
            1
        } else {
            0
        }
    } else {
        0
    };
    let body = expr.substring_char(start, n);
    proof {
        assert(body@ =~= strip_sign(expr@));
    }
    if matches_keyword(body) {
        return true;
    }
    is_number_text(body)
}

} // verus!
