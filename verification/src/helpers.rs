//! The structural scanner: matching a parenthesis opened at the front of a
//! substring, recognising the `<identifier>(<arguments>)` call shape, and
//! locating the top-level commas that separate a call's arguments.

use vstd::prelude::*;
use vstd::string::*;

verus! {

/// The contribution of one character to the parenthesis nesting level.
pub open spec fn paren_delta(c: char) -> int {
    if c == '(' {
        1
    } else if c == ')' {
        -1
    } else {
        0
    }
}

/// An ASCII letter; identifiers are runs of these.
pub open spec fn is_letter(c: char) -> bool {
    ('a' <= c && c <= 'z') || ('A' <= c && c <= 'Z')
}

/// Whether `c` is an ASCII letter.
fn letter(c: char) -> (b: bool)
    ensures
        b == is_letter(c),
{
    ('a' <= c && c <= 'z') || ('A' <= c && c <= 'Z')
}

/// The first index `j >= i` at which the running nesting level (starting at
/// `level` just before `s[i]`) returns to zero, if any.
pub open spec fn close_from(s: Seq<char>, i: int, level: int) -> Option<int>
    decreases s.len() - i,
{
    if i < 0 || i >= s.len() {
        None
    } else {
        let next = level + paren_delta(s[i]);
        if next == 0 {
            Some(i)
        } else {
            close_from(s, i + 1, next)
        }
    }
}

/// The first index at which the nesting level of `s`, scanned from the
/// front, returns to zero.
pub open spec fn spec_find_closing(s: Seq<char>) -> Option<int> {
    close_from(s, 0, 0)
}

/// Finds the index at which a parenthesis opened at the front of `expr`
/// closes, tracking nested groups; `None` when the nesting level never
/// returns to zero.
pub fn find_closing_parenthesis(expr: &str) -> (r: Option<usize>)
    ensures
        r is Some <==> spec_find_closing(expr@) is Some,
        r is Some ==> spec_find_closing(expr@) == Some(r.unwrap() as int),
        r is Some ==> r.unwrap() < expr@.len(),
{
    let n = expr.unicode_len();
    let mut i: usize = 0;
    let mut level: i128 = 0;
    while i < n
        invariant
            i <= n,
            n == expr@.len(),
            -(i as int) <= level <= i as int,
            close_from(expr@, 0, 0) == close_from(expr@, i as int, level as int),
        decreases n - i,
    {
        let c = expr.get_char(i);
        let next: i128 = if c == '(' {
            level + 1
        } else if c == ')' {
            level - 1
        } else {
            level
        };
        proof {
            assert(next == level + paren_delta(expr@[i as int]));
        }
        if next == 0 {
            return Some(i);
        }
        level = next;
        i = i + 1;
    }
    None
}

/// Character-by-character string equality.
pub(crate) fn str_eq(a: &str, b: &str) -> (r: bool)
    ensures
        r == (a@ == b@),
{
    let n = a.unicode_len();
    if n != b.unicode_len() {
        return false;
    }
    let mut i: usize = 0;
    while i < n
        invariant
            i <= n,
            n == a@.len(),
            n == b@.len(),
            forall|j: int| 0 <= j < i ==> a@[j] == b@[j],
        decreases n - i,
    {
        if a.get_char(i) != b.get_char(i) {
            return false;
        }
        i = i + 1;
    }
    proof {
        assert(a@ =~= b@);
    }
    true
}

/// An index found by [`close_from`] lies between the scan start and the end
/// of the sequence.
pub proof fn lemma_close_from_range(s: Seq<char>, i: int, level: int)
    ensures
        close_from(s, i, level) is Some ==> i <= close_from(s, i, level)->0 < s.len(),
    decreases s.len() - i,
{
    if i < 0 || i >= s.len() {
    } else {
        let next = level + paren_delta(s[i]);
        if next == 0 {
        } else {
            lemma_close_from_range(s, i + 1, next);
        }
    }
}

/// The call-shape test, scanned from index `i`: the position of the first
/// `(` past the front, provided every character before it is a letter and
/// the group it opens closes exactly at the end of `s`. Any other
/// character composition is not a call.
pub open spec fn call_shape_from(s: Seq<char>, i: int) -> Option<int>
    decreases s.len() - i,
{
    if i < 0 || i >= s.len() {
        None
    } else if s[i] == '(' && i != 0 {
        match spec_find_closing(s.subrange(i, s.len() as int)) {
            Some(j) => if i + j == s.len() - 1 {
                Some(i)
            } else {
                None
            },
            None => None,
        }
    } else if !is_letter(s[i]) {
        None
    } else {
        call_shape_from(s, i + 1)
    }
}

/// The position of the `(` when `s` as a whole has the shape
/// `<letters>(<arguments>)`, with the group closing exactly at the end. The
/// scan only ever finds a position with a non-empty name before it and at
/// least the closing parenthesis after it; the guard makes those bounds
/// plain to every reader of the definition.
pub open spec fn spec_call_paren(s: Seq<char>) -> Option<int> {
    match call_shape_from(s, 0) {
        Some(p) => if 0 < p && p + 1 < s.len() {
            Some(p)
        } else {
            None
        },
        None => None,
    }
}

/// Classifies `expr` as a function call: a non-empty run of letters followed
/// by a parenthesis group that spans to the end. Returns the name, the
/// argument text between the outer parentheses, and the index of the `(`.
pub fn is_function_call(expr: &str) -> (r: Option<(&str, &str, usize)>)
    ensures
        r is Some <==> spec_call_paren(expr@) is Some,
        r is Some ==> ({
            let (name, args, pos) = r->0;
            &&& Some(pos as int) == spec_call_paren(expr@)
            &&& name@ == expr@.subrange(0, pos as int)
            &&& args@ == expr@.subrange(pos as int + 1, expr@.len() - 1)
            &&& pos as int + 1 < expr@.len()
        }),
{
    let n = expr.unicode_len();
    let mut i: usize = 0;
    while i < n
        invariant
            i <= n,
            n == expr@.len(),
            call_shape_from(expr@, 0) == call_shape_from(expr@, i as int),
        decreases n - i,
    {
        let c = expr.get_char(i);
        if c == '(' && i != 0 {
            let tail = expr.substring_char(i, n);
            match find_closing_parenthesis(tail) {
                Some(j) => {
                    proof {
                        assert(j < n - i);
                        lemma_close_from_range(tail@, 1, 1);
                        assert(j >= 1);
                    }
                    if i + j == n - 1 {
                        let name = expr.substring_char(0, i);
                        let args = expr.substring_char(i + 1, n - 1);
                        return Some((name, args, i));
                    } else {
                        return None;
                    }
                },
                None => {
                    return None;
                },
            }
        } else if !letter(c) {
            return None;
        }
        i = i + 1;
    }
    None
}

/// The number of commas at nesting level zero in `s`, scanned from `i` with
/// the level starting at `level`.
pub open spec fn count_commas_from(s: Seq<char>, i: int, level: int) -> nat
    decreases s.len() - i,
{
    if i < 0 || i >= s.len() {
        0
    } else {
        (if s[i] == ',' && level == 0 {
            1nat
        } else {
            0nat
        }) + count_commas_from(s, i + 1, level + paren_delta(s[i]))
    }
}

/// How many arguments an argument text denotes: none when it is empty,
/// otherwise one more than its number of top-level commas.
pub open spec fn spec_count_args(s: Seq<char>) -> nat {
    if s.len() == 0 {
        0
    } else {
        1 + count_commas_from(s, 0, 0)
    }
}

/// Counts the arguments in the argument text of a call: zero for an empty
/// text, otherwise one more than the number of top-level commas.
pub fn count_args(expr: &str) -> (r: usize)
    requires
        expr@.len() < usize::MAX,
    ensures
        r == spec_count_args(expr@),
{
    let n = expr.unicode_len();
    if n == 0 {
        return 0;
    }
    let mut i: usize = 0;
    let mut level: i128 = 0;
    let mut commas: usize = 0;
    while i < n
        invariant
            i <= n,
            n == expr@.len(),
            n < usize::MAX,
            commas <= i,
            -(i as int) <= level <= i as int,
            count_commas_from(expr@, 0, 0) == commas + count_commas_from(
                expr@,
                i as int,
                level as int,
            ),
        decreases n - i,
    {
        let c = expr.get_char(i);
        if c == ',' && level == 0 {
            commas = commas + 1;
        }
        level = level + if c == '(' {
            1
        } else if c == ')' {
            -1
        } else {
            0
        };
        i = i + 1;
    }
    1 + commas
}

/// The index of the `n`-th (counting from one) comma at nesting level zero,
/// scanned from `i` with the level starting at `level`.
pub open spec fn nth_comma_from(s: Seq<char>, i: int, level: int, n: nat) -> Option<int>
    decreases s.len() - i,
{
    if i < 0 || i >= s.len() {
        None
    } else if s[i] == ',' && level == 0 {
        if n <= 1 {
            Some(i)
        } else {
            nth_comma_from(s, i + 1, level, (n - 1) as nat)
        }
    } else {
        nth_comma_from(s, i + 1, level + paren_delta(s[i]), n)
    }
}

/// The index of the `n`-th top-level comma of `s`, counting from one. The
/// scan only ever finds an index inside `s`; the guard makes that bound
/// plain to every reader of the definition.
pub open spec fn spec_find_nth_comma(s: Seq<char>, n: nat) -> Option<int> {
    match nth_comma_from(s, 0, 0, n) {
        Some(k) => if 0 <= k < s.len() {
            Some(k)
        } else {
            None
        },
        None => None,
    }
}

/// An argument text that denotes at least two arguments has a first
/// top-level comma.
pub proof fn lemma_two_args_have_comma(s: Seq<char>)
    requires
        spec_count_args(s) >= 2,
    ensures
        spec_find_nth_comma(s, 1) is Some,
{
    lemma_commas_found(s, 0, 0);
}

/// Wherever the scan still counts a top-level comma, the search for the
/// first one succeeds, at an index inside the sequence.
proof fn lemma_commas_found(s: Seq<char>, i: int, level: int)
    requires
        count_commas_from(s, i, level) >= 1,
    ensures
        nth_comma_from(s, i, level, 1) is Some,
        i <= nth_comma_from(s, i, level, 1)->0 < s.len(),
    decreases s.len() - i,
{
    if i < 0 || i >= s.len() {
    } else if s[i] == ',' && level == 0 {
    } else {
        lemma_commas_found(s, i + 1, level + paren_delta(s[i]));
    }
}

/// Locates the `n`-th comma (counting from one) that is not nested inside a
/// parenthesis group, used to split an argument text into its arguments.
pub fn find_nth_comma(expr: &str, n: usize) -> (r: Option<usize>)
    ensures
        r is Some <==> spec_find_nth_comma(expr@, n as nat) is Some,
        r is Some ==> spec_find_nth_comma(expr@, n as nat) == Some(r->0 as int),
        r is Some ==> r->0 < expr@.len(),
{
    let len = expr.unicode_len();
    let mut i: usize = 0;
    let mut level: i128 = 0;
    let mut remaining: usize = n;
    while i < len
        invariant
            i <= len,
            len == expr@.len(),
            -(i as int) <= level <= i as int,
            nth_comma_from(expr@, 0, 0, n as nat) == nth_comma_from(
                expr@,
                i as int,
                level as int,
                remaining as nat,
            ),
        decreases len - i,
    {
        let c = expr.get_char(i);
        if c == ',' && level == 0 {
            if remaining <= 1 {
                return Some(i);
            }
            remaining = remaining - 1;
        } else {
            level = level + if c == '(' {
                1
            } else if c == ')' {
                -1
            } else {
                0
            };
        }
        i = i + 1;
    }
    None
}

} // verus!
