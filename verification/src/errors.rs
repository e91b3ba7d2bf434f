//! The error value that the parser returns: the offending token, the full
//! expression it came from, a human-readable message, and the character
//! offset at which parsing failed, together with the fixed rendering format.

use vstd::prelude::*;
use vstd::string::*;

verus! {

/// The mathematical model of a [`SyntaxError`]: every field as a sequence of
/// characters, the position as an unbounded integer.
pub struct SpecSyntaxError {
    /// The offending token text.
    pub expression: Seq<char>,
    /// The whole expression the token came from.
    pub full_expression: Seq<char>,
    /// The human-readable description of the failure.
    pub message: Seq<char>,
    /// The character offset within `full_expression` at which parsing failed.
    pub position: int,
}

/// A located syntax error, created once at the point of failure and handed
/// upward unchanged.
#[derive(Debug)]
pub struct SyntaxError {
    expression: String,
    full_expression: String,
    message: String,
    position: usize,
}

impl View for SyntaxError {
    type V = SpecSyntaxError;

    closed spec fn view(&self) -> SpecSyntaxError {
        SpecSyntaxError {
            expression: self.expression@,
            full_expression: self.full_expression@,
            message: self.message@,
            position: self.position as int,
        }
    }
}

/// The fixed rendering format of a syntax error: the offending token, the
/// full expression, the message, and the prefix of the full expression up to
/// the failure position as a caret-less location marker.
pub open spec fn spec_render(e: SpecSyntaxError) -> Seq<char>
    recommends
        0 <= e.position <= e.full_expression.len(),
{
    "error while parsing token \""@ + e.expression + "\" in expression \""@ + e.full_expression
        + "\": "@ + e.message + ", "@ + e.full_expression.subrange(0, e.position) + " <-- HERE"@
}

impl SyntaxError {
    /// Packs the four components of an error, changing none of them.
    pub fn new(expr: String, full_expr: String, msg: String, pos: usize) -> (e: SyntaxError)
        ensures
            e@ == (SpecSyntaxError {
                expression: expr@,
                full_expression: full_expr@,
                message: msg@,
                position: pos as int,
            }),
    {
        SyntaxError { expression: expr, full_expression: full_expr, message: msg, position: pos }
    }

    /// A well-formed error points inside (or just past) its full expression.
    pub open spec fn wf(&self) -> bool {
        0 <= self@.position <= self@.full_expression.len()
    }

    /// Renders the error in the fixed display format of [`spec_render`].
    pub fn render(&self) -> (s: String)
        requires
            self.wf(),
        ensures
            s@ == spec_render(self@),
    {
        let mut s = String::from_str("error while parsing token \"");
        s.append(self.expression.as_str());
        s.append("\" in expression \"");
        s.append(self.full_expression.as_str());
        s.append("\": ");
        s.append(self.message.as_str());
        s.append(", ");
        let marker = self.full_expression.as_str().substring_char(0, self.position);
        s.append(marker);
        s.append(" <-- HERE");
        proof {
            assert(s@ =~= spec_render(self@));
        }
        s
    }
}

} // verus!
