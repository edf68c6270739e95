//! Syntax errors: the one user-facing failure of the pipeline.  An error
//! carries the character offset of the first unrecoverable mismatch, its
//! line and column (both 1-based), and the kind of construct that the
//! grammar expected there.

use vstd::prelude::*;

verus! {

/// What the grammar expected at the point of failure.
#[derive(Clone, Copy, Debug, PartialEq, Eq, Structural)]
pub enum Expected {
    /// A tag (or a comment, or whitespace) at the top level of the document.
    Tag,
    /// A tag name right after `(`.
    Identifier,
    /// `=` after an attribute name.
    Equals,
    /// An attribute value after `=`.
    AttributeValue,
    /// A closing `"` for a quoted run of text.
    Quote,
    /// A tag, quoted text, a comment or `)` inside a tag.
    BodyItem,
    /// The `)` closing an open tag.
    CloseParen,
}

impl Expected {
    /// A short human-readable description of the expected construct.
    pub fn describe(&self) -> (r: &'static str)
        ensures
            r@ == (match self {
                Expected::Tag => "a tag or a comment"@,
                Expected::Identifier => "a tag name"@,
                Expected::Equals => "'=' after an attribute name"@,
                Expected::AttributeValue => "an attribute value"@,
                Expected::Quote => "a closing '\"'"@,
                Expected::BodyItem => "a tag, quoted text, a comment or ')'"@,
                Expected::CloseParen => "')'"@,
            }),
    {
        match self {
            Expected::Tag => "a tag or a comment",
            Expected::Identifier => "a tag name",
            Expected::Equals => "'=' after an attribute name",
            Expected::AttributeValue => "an attribute value",
            Expected::Quote => "a closing '\"'",
            Expected::BodyItem => "a tag, quoted text, a comment or ')'",
            Expected::CloseParen => "')'",
        }
    }
}

/// A syntax error: position (character offset, line, column) plus the
/// construct that was expected there.
#[derive(Clone, Copy, Debug, PartialEq, Eq, Structural)]
pub struct SyntaxError {
    pub offset: usize,
    pub line: usize,
    pub column: usize,
    pub expected: Expected,
}

/// 1-based line number of character offset `off` in `s`: one more than the
/// number of newlines strictly before `off`.
pub open spec fn spec_line(s: Seq<char>, off: int) -> int
    decreases off,
{
    if off <= 0 {
        1
    } else {
        spec_line(s, off - 1) + if s[off - 1] == '\n' {
            1int
        } else {
            0int
        }
    }
}

/// 1-based column of character offset `off` in `s`: the count of characters
/// since the last newline before `off`, plus one.
pub open spec fn spec_column(s: Seq<char>, off: int) -> int
    decreases off,
{
    if off <= 0 {
        1
    } else if s[off - 1] == '\n' {
        1
    } else {
        spec_column(s, off - 1) + 1
    }
}

/// Computes the 1-based line and column of character offset `off`.
pub fn line_column(s: &str, n: usize, off: usize) -> (r: (usize, usize))
    requires
        s@.len() == n as int,
        off <= n,
        n < usize::MAX,
    ensures
        r.0 as int == spec_line(s@, off as int),
        r.1 as int == spec_column(s@, off as int),
{
    let mut line: usize = 1;
    let mut column: usize = 1;
    let mut i: usize = 0;
    while i < off
        invariant
            i <= off <= n < usize::MAX,
            s@.len() == n as int,
            line as int == spec_line(s@, i as int),
            column as int == spec_column(s@, i as int),
            line <= i + 1,
            column <= i + 1,
        decreases off - i,
    {
        let c = s.get_char(i);
        if c == '\n' {
            line = line + 1;
            column = 1;
        } else {
            column = column + 1;
        }
        i = i + 1;
    }
    (line, column)
}

} // verus!
