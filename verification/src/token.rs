//! The lexical input of the parser: tokens as an external tokenizer hands
//! them over, and the source positions that diagnostics carry.

use vstd::prelude::*;

verus! {

/// The lexical category of a token.
#[derive(Clone, Copy, Debug, PartialEq, Eq, Structural)]
pub enum TokenType {
    Int,
    Float,
    Char,
    Str,
    Identifier,
    Bool,
    Symbol,
    Operator,
    EOL,
}

/// A half-open character range within one source line.
#[derive(Clone, Copy, Debug, PartialEq, Eq, Structural)]
pub struct Span {
    pub start: usize,
    pub end: usize,
}

/// Where a token or a node sits in the source: a resolved line and range, or
/// the placeholder used when no token is available to point at.
#[derive(Clone, Copy, Debug, PartialEq, Eq, Structural)]
pub enum Position {
    Resolved { line: usize, line_len: usize, span: Span },
    Unresolved,
}

/// One token of the input stream. `line` is the number of the source line the
/// token sits on, `line_len` that line's length in characters, and `slice`
/// the token's character range within it.
#[derive(Clone, Debug, PartialEq)]
pub struct Token {
    pub token_type: TokenType,
    pub lexeme: String,
    pub line: usize,
    pub line_len: usize,
    pub slice: Span,
}

impl Token {
    /// The resolved position this token points at.
    pub open spec fn spec_position(self) -> Position {
        Position::Resolved { line: self.line, line_len: self.line_len, span: self.slice }
    }

    pub fn position(&self) -> (p: Position)
        ensures
            p == self.spec_position(),
    {
        Position::Resolved { line: self.line, line_len: self.line_len, span: self.slice }
    }
}

} // verus!
