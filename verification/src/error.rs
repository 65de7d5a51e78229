//! What can go wrong, as data. The front end only decides that an error
//! occurs, of what kind and where; rendering belongs to its callers.

use vstd::prelude::*;
use crate::token::{Position, TokenType};
use crate::types::Type;

verus! {

/// A syntax error the parser can report.
#[derive(Clone, Debug, PartialEq)]
pub enum SyntaxErrorKind {
    /// A symbol token that no statement form expects; carries its lexeme.
    UnexpectedSymbol(String),
    /// An atom was requested where the leading token cannot begin one.
    UnsupportedToken,
    /// The input ended while an operator still awaited its right operand.
    EofInOperation,
    /// A declaration without the `:` symbol.
    InvalidDeclaration,
    /// A type annotation was expected; carries the lexeme found instead.
    ExpectedType(String),
    /// The cursor was asked to move past one beyond the end of the tokens.
    CursorPastEnd,
    /// An integer literal that is not all digits or does not fit 128 bits.
    InvalidIntLiteral,
    /// A specific lexeme was expected; carries the expected and found ones.
    ExpectedLexeme(String, String),
    /// A specific token kind was expected; carries expected and found kinds.
    ExpectedTokenType(TokenType, TokenType),
}

/// A positioned syntax error.
#[derive(Clone, Debug, PartialEq)]
pub struct SyntaxError {
    pub kind: SyntaxErrorKind,
    pub position: Position,
}

/// The error returned when the cursor would move outside the token stack.
pub open spec fn cursor_past_end() -> SyntaxError {
    SyntaxError { kind: SyntaxErrorKind::CursorPastEnd, position: Position::Unresolved }
}

/// A semantic error the resolver can report.
#[derive(Clone, Debug, PartialEq)]
pub enum SemanticErrorKind {
    /// No visible declaration for this identifier; carries its name.
    Unresolved(String),
    /// A declaration whose initializer does not fit the declared type;
    /// carries the declared and the inferred type.
    MismatchedTypes(Type, Type),
    /// A declaration whose left-hand side is not an identifier reached the
    /// resolver directly.
    MalformedDeclaration,
}

/// A positioned semantic error.
#[derive(Clone, Debug, PartialEq)]
pub struct SemanticError {
    pub kind: SemanticErrorKind,
    pub position: Position,
}

} // verus!
