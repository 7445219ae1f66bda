//! Errors reported by lexing and parsing.
//!
//! A `CompilationError` carries the kind of failure together with the
//! location of the offending source region, precise enough for a caller to
//! highlight the exact substring that caused it.
use crate::tokenize::Punct;
use crate::Location;
use vstd::prelude::*;

verus! {

/// What the parser was looking for when it failed.
#[derive(Debug, Clone, Copy, PartialEq, Eq, Structural)]
pub enum Expected {
    /// An opening parenthesis after a function name.
    OpenParenth,
    /// A function name at the start of a statement.
    Identifier,
    /// A literal, a parenthesized sub-expression, or a nested call.
    Operand,
    /// A binary operator between two operands.
    Operator,
}

/// A shape-only summary of the token actually found, for diagnostics.
#[derive(Debug, Clone, Copy, PartialEq, Eq, Structural)]
pub enum TokenSummary {
    Punct(Punct),
    Ident,
    Value,
    Block,
    Eof,
}

#[derive(Debug, Clone, Copy, PartialEq, Eq, Structural)]
pub enum CompilationErrorKind {
    /// A character that no token class recognizes.
    UnrecognizedCharacter,
    /// A numeric literal whose exact value does not fit the rational range.
    TooPreciseNumber,
    /// A numeric literal with a second decimal point.
    TwoDecimalPoints,
    /// A closing delimiter with nothing open, or an opening delimiter never
    /// closed.
    UnmatchedDelimiter,
    /// A closing delimiter of a different kind than the open one. With
    /// parentheses as the only delimiter kind this cannot presently arise;
    /// the kind is reserved for further delimiter kinds.
    MismatchedDelimiter,
    /// An empty argument slot: a comma with no argument before it.
    TwoCommas,
    /// The parser expected one construct and found another; `found` is
    /// `None` when the input ended instead.
    SyntaxError { expected: Expected, found: Option<TokenSummary> },
}

#[derive(Debug, Clone, Copy, PartialEq, Eq, Structural)]
pub struct CompilationError {
    pub location: Location,
    pub kind: CompilationErrorKind,
}

impl CompilationError {
    pub fn new(location: Location, kind: CompilationErrorKind) -> (r: Self)
        ensures
            r == (CompilationError { location, kind }),
    {
        Self { location, kind }
    }

    pub fn location(&self) -> (r: Location)
        ensures
            r == self.location,
    {
        self.location
    }

    pub fn kind(&self) -> (r: CompilationErrorKind)
        ensures
            r == self.kind,
    {
        self.kind
    }
}

} // verus!
