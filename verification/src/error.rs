//! The two families of failure: a statement that is not SQL, and a statement
//! that cannot be carried out.

use vstd::prelude::*;

verus! {

/// Why a statement could not be parsed.
#[derive(Clone, Copy, PartialEq, Eq, Structural, Debug)]
pub enum ParseErrorKind {
    /// A token stands where the grammar has no place for it.
    UnexpectedToken,
    /// A quoted text or quoted name has no closing quote.
    Unterminated,
    /// An opening parenthesis is never closed.
    UnbalancedParens,
    /// The statement does not begin with a known keyword.
    UnknownKeyword,
    /// A character that begins no token.
    InvalidCharacter,
    /// A numeric literal outside the range of its type.
    NumberOutOfRange,
}

/// A syntax error and the index of the character at which it was found.
#[derive(Clone, Copy, PartialEq, Eq, Structural, Debug)]
pub struct ParseError {
    pub position: usize,
    pub kind: ParseErrorKind,
}

/// Why a well-formed statement failed.
#[derive(Clone, Copy, PartialEq, Eq, Structural, Debug)]
pub enum EngineError {
    UnknownTable,
    TableAlreadyExists,
    ColumnCountMismatch,
    TypeMismatch,
    UnknownColumn,
    UnknownFunction,
    DivisionByZero,
    SubqueryCardinality,
    AggregateMisuse,
}

/// Either failure, as one statement's outcome.
#[derive(Clone, Copy, PartialEq, Eq, Structural, Debug)]
pub enum Failure {
    Parse(ParseError),
    Engine(EngineError),
}

impl ParseErrorKind {
    /// The words of the message for this kind of syntax error.
    pub fn message(&self) -> (s: &'static str)
        ensures
            s@ == self.message_spec(),
    {
        match self {
            ParseErrorKind::UnexpectedToken => "unexpected token",
            ParseErrorKind::Unterminated => "unterminated literal",
            ParseErrorKind::UnbalancedParens => "unbalanced parentheses",
            ParseErrorKind::UnknownKeyword => "unknown statement",
            ParseErrorKind::InvalidCharacter => "invalid character",
            ParseErrorKind::NumberOutOfRange => "number out of range",
        }
    }

    /// The words of the message, as a sequence of characters.
    pub open spec fn message_spec(&self) -> Seq<char> {
        match self {
            ParseErrorKind::UnexpectedToken => "unexpected token"@,
            ParseErrorKind::Unterminated => "unterminated literal"@,
            ParseErrorKind::UnbalancedParens => "unbalanced parentheses"@,
            ParseErrorKind::UnknownKeyword => "unknown statement"@,
            ParseErrorKind::InvalidCharacter => "invalid character"@,
            ParseErrorKind::NumberOutOfRange => "number out of range"@,
        }
    }
}

impl ParseError {
    /// The words of the message for this error.
    pub fn message(&self) -> (s: &'static str)
        ensures
            s@ == self.kind.message_spec(),
    {
        self.kind.message()
    }
}

impl EngineError {
    /// The words of the message for this error.
    pub fn message(&self) -> (s: &'static str)
        ensures
            s@ == self.message_spec(),
    {
        match self {
            EngineError::UnknownTable => "unknown table",
            EngineError::TableAlreadyExists => "table already exists",
            EngineError::ColumnCountMismatch => "column count mismatch",
            EngineError::TypeMismatch => "type mismatch",
            EngineError::UnknownColumn => "unknown column",
            EngineError::UnknownFunction => "unknown function",
            EngineError::DivisionByZero => "division by zero",
            EngineError::SubqueryCardinality => "subquery returned more than one row",
            EngineError::AggregateMisuse => "misuse of aggregate",
        }
    }

    /// The words of the message, as a sequence of characters.
    pub open spec fn message_spec(&self) -> Seq<char> {
        match self {
            EngineError::UnknownTable => "unknown table"@,
            EngineError::TableAlreadyExists => "table already exists"@,
            EngineError::ColumnCountMismatch => "column count mismatch"@,
            EngineError::TypeMismatch => "type mismatch"@,
            EngineError::UnknownColumn => "unknown column"@,
            EngineError::UnknownFunction => "unknown function"@,
            EngineError::DivisionByZero => "division by zero"@,
            EngineError::SubqueryCardinality => "subquery returned more than one row"@,
            EngineError::AggregateMisuse => "misuse of aggregate"@,
        }
    }
}

impl Failure {
    /// The words that follow `Error: ` on the line that reports this failure.
    pub fn message(&self) -> (s: &'static str)
        ensures
            s@ == self.message_spec(),
    {
        match self {
            Failure::Parse(e) => e.kind.message(),
            Failure::Engine(e) => e.message(),
        }
    }

    /// The words of the message, as a sequence of characters.
    pub open spec fn message_spec(&self) -> Seq<char> {
        match self {
            Failure::Parse(e) => e.kind.message_spec(),
            Failure::Engine(e) => e.message_spec(),
        }
    }
}

} // verus!
