//! Types shared by the lexer and the parser.

use vstd::prelude::*;

pub mod error;

verus! {

/// A 1-based line and column in a source text.
#[derive(Debug, Clone, Copy, PartialEq, Eq, Structural)]
pub struct Position {
    pub line: usize,
    pub column: usize,
}

/// Whether `a` comes no later than `b` in a text.
pub open spec fn position_le(a: Position, b: Position) -> bool {
    a.line < b.line || (a.line == b.line && a.column <= b.column)
}

/// The reserved words of the language.
#[derive(Debug, Clone, Copy, PartialEq, Eq, Structural)]
pub enum Keyword {
    Break,
    Continue,
    Return,
    Do,
    End,
    Function,
    If,
    Then,
    Else,
    ElseIf,
    For,
    In,
    Constant,
    Mutable,
    Export,
}

/// Punctuation that is neither an operator nor part of a literal.
#[derive(Debug, Clone, Copy, PartialEq, Eq, Structural)]
pub enum SpecialCharacter {
    OpenBracket,
    CloseBracket,
    OpenSquareBracket,
    CloseSquareBracket,
    OpenCurlyBracket,
    CloseCurlyBracket,
    Comma,
    Colon,
}

/// The unary and binary operators of the language.
#[derive(Debug, Clone, Copy, PartialEq, Eq, Structural)]
pub enum Operator {
    Add,
    Subtract,
    Multiply,
    Divide,
    Modulo,
    Concat,
    Length,
    Not,
    And,
    Or,
    OptionalCoalesce,
    Equals,
    NotEquals,
    LessThan,
    GreaterThan,
    LessThanOrEqual,
    GreaterThanOrEqual,
    Pipe,
    Index,
    OptionalIndex,
    Assignment,
    BitwiseNot,
    BitwiseAnd,
    BitwiseOr,
    BitwiseXor,
    LeftShift,
    RightShift,
}

} // verus!
