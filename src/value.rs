use vstd::prelude::*;

verus! {

/// A value produced by an evaluation or held by a variable.
#[derive(Debug, Clone, PartialEq, Eq)]
pub enum Value {
    Int(i32),
    Str(String),
}

/// The mathematical content of a [`Value`].
pub enum ValueModel {
    Int(i32),
    Text(Seq<char>),
}

impl View for Value {
    type V = ValueModel;

    open spec fn view(&self) -> ValueModel {
        match self {
            Value::Int(n) => ValueModel::Int(*n),
            Value::Str(s) => ValueModel::Text(s@),
        }
    }
}

/// Why an expression was rejected.
#[derive(Debug, Clone, Copy, PartialEq, Eq, Structural)]
pub enum ParseError {
    /// Characters remain after a complete expression.
    TrailingInput,
    /// A sign or `*` written directly after a binary operator, with no
    /// whitespace between them (`1++1`, `2**3`).
    ConsecutiveOperator,
    /// A unary sign follows another unary sign (`--1`, `- +1`).
    RepeatedUnaryOperator,
    /// A `(` has no matching `)`.
    UnmatchedParenthesis,
    /// A character, or the end of the input, where an operand must start.
    InvalidToken,
    /// A string literal has no closing quote.
    UnterminatedString,
    /// An integer literal of two or more digits starts with `0`.
    LeadingZero,
    /// A literal or an intermediate result does not fit in 32 signed bits.
    NumberOverflow,
    /// An identifier names no variable.
    UndefinedVariable,
    /// A string variable stands where an integer is required.
    TypeMismatch,
}

impl ParseError {
    /// A human-readable description of the error.
    pub fn message(&self) -> &'static str {
        match self {
            ParseError::TrailingInput => "unexpected characters at end of input",
            ParseError::ConsecutiveOperator => "consecutive operators are not allowed",
            ParseError::RepeatedUnaryOperator => "repeated unary operators are not allowed",
            ParseError::UnmatchedParenthesis => "expected ')' is missing",
            ParseError::InvalidToken => "invalid token in expression",
            ParseError::UnterminatedString => "unterminated string literal",
            ParseError::LeadingZero => "invalid number: leading zeros are not allowed",
            ParseError::NumberOverflow => "number does not fit in a 32-bit signed integer",
            ParseError::UndefinedVariable => "variable not defined",
            ParseError::TypeMismatch => "cannot use a string variable in arithmetic",
        }
    }
}

} // verus!
