//! Tokens of a line and the ways an evaluation can fail.
use vstd::prelude::*;

verus! {

/// One lexical unit of a line.
#[derive(Clone, Copy, Debug, PartialEq, Eq, Structural)]
pub enum Token {
    /// A run of decimal digits and its value.
    Integer(u32),
    Plus,
    Minus,
    /// No character is left on the line.
    EndOfInput,
}

/// Why an evaluation stopped without a result.
#[derive(Clone, Copy, Debug, PartialEq, Eq, Structural)]
pub enum ParseError {
    /// A character that is neither a digit, `+`, `-` nor white space.
    UnexpectedCharacter { ch: char, pos: usize },
    /// The token at an operand's place is no integer.
    ExpectedOperand { found: Token },
    /// The token after the left operand is neither `+` nor `-`.
    ExpectedOperator { found: Token },
    /// A run of digits, starting at `pos`, whose value does not fit in a `u32`.
    MalformedNumber { pos: usize },
}

impl Token {
    /// The value of an integer token.
    pub fn int_value(&self) -> (r: u32)
        requires
            self is Integer,
        ensures
            r == self->Integer_0,
    {
        match self {
            Token::Integer(value) => *value,
            _ => 0,
        }
    }
}

} // verus!
