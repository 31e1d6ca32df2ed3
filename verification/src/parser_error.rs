//! Structured errors for the expression parser.

use vstd::prelude::*;

verus! {

/// The class of token the parser was looking for when it stopped.
#[derive(Debug, Eq, PartialEq, Structural)]
pub enum Expected {
    Base,
    Constant,
    Char(char),
}

/// Why a parse stopped: an unexpected character with its position and the
/// expected class, a malformed numeric literal, input that ended too early,
/// or trailing input that no rule consumed.
#[derive(Eq, PartialEq, Debug)]
pub enum ParseError {
    UnexpectedChar { pos: usize, c: char, exp: Expected },
    Float(String),
    UnexpectedEnd,
    UnconsumedInput(usize),
}

pub type ParseResult<R> = Result<R, ParseError>;

} // verus!
