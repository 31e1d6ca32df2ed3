//! Index bookkeeping for the expression parser: bounds checks and
//! space-skipping cursor movement over a character slice.

use crate::parser_error::ParseError;
use crate::parser_error::ParseResult;
use vstd::prelude::*;

verus! {

/// Fail with `UnexpectedEnd` where `current_index` has run off the input.
pub fn check_index(input: &[char], current_index: usize) -> (r: ParseResult<()>)
    ensures
        r is Ok <==> current_index < input@.len(),
        r matches Err(e) ==> e is UnexpectedEnd,
{
    if current_index >= input.len() {
        Err(ParseError::UnexpectedEnd)
    } else {
        Ok(())
    }
}

/// Move the cursor one character forward, then past any spaces, and fail
/// with `UnexpectedEnd` where only spaces (or nothing) remain.
pub fn try_incr_index(input: &[char], current_index: usize) -> (r: ParseResult<usize>)
    requires
        current_index < usize::MAX,
    ensures
        r matches Ok(i) ==> current_index < i < input@.len() && input@[i as int] != ' '
            && (forall|j: int| current_index < j < i ==> input@[j] == ' '),
        r matches Err(e) ==> e is UnexpectedEnd && (forall|j: int|
            current_index < j < input@.len() ==> input@[j] == ' '),
{
    let mut index: usize = current_index + 1;
    while index < input.len() && input[index] == ' '
        invariant
            current_index < index,
            index <= input@.len() || index == current_index + 1,
            forall|j: int| current_index < j < index ==> input@[j] == ' ',
        decreases input@.len() - index,
    {
        index = index + 1;
    }
    if index >= input.len() {
        Err(ParseError::UnexpectedEnd)
    } else {
        Ok(index)
    }
}

/// Move the cursor one character forward, then past any spaces; lands on the
/// next non-space character or on the end of the input.
pub fn incr_index(input: &[char], current_index: usize) -> (r: usize)
    requires
        current_index < usize::MAX,
    ensures
        current_index < r <= input@.len() || r == current_index + 1,
        r < input@.len() ==> input@[r as int] != ' ',
        forall|j: int| current_index < j < r ==> input@[j] == ' ',
{
    let mut index: usize = current_index + 1;
    while index < input.len() && input[index] == ' '
        invariant
            current_index < index,
            index <= input@.len() || index == current_index + 1,
            forall|j: int| current_index < j < index ==> input@[j] == ' ',
        decreases input@.len() - index,
    {
        index = index + 1;
    }
    index
}

} // verus!
