use vstd::prelude::*;

use crate::error::{ParseError, ParseResult};

verus! {

/// The base of every parser: its output and error types, and its behaviour at
/// the end of input.
pub trait ParserBase: Sized {
    /// The type of parsed value.
    type Output;

    /// The custom error type.
    type Error;

    /// Convert the parser to a pending output, if one is available with no
    /// further input.
    ///
    /// Some parsers produce a value only once the input ends, for example a
    /// repetition that matches any number of occurrences.  `None` signals
    /// that the parser was still expecting more input.
    fn pending_at_end(self) -> (r: Option<Self::Output>);

    /// Signal the end of input, turning a missing pending output into
    /// [`ParseError::ExpectedMoreInput`].
    fn end_of_input(self) -> (r: ParseResult<Self::Output, Self::Error>)
        ensures
            r matches Ok(x) ==> call_ensures(Self::pending_at_end, (self,), Some(x)),
            r matches Err(e) ==> e matches ParseError::ExpectedMoreInput && call_ensures(
                Self::pending_at_end,
                (self,),
                None::<Self::Output>,
            ),
    {
        match self.pending_at_end() {
            Some(x) => Ok(x),
            None => Err(ParseError::ExpectedMoreInput),
        }
    }
}

} // verus!
