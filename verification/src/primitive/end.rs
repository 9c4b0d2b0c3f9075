use vstd::prelude::*;

use core::convert::Infallible;

use crate::error::{ParseError, ParseResult};
use crate::parser::{Outcome, ParserBase, ParserCore, Update};

verus! {

/// Construct the [`End`] parser, which succeeds exactly at an empty end of
/// input.
pub fn end() -> End {
    End
}

/// The [`End`] parser succeeds exactly at an empty end of input: every fed
/// unit is unexpected, and the end of input itself is the value it parses.
pub struct End;

impl ParserBase for End {
    type Output = End;

    type Error = Infallible;

    /// The absence of further input is exactly what [`End`] asserts.
    fn pending_at_end(self) -> (r: Option<End>)
        ensures
            r matches Some(_),
    {
        Some(End)
    }
}

impl<T> ParserCore<T> for End {
    open spec fn ok_input(&self, b: Seq<T>) -> bool {
        true
    }

    open spec fn ok_fresh(&self) -> bool {
        true
    }

    open spec fn ok_output(x: End, b: Seq<T>) -> bool {
        true
    }

    proof fn lemma_ok_fresh(&self, b: Seq<T>) {
    }

    /// Succeeds with zero consumption on an empty buffer; any unit of input
    /// is [`ParseError::UnexpectedInput`].
    fn feed(self, buffer: &[T]) -> (r: ParseResult<Update<Self, End>, Infallible>)
        ensures
            buffer@.len() == 0 <==> r matches Ok(u),
            r matches Ok(u) ==> u.consumed == 0 && u.outcome matches Outcome::Next(_),
            r matches Err(e) ==> e matches ParseError::UnexpectedInput,
    {
        if buffer.is_empty() {
            Ok(Update { consumed: 0, outcome: Outcome::Next(End) })
        } else {
            Err(ParseError::UnexpectedInput)
        }
}

    /// The end of input completes [`End`] exactly when the remainder is
    /// empty.
    fn finalize(self, buffer: &[T]) -> (r: ParseResult<Option<End>, Infallible>)
        ensures
            buffer@.len() == 0 <==> r matches Ok(_),
            r matches Ok(o) ==> o matches Some(_),
            r matches Err(e) ==> e matches ParseError::UnexpectedInput,
    {
        match self.feed(buffer) {
            Err(e) => Err(e),
            Ok(u) => match u.outcome {
                Outcome::Next(s2) => Ok(s2.pending_at_end()),
                Outcome::Parsed(x) => Ok(Some(x)),
            },
        }
    }
}

} // verus!
