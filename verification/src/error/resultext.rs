use vstd::prelude::*;

use crate::error::{ParseError, ParseResult};

verus! {

/// Convenience methods on a [`ParseResult`] for translating the custom error.
pub trait ParseResultExt<T, E>: Sized {
    /// The result value this trait is implemented on.
    spec fn res(self) -> ParseResult<T, E>;

    /// Translate the custom error with `f`, as [`ParseError::map_custom`] does.
    fn map_err_custom<F, E2>(self, f: F) -> (r: ParseResult<T, E2>) where F: FnOnce(E) -> E2
        requires
            self.res() matches Err(pe) ==> pe matches ParseError::Custom(e) ==> call_requires(
                f,
                (e,),
            ),
        ensures
            self.res() matches Ok(t) ==> r matches Ok(t2) && t2 == t,
            self.res() matches Err(pe) ==> pe matches ParseError::UnexpectedInput ==> (
            r matches Err(pe2) && pe2 matches ParseError::UnexpectedInput),
            self.res() matches Err(pe) ==> pe matches ParseError::ExpectedMoreInput ==> (
            r matches Err(pe2) && pe2 matches ParseError::ExpectedMoreInput),
            self.res() matches Err(pe) ==> pe matches ParseError::Custom(e) ==> (
            r matches Err(pe2) && pe2 matches ParseError::Custom(e2) && call_ensures(
                f,
                (e,),
                e2,
            )),
    ;
}

impl<T, E> ParseResultExt<T, E> for ParseResult<T, E> {
    open spec fn res(self) -> ParseResult<T, E> {
        self
    }

    fn map_err_custom<F, E2>(self, f: F) -> (r: ParseResult<T, E2>) where F: FnOnce(E) -> E2 {
        match self {
            Ok(t) => Ok(t),
            Err(e) => Err(e.map_custom(f)),
        }
    }
}

} // verus!
