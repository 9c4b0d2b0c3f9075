use vstd::prelude::*;

use crate::either::Either;

verus! {

/// Parser errors: the universal errors any parser may emit, plus a
/// parser-specific custom error.
pub enum ParseError<E> {
    /// The parser encountered input that can never lead to a valid parse.
    UnexpectedInput,
    /// The input ended before a complete value could be produced.
    ExpectedMoreInput,
    /// A parser-specific failure.
    Custom(E),
}

impl<E> ParseError<E> {
    /// Translate the custom error, leaving the universal variants unchanged.
    pub fn map_custom<F, E2>(self, f: F) -> (r: ParseError<E2>) where F: FnOnce(E) -> E2
        requires
            self matches ParseError::Custom(e) ==> call_requires(f, (e,)),
        ensures
            self matches ParseError::UnexpectedInput ==> r matches ParseError::UnexpectedInput,
            self matches ParseError::ExpectedMoreInput ==> r matches ParseError::ExpectedMoreInput,
            self matches ParseError::Custom(e) ==> (r matches ParseError::Custom(e2)
                && call_ensures(f, (e,), e2)),
    {
        match self {
            ParseError::UnexpectedInput => ParseError::UnexpectedInput,
            ParseError::ExpectedMoreInput => ParseError::ExpectedMoreInput,
            ParseError::Custom(e) => ParseError::Custom(f(e)),
        }
    }
}

/// How an error of the first of two joined sub-parsers surfaces: the
/// universal variants pass through unchanged, a custom error is tagged as
/// the left alternative.
pub open spec fn err_tagged_left<E1, E2>(e: ParseError<E1>, r: ParseError<Either<E1, E2>>) -> bool {
    match e {
        ParseError::UnexpectedInput => r matches ParseError::UnexpectedInput,
        ParseError::ExpectedMoreInput => r matches ParseError::ExpectedMoreInput,
        ParseError::Custom(c) => r matches ParseError::Custom(ce) && ce matches Either::Left(c2)
            && c2 == c,
    }
}

/// How an error of the second of two joined sub-parsers surfaces: the
/// universal variants pass through unchanged, a custom error is tagged as
/// the right alternative.
pub open spec fn err_tagged_right<E1, E2>(e: ParseError<E2>, r: ParseError<Either<E1, E2>>) -> bool {
    match e {
        ParseError::UnexpectedInput => r matches ParseError::UnexpectedInput,
        ParseError::ExpectedMoreInput => r matches ParseError::ExpectedMoreInput,
        ParseError::Custom(c) => r matches ParseError::Custom(ce) && ce matches Either::Right(c2)
            && c2 == c,
    }
}

} // verus!
