use vstd::prelude::*;

use crate::error::{ParseResult, ParseResultExt};
use crate::parser::{Outcome, Update};

verus! {

/// Convenience methods on a [`ParseResult`] holding an [`Update`].
pub trait ParseResultUpdateExt<S, X, E>: ParseResultExt<Update<S, X>, E> {
    /// Map the pending state of the update, as [`Update::map_next`] does.
    fn map_next<F, S2>(self, f: F) -> (r: ParseResult<Update<S2, X>, E>) where F: FnOnce(S) -> S2
        requires
            self.res() matches Ok(u) ==> u.outcome matches Outcome::Next(s) ==> call_requires(
                f,
                (s,),
            ),
        ensures
            self.res() matches Err(e) ==> r matches Err(e2) && e2 == e,
            self.res() matches Ok(u) ==> r matches Ok(u2) && u2.consumed == u.consumed,
            self.res() matches Ok(u) ==> u.outcome matches Outcome::Next(s) ==> (
            r matches Ok(u2) && u2.outcome matches Outcome::Next(s2) && call_ensures(
                f,
                (s,),
                s2,
            )),
            self.res() matches Ok(u) ==> u.outcome matches Outcome::Parsed(x) ==> (
            r matches Ok(u2) && u2.outcome matches Outcome::Parsed(x2) && x2 == x),
    ;

    /// Map the output of the update, as [`Update::map_output`] does.
    fn map_output<F, X2>(self, f: F) -> (r: ParseResult<Update<S, X2>, E>) where
        F: FnOnce(X) -> X2,

        requires
            self.res() matches Ok(u) ==> u.outcome matches Outcome::Parsed(x) ==> call_requires(
                f,
                (x,),
            ),
        ensures
            self.res() matches Err(e) ==> r matches Err(e2) && e2 == e,
            self.res() matches Ok(u) ==> r matches Ok(u2) && u2.consumed == u.consumed,
            self.res() matches Ok(u) ==> u.outcome matches Outcome::Next(s) ==> (
            r matches Ok(u2) && u2.outcome matches Outcome::Next(s2) && s2 == s),
            self.res() matches Ok(u) ==> u.outcome matches Outcome::Parsed(x) ==> (
            r matches Ok(u2) && u2.outcome matches Outcome::Parsed(x2) && call_ensures(
                f,
                (x,),
                x2,
            )),
    ;

    /// Map the whole outcome of the update, as [`Update::map_outcome`] does.
    fn map_outcome<F, S2, X2>(self, f: F) -> (r: ParseResult<Update<S2, X2>, E>) where
        F: FnOnce(Outcome<S, X>) -> Outcome<S2, X2>,

        requires
            self.res() matches Ok(u) ==> call_requires(f, (u.outcome,)),
        ensures
            self.res() matches Err(e) ==> r matches Err(e2) && e2 == e,
            self.res() matches Ok(u) ==> (r matches Ok(u2) && u2.consumed == u.consumed
                && call_ensures(f, (u.outcome,), u2.outcome)),
    ;
}

impl<S, X, E> ParseResultUpdateExt<S, X, E> for ParseResult<Update<S, X>, E> {
    fn map_next<F, S2>(self, f: F) -> (r: ParseResult<Update<S2, X>, E>) where
        F: FnOnce(S) -> S2,
    {
        match self {
            Ok(u) => Ok(u.map_next(f)),
            Err(e) => Err(e),
        }
    }

    fn map_output<F, X2>(self, f: F) -> (r: ParseResult<Update<S, X2>, E>) where
        F: FnOnce(X) -> X2,
    {
        match self {
            Ok(u) => Ok(u.map_output(f)),
            Err(e) => Err(e),
        }
    }

    fn map_outcome<F, S2, X2>(self, f: F) -> (r: ParseResult<Update<S2, X2>, E>) where
        F: FnOnce(Outcome<S, X>) -> Outcome<S2, X2>,
    {
        match self {
            Ok(u) => Ok(u.map_outcome(f)),
            Err(e) => Err(e),
        }
    }
}

} // verus!
