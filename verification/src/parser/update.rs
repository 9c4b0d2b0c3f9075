use vstd::prelude::*;

use crate::parser::Outcome;

verus! {

/// The number of input units consumed by one feed step, and its outcome.
///
/// `consumed` never exceeds the length of the buffer that was fed; input
/// units past `consumed` must be offered to the parser again.
pub struct Update<S, X> {
    /// The number of input units consumed.
    pub consumed: usize,
    /// The outcome of the feed step.
    pub outcome: Outcome<S, X>,
}

impl<S, X> Update<S, X> {
    /// Map the outcome, leaving the consumed count unchanged.
    pub fn map_outcome<F, S2, X2>(self, f: F) -> (r: Update<S2, X2>) where
        F: FnOnce(Outcome<S, X>) -> Outcome<S2, X2>,

        requires
            call_requires(f, (self.outcome,)),
        ensures
            r.consumed == self.consumed,
            call_ensures(f, (self.outcome,), r.outcome),
    {
        Update { consumed: self.consumed, outcome: f(self.outcome) }
    }

    /// Map the pending state, leaving the consumed count unchanged.
    pub fn map_next<F, S2>(self, f: F) -> (r: Update<S2, X>) where F: FnOnce(S) -> S2
        requires
            self.outcome matches Outcome::Next(s) ==> call_requires(f, (s,)),
        ensures
            r.consumed == self.consumed,
            self.outcome matches Outcome::Next(s) ==> (r.outcome matches Outcome::Next(s2)
                && call_ensures(f, (s,), s2)),
            self.outcome matches Outcome::Parsed(x) ==> r.outcome matches Outcome::Parsed(x2)
                && x2 == x,
    {
        Update { consumed: self.consumed, outcome: self.outcome.map_next(f) }
    }

    /// Map the output, leaving the consumed count unchanged.
    pub fn map_output<F, X2>(self, f: F) -> (r: Update<S, X2>) where F: FnOnce(X) -> X2
        requires
            self.outcome matches Outcome::Parsed(x) ==> call_requires(f, (x,)),
        ensures
            r.consumed == self.consumed,
            self.outcome matches Outcome::Next(s) ==> r.outcome matches Outcome::Next(s2)
                && s2 == s,
            self.outcome matches Outcome::Parsed(x) ==> (r.outcome matches Outcome::Parsed(x2)
                && call_ensures(f, (x,), x2)),
    {
        Update { consumed: self.consumed, outcome: self.outcome.map_output(f) }
    }
}

} // verus!
