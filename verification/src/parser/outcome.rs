use vstd::prelude::*;

verus! {

/// The result of one successful feed step.
pub enum Outcome<S, X> {
    /// The parser updated its state; a full output has not yet been parsed.
    Next(S),
    /// The parser successfully parsed an item.
    Parsed(X),
}

impl<S, X> Outcome<S, X> {
    /// Map the pending state.
    pub fn map_next<F, S2>(self, f: F) -> (r: Outcome<S2, X>) where F: FnOnce(S) -> S2
        requires
            self matches Outcome::Next(s) ==> call_requires(f, (s,)),
        ensures
            self matches Outcome::Next(s) ==> (r matches Outcome::Next(s2)
                && call_ensures(f, (s,), s2)),
            self matches Outcome::Parsed(x) ==> r matches Outcome::Parsed(x2) && x2 == x,
    {
        match self {
            Outcome::Next(s) => Outcome::Next(f(s)),
            Outcome::Parsed(x) => Outcome::Parsed(x),
        }
    }

    /// Map the output.
    pub fn map_output<F, X2>(self, f: F) -> (r: Outcome<S, X2>) where F: FnOnce(X) -> X2
        requires
            self matches Outcome::Parsed(x) ==> call_requires(f, (x,)),
        ensures
            self matches Outcome::Next(s) ==> r matches Outcome::Next(s2) && s2 == s,
            self matches Outcome::Parsed(x) ==> (r matches Outcome::Parsed(x2)
                && call_ensures(f, (x,), x2)),
    {
        match self {
            Outcome::Next(s) => Outcome::Next(s),
            Outcome::Parsed(x) => Outcome::Parsed(f(x)),
        }
    }
}

impl<S, X, E> Outcome<S, Result<X, E>> {
    /// Turn an [`Outcome`] whose output is a [`Result`] into a [`Result`]
    /// containing an [`Outcome`].
    pub fn transpose_output(self) -> (r: Result<Outcome<S, X>, E>)
        ensures
            self matches Outcome::Next(s) ==> r matches Ok(oc) && oc matches Outcome::Next(s2)
                && s2 == s,
            self matches Outcome::Parsed(xr) ==> match xr {
                Ok(x) => r matches Ok(oc) && oc matches Outcome::Parsed(x2) && x2 == x,
                Err(e) => r matches Err(e2) && e2 == e,
            },
    {
        match self {
            Outcome::Next(s) => Ok(Outcome::Next(s)),
            Outcome::Parsed(Ok(x)) => Ok(Outcome::Parsed(x)),
            Outcome::Parsed(Err(e)) => Err(e),
        }
    }
}

} // verus!
