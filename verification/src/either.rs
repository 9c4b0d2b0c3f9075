//! A minimal sum type for values that are one of two things.

use vstd::prelude::*;

verus! {

/// One of two values: the left or the right alternative.
///
/// Combinators that join two sub-parsers use this to tag which side an
/// output or an error came from.
pub enum Either<L, R> {
    /// The left alternative.
    Left(L),
    /// The right alternative.
    Right(R),
}

impl<L, R> Either<L, R> {
    /// Whether this is the left alternative.
    pub fn is_left(&self) -> (r: bool)
        ensures
            r <==> self matches Either::Left(_),
    {
        match self {
            Either::Left(_) => true,
            Either::Right(_) => false,
        }
    }

    /// Map the left alternative.
    pub fn map_left<F, L2>(self, f: F) -> (r: Either<L2, R>) where F: FnOnce(L) -> L2
        requires
            self matches Either::Left(l) ==> call_requires(f, (l,)),
        ensures
            self matches Either::Left(l) ==> (r matches Either::Left(l2) && call_ensures(
                f,
                (l,),
                l2,
            )),
            self matches Either::Right(x) ==> r matches Either::Right(x2) && x2 == x,
    {
        match self {
            Either::Left(l) => Either::Left(f(l)),
            Either::Right(x) => Either::Right(x),
        }
    }

    /// Map the right alternative.
    pub fn map_right<F, R2>(self, f: F) -> (r: Either<L, R2>) where F: FnOnce(R) -> R2
        requires
            self matches Either::Right(x) ==> call_requires(f, (x,)),
        ensures
            self matches Either::Left(l) ==> r matches Either::Left(l2) && l2 == l,
            self matches Either::Right(x) ==> (r matches Either::Right(x2) && call_ensures(
                f,
                (x,),
                x2,
            )),
    {
        match self {
            Either::Left(l) => Either::Left(l),
            Either::Right(x) => Either::Right(f(x)),
        }
    }
}

impl<A> Either<A, A> {
    /// Extract the value when both alternatives carry the same type.
    pub fn into_inner(self) -> (r: A)
        ensures
            self matches Either::Left(l) ==> r == l,
            self matches Either::Right(x) ==> r == x,
    {
        match self {
            Either::Left(l) => l,
            Either::Right(x) => x,
        }
    }
}

/// Tag a value as the left alternative.
pub fn tag_left<L, R>(l: L) -> (r: Either<L, R>)
    ensures
        r matches Either::Left(l2) && l2 == l,
{
    Either::Left(l)
}

/// Tag a value as the right alternative.
pub fn tag_right<L, R>(x: R) -> (r: Either<L, R>)
    ensures
        r matches Either::Right(x2) && x2 == x,
{
    Either::Right(x)
}

} // verus!
