use vstd::prelude::*;

use crate::either::{tag_left, tag_right, Either};
use crate::error::{err_tagged_left, err_tagged_right, ParseError, ParseResult};
use crate::parser::{retains, Outcome, ParserBase, ParserCore, Update};

verus! {

/// Parse two subgrammars in sequence, `X` then `Y`, yielding both outputs.
///
/// While `X` runs, its errors are tagged left; once `X` completes, its
/// output is carried along and every further unit goes to `Y`, whose errors
/// are tagged right.
pub struct Then<X, Y> where X: ParserBase {
    xporv: Either<X, X::Output>,
    y: Y,
}

impl<X, Y> Then<X, Y> where X: ParserBase {
    /// Create a sequential parser for `x` then `y`.
    pub fn new(x: X, y: Y) -> (r: Self)
        ensures
            r.first_spec() matches Either::Left(x2) && x2 == x,
            r.second_spec() == y,
    {
        Then { xporv: Either::Left(x), y }
    }

    /// The first sub-parser, or its output once it has completed.
    pub closed spec fn first_spec(self) -> Either<X, X::Output> {
        self.xporv
    }

    /// The second sub-parser.
    pub closed spec fn second_spec(self) -> Y {
        self.y
    }
}

impl<X, Y> ParserBase for Then<X, Y> where X: ParserBase, Y: ParserBase {
    type Output = (X::Output, Y::Output);

    type Error = Either<X::Error, Y::Error>;

    /// Both halves must resolve at the end of input: the first from its
    /// pending value if it has not completed, then the second.  Whenever the
    /// first half cannot resolve, neither can the pair, whatever the second
    /// would say.
    fn pending_at_end(self) -> (r: Option<(X::Output, Y::Output)>)
        ensures
            self.first_spec() matches Either::Left(x) ==> exists|xp: Option<X::Output>|
                {
                    &&& call_ensures(X::pending_at_end, (x,), xp)
                    &&& (xp matches None ==> r matches None)
                    &&& (xp matches Some(xv) ==> exists|yp: Option<Y::Output>|
                        {
                            &&& call_ensures(Y::pending_at_end, (self.second_spec(),), yp)
                            &&& (yp matches None ==> r matches None)
                            &&& (yp matches Some(yv) ==> r matches Some(p) && p == (xv, yv))
                        })
                },
            self.first_spec() matches Either::Right(xv) ==> exists|yp: Option<Y::Output>|
                {
                    &&& call_ensures(Y::pending_at_end, (self.second_spec(),), yp)
                    &&& (yp matches None ==> r matches None)
                    &&& (yp matches Some(yv) ==> r matches Some(p) && p == (xv, yv))
                },
    {
        let Then { xporv, y } = self;
        let ghost gy = y;
        match xporv {
            Either::Left(x) => {
                let ghost gx = x;
                let xp = x.pending_at_end();
                proof {
                    assert(call_ensures(X::pending_at_end, (gx,), xp));
                }
                match xp {
                    None => None,
                    Some(xval) => {
                        let yp = y.pending_at_end();
                        proof {
                            assert(call_ensures(Y::pending_at_end, (gy,), yp));
                            assert(gy == self.second_spec());
                        }
                        match yp {
                            None => None,
                            Some(yval) => Some((xval, yval)),
                        }
                    },
                }
            },
            Either::Right(xout) => {
                let yp = y.pending_at_end();
                proof {
                    assert(call_ensures(Y::pending_at_end, (gy,), yp));
                    assert(gy == self.second_spec());
                }
                match yp {
                    None => None,
                    Some(yval) => Some((xout, yval)),
                }
            },
        }
    }
}

impl<T, X, Y> ParserCore<T> for Then<X, Y> where X: ParserCore<T>, Y: ParserCore<T> {
    open spec fn ok_input(&self, b: Seq<T>) -> bool {
        match self.first_spec() {
            Either::Left(x) => x.ok_input(b) && self.second_spec().ok_fresh(),
            Either::Right(_) => self.second_spec().ok_input(b),
        }
    }

    open spec fn ok_fresh(&self) -> bool {
        &&& self.first_spec() matches Either::Left(x) && x.ok_fresh()
        &&& self.second_spec().ok_fresh()
    }

    open spec fn ok_output(x: (X::Output, Y::Output), b: Seq<T>) -> bool {
        Y::ok_output(x.1, b)
    }

    proof fn lemma_ok_fresh(&self, b: Seq<T>) {
        match self.first_spec() {
            Either::Left(x) => x.lemma_ok_fresh(b),
            Either::Right(_) => {},
        }
    }

    /// Feed the half that is still running.  A completion of the first
    /// half only switches the state over to the second; the pair is parsed
    /// when the second half completes.
    fn feed(self, buffer: &[T]) -> (r: ParseResult<
        Update<Self, (X::Output, Y::Output)>,
        Either<X::Error, Y::Error>,
    >)
        ensures
            self.first_spec() matches Either::Left(_) ==> r matches Ok(u) ==> u.outcome
                matches Outcome::Next(_),
            self.first_spec() matches Either::Left(_) ==> r matches Err(pe) ==> pe
                matches ParseError::Custom(c) ==> c matches Either::Left(_),
            self.first_spec() matches Either::Right(_) ==> r matches Err(pe) ==> pe
                matches ParseError::Custom(c) ==> c matches Either::Right(_),
            self.first_spec() matches Either::Left(x) ==> exists|
                ir: ParseResult<Update<X, X::Output>, X::Error>,
            |
                {
                    &&& call_ensures(X::feed, (x, buffer), ir)
                    &&& (ir matches Err(e) ==> r matches Err(pe) && err_tagged_left(e, pe))
                    &&& (ir matches Ok(iu) ==> iu.outcome matches Outcome::Next(x2) ==> (
                    r matches Ok(u) && (u.consumed == iu.consumed && (u.outcome
                        matches Outcome::Next(s2) && ((s2.first_spec() matches Either::Left(x3)
                        && x3 == x2) && s2.second_spec() == self.second_spec())))))
                    &&& (ir matches Ok(iu) ==> iu.outcome matches Outcome::Parsed(xo) ==> (
                    r matches Ok(u) && (u.consumed == iu.consumed && (u.outcome
                        matches Outcome::Next(s2) && ((s2.first_spec() matches Either::Right(xo2)
                        && xo2 == xo) && s2.second_spec() == self.second_spec())))))
                },
            self.first_spec() matches Either::Right(xo) ==> exists|
                ir: ParseResult<Update<Y, Y::Output>, Y::Error>,
            |
                {
                    &&& call_ensures(Y::feed, (self.second_spec(), buffer), ir)
                    &&& (ir matches Err(e) ==> r matches Err(pe) && err_tagged_right(e, pe))
                    &&& (ir matches Ok(iu) ==> iu.outcome matches Outcome::Next(y2) ==> (
                    r matches Ok(u) && (u.consumed == iu.consumed && (u.outcome
                        matches Outcome::Next(s2) && ((s2.first_spec() matches Either::Right(xo2)
                        && xo2 == xo) && s2.second_spec() == y2)))))
                    &&& (ir matches Ok(iu) ==> iu.outcome matches Outcome::Parsed(yo) ==> (
                    r matches Ok(u) && (u.consumed == iu.consumed && (u.outcome
                        matches Outcome::Parsed(p) && (p.0 == xo && p.1 == yo)))))
                },
    {
        let Then { xporv, y } = self;
        match xporv {
            Either::Left(x) => match x.feed(buffer) {
                Err(e) => Err(e.map_custom(tag_left)),
                Ok(u) => {
                    let Update { consumed, outcome } = u;
                    match outcome {
                        Outcome::Next(x2) => Ok(
                            Update {
                                consumed,
                                outcome: Outcome::Next(Then { xporv: Either::Left(x2), y }),
                            },
                        ),
                        Outcome::Parsed(xout) => {
                            proof {
                                assert forall|b2: Seq<T>|
                                    retains(buffer@, consumed as int, b2) implies y.ok_input(
                                    b2,
                                ) by {
                                    y.lemma_ok_fresh(b2);
                                }
                            }
                            Ok(
                                Update {
                                    consumed,
                                    outcome: Outcome::Next(
                                        Then { xporv: Either::Right(xout), y },
                                    ),
                                },
                            )
                        },
                    }
                },
            },
            Either::Right(xout) => match y.feed(buffer) {
                Err(e) => Err(e.map_custom(tag_right)),
                Ok(u) => {
                    let Update { consumed, outcome } = u;
                    match outcome {
                        Outcome::Next(y2) => Ok(
                            Update {
                                consumed,
                                outcome: Outcome::Next(Then { xporv: Either::Right(xout), y: y2 }),
                            },
                        ),
                        Outcome::Parsed(yout) => {
                            proof {
                                assert forall|b2: Seq<T>|
                                    retains(buffer@, consumed as int, b2) implies <Then<
                                    X,
                                    Y,
                                > as ParserCore<T>>::ok_output((xout, yout), b2) by {}
                            }
                            Ok(Update { consumed, outcome: Outcome::Parsed((xout, yout)) })
                        },
                    }
                },
            },
        }
}

    /// Drain the remainder into whichever half still runs, then resolve
    /// both halves: a pair only when the first half has or reaches a value
    /// and the second can then resolve.
    fn finalize(self, buffer: &[T]) -> (r: ParseResult<
        Option<(X::Output, Y::Output)>,
        Either<X::Error, Y::Error>,
    >)
        ensures
            self.first_spec() matches Either::Left(x) ==> exists|
                ir: ParseResult<Update<X, X::Output>, X::Error>,
            |
                {
                    &&& call_ensures(X::feed, (x, buffer), ir)
                    &&& (ir matches Err(e) ==> r matches Err(pe) && err_tagged_left(e, pe))
                    &&& (ir matches Ok(iu) ==> iu.outcome matches Outcome::Next(x2) ==> exists|
                        xp: Option<X::Output>,
                    |
                        {
                            &&& call_ensures(X::pending_at_end, (x2,), xp)
                            &&& (xp matches None ==> r matches Ok(o) && o matches None)
                            &&& (xp matches Some(xv) ==> exists|yp: Option<Y::Output>|
                                {
                                    &&& call_ensures(
                                        Y::pending_at_end,
                                        (self.second_spec(),),
                                        yp,
                                    )
                                    &&& (yp matches None ==> r matches Ok(o) && o matches None)
                                    &&& (yp matches Some(yv) ==> (r matches Ok(o) && (o
                                        matches Some(p) && p == (xv, yv))))
                                })
                        })
                    &&& (ir matches Ok(iu) ==> iu.outcome matches Outcome::Parsed(xo) ==> exists|
                        yp: Option<Y::Output>,
                    |
                        {
                            &&& call_ensures(Y::pending_at_end, (self.second_spec(),), yp)
                            &&& (yp matches None ==> r matches Ok(o) && o matches None)
                            &&& (yp matches Some(yv) ==> (r matches Ok(o) && (o matches Some(p)
                                && p == (xo, yv))))
                        })
                },
            self.first_spec() matches Either::Right(xo) ==> exists|
                ir: ParseResult<Update<Y, Y::Output>, Y::Error>,
            |
                {
                    &&& call_ensures(Y::feed, (self.second_spec(), buffer), ir)
                    &&& (ir matches Err(e) ==> r matches Err(pe) && err_tagged_right(e, pe))
                    &&& (ir matches Ok(iu) ==> iu.outcome matches Outcome::Next(y2) ==> exists|
                        yp: Option<Y::Output>,
                    |
                        {
                            &&& call_ensures(Y::pending_at_end, (y2,), yp)
                            &&& (yp matches None ==> r matches Ok(o) && o matches None)
                            &&& (yp matches Some(yv) ==> (r matches Ok(o) && (o matches Some(p)
                                && p == (xo, yv))))
                        })
                    &&& (ir matches Ok(iu) ==> iu.outcome matches Outcome::Parsed(yo) ==> (
                    r matches Ok(o) && (o matches Some(p) && p == (xo, yo))))
                },
    {
        match self.feed(buffer) {
            Err(e) => Err(e),
            Ok(u) => match u.outcome {
                Outcome::Next(s2) => Ok(s2.pending_at_end()),
                Outcome::Parsed(x) => Ok(Some(x)),
            },
        }
    }
}

} // verus!
