use vstd::prelude::*;

use crate::combinator::Backtrack;
use crate::either::Either;
use crate::error::{ParseError, ParseResult};
use crate::parser::{retains, Outcome, ParserBase, ParserCore, Update};

verus! {

/// True when feeding `xbt` the buffer `buffer` can end in an error: the
/// first alternative can never succeed on this input.
pub open spec fn first_failed<T, X: ParserCore<T>>(xbt: Backtrack<X>, buffer: &[T]) -> bool {
    exists|e: ParseError<X::Error>|
        call_ensures(<Backtrack<X> as ParserCore<T>>::feed, (xbt, buffer), Err(e))
}

/// True when the alternation's result mirrors an admitted feed of the
/// second alternative on the whole input `b`: the second alternative was
/// fed every unit in one call, its error is the alternation's error, and
/// its update is the alternation's update, output tagged right.
pub open spec fn second_resolved<T, X: ParserCore<T>, Y: ParserCore<T>>(
    y: Y,
    b: Seq<T>,
    r: ParseResult<Update<Or<T, X, Y>, Either<X::Output, Y::Output>>, Y::Error>,
) -> bool {
    exists|sl: &[T], ir: ParseResult<Update<Y, Y::Output>, Y::Error>|
        {
            &&& sl@ == b
            &&& call_ensures(Y::feed, (y, sl), ir)
            &&& (ir matches Err(e) ==> r matches Err(e2) && e2 == e)
            &&& (ir matches Ok(iu) ==> iu.outcome matches Outcome::Next(y2) ==> (r matches Ok(u)
                && (u.consumed == iu.consumed && (u.outcome matches Outcome::Next(s2) && (
            s2.first_spec() matches None && s2.second_spec() == y2)))))
            &&& (ir matches Ok(iu) ==> iu.outcome matches Outcome::Parsed(yo) ==> (r matches Ok(
                u,
            ) && (u.consumed == iu.consumed && (u.outcome matches Outcome::Parsed(o) && (o
                matches Either::Right(yo2) && yo2 == yo)))))
        }
}

/// True when the end of input resolves through the second alternative: an
/// admitted feed of the whole accumulated input `b` either errs (and so
/// does the alternation), parses a value (tagged right), or leaves a state
/// whose admitted pending value, tagged right, is the result — `None` when
/// there is none.
pub open spec fn second_finalized<T, X: ParserCore<T>, Y: ParserCore<T>>(
    y: Y,
    b: Seq<T>,
    r: ParseResult<Option<Either<X::Output, Y::Output>>, Y::Error>,
) -> bool {
    exists|sl: &[T], ir: ParseResult<Update<Y, Y::Output>, Y::Error>|
        {
            &&& sl@ == b
            &&& call_ensures(Y::feed, (y, sl), ir)
            &&& (ir matches Err(_) ==> (r matches Ok(o) && o matches None))
            &&& (ir matches Ok(iu) ==> iu.outcome matches Outcome::Parsed(yo) ==> (r matches Ok(
                o,
            ) && (o matches Some(oo) && (oo matches Either::Right(yo2) && yo2 == yo))))
            &&& (ir matches Ok(iu) ==> iu.outcome matches Outcome::Next(y2) ==> exists|
                yp: Option<Y::Output>,
            |
                {
                    &&& call_ensures(Y::pending_at_end, (y2,), yp)
                    &&& (yp matches Some(yo) ==> (r matches Ok(o) && (o matches Some(oo) && (oo
                        matches Either::Right(yo2) && yo2 == yo))))
                    &&& (yp matches None ==> (r matches Ok(o) && o matches None))
                })
        }
}

/// True when the end of input resolves through the second alternative
/// after the first failed during the final feed: the second alternative's
/// admitted feed of the whole input either errs — fatally, as during any
/// feed — parses a value (tagged right), or leaves a state whose admitted
/// pending value, tagged right, is the result.
pub open spec fn second_settled<T, X: ParserCore<T>, Y: ParserCore<T>>(
    y: Y,
    b: Seq<T>,
    r: ParseResult<Option<Either<X::Output, Y::Output>>, Y::Error>,
) -> bool {
    exists|sl: &[T], ir: ParseResult<Update<Y, Y::Output>, Y::Error>|
        {
            &&& sl@ == b
            &&& call_ensures(Y::feed, (y, sl), ir)
            &&& (ir matches Err(e) ==> r matches Err(e2) && e2 == e)
            &&& (ir matches Ok(iu) ==> iu.outcome matches Outcome::Parsed(yo) ==> (r matches Ok(
                o,
            ) && (o matches Some(oo) && (oo matches Either::Right(yo2) && yo2 == yo))))
            &&& (ir matches Ok(iu) ==> iu.outcome matches Outcome::Next(y2) ==> exists|
                yp: Option<Y::Output>,
            |
                {
                    &&& call_ensures(Y::pending_at_end, (y2,), yp)
                    &&& (yp matches Some(yo) ==> (r matches Ok(o) && (o matches Some(oo) && (oo
                        matches Either::Right(yo2) && yo2 == yo))))
                    &&& (yp matches None ==> (r matches Ok(o) && o matches None))
                })
        }
}

/// Parse either `X` or `Y`, yielding whichever succeeds, tagged by side.
///
/// The first alternative is tried behind a [`Backtrack`], so nothing counts
/// as consumed while it runs, and every fed chunk is appended to an owned
/// accumulator.  The moment `X` errors, the whole accumulated input — every
/// unit `X` ever saw — is replayed into `Y` with a single feed, and all
/// further input goes straight to `Y`.  `X` is preferred: `Y` is only ever
/// consulted once `X` has failed.
pub struct Or<T, X, Y> where X: ParserCore<T>, Y: ParserCore<T> {
    xbt: Option<Backtrack<X>>,
    acc: Vec<T>,
    y: Y,
}

impl<T, X, Y> Or<T, X, Y> where X: ParserCore<T>, Y: ParserCore<T> {
    /// While the first alternative is still being tried, the second has
    /// never been fed, so the accumulated input can be replayed into it.
    #[verifier::type_invariant]
    spec fn replay_ready(self) -> bool {
        self.first_spec() matches Some(_) ==> self.second_spec().ok_fresh()
    }

    /// Construct an alternation of `x`, then `y` as the fallback.
    ///
    /// The fallback must be fresh: it sees input for the first time only
    /// when the accumulated input is replayed into it.
    pub fn new(x: X, y: Y) -> (r: Self)
        requires
            y.ok_fresh(),
        ensures
            r.first_spec() matches Some(xbt) && (xbt.parser_spec() == x && xbt.offset_spec() == 0),
            r.acc_spec() == Seq::<T>::empty(),
            r.second_spec() == y,
    {
        Or { xbt: Some(Backtrack::new(x)), acc: Vec::new(), y }
    }

    /// The backtracking attempt at the first alternative, while it is still
    /// being tried.
    pub closed spec fn first_spec(self) -> Option<Backtrack<X>> {
        self.xbt
    }

    /// The input accumulated for replay into the second alternative.
    pub closed spec fn acc_spec(self) -> Seq<T> {
        self.acc@
    }

    /// The second alternative.
    pub closed spec fn second_spec(self) -> Y {
        self.y
    }
}

impl<T, X, Y> ParserBase for Or<T, X, Y> where X: ParserCore<T>, Y: ParserCore<T> {
    type Output = Either<X::Output, Y::Output>;

    type Error = Y::Error;

    /// Resolve the first alternative if it can complete with no more input;
    /// otherwise replay everything it saw into the second alternative and
    /// resolve that.  The left bias carries to the end of input.
    fn pending_at_end(self) -> (r: Option<Either<X::Output, Y::Output>>)
        ensures
            self.first_spec() matches Some(xbt) ==> exists|xp: Option<X::Output>|
                {
                    &&& call_ensures(X::pending_at_end, (xbt.parser_spec(),), xp)
                    &&& (xp matches Some(xo) ==> (r matches Some(o) && (o matches Either::Left(
                        xo2,
                    ) && xo2 == xo)))
                    &&& (xp matches None ==> exists|
                        sl: &[T],
                        ir: ParseResult<Update<Y, Y::Output>, Y::Error>,
                    |
                        {
                            &&& sl@ == self.acc_spec()
                            &&& call_ensures(Y::feed, (self.second_spec(), sl), ir)
                            &&& (ir matches Err(_) ==> r matches None)
                            &&& (ir matches Ok(iu) ==> iu.outcome matches Outcome::Parsed(yo)
                                ==> (r matches Some(o) && (o matches Either::Right(yo2) && yo2
                                == yo)))
                            &&& (ir matches Ok(iu) ==> iu.outcome matches Outcome::Next(y2)
                                ==> exists|yp: Option<Y::Output>|
                                {
                                    &&& call_ensures(Y::pending_at_end, (y2,), yp)
                                    &&& (yp matches Some(yo) ==> (r matches Some(o) && (o
                                        matches Either::Right(yo2) && yo2 == yo)))
                                    &&& (yp matches None ==> r matches None)
                                })
                        })
                },
            self.first_spec() matches None ==> exists|yp: Option<Y::Output>|
                {
                    &&& call_ensures(Y::pending_at_end, (self.second_spec(),), yp)
                    &&& (yp matches Some(yo) ==> (r matches Some(o) && (o matches Either::Right(
                        yo2,
                    ) && yo2 == yo)))
                    &&& (yp matches None ==> r matches None)
                },
    {
        proof {
            use_type_invariant(&self);
        }
        let Or { xbt, acc, y } = self;
        let ghost gy = y;
        match xbt {
            Some(bt) => {
                let xp = bt.pending_at_end();
                match xp {
                    Some(xout) => Some(Either::Left(xout)),
                    None => {
                        proof {
                            y.lemma_ok_fresh(acc@);
                        }
                        let sl: &[T] = acc.as_slice();
                        let ir = y.feed(sl);
                        proof {
                            assert(call_ensures(Y::feed, (gy, sl), ir));
                            assert(gy == self.second_spec());
                            assert(sl@ == self.acc_spec());
                        }
                        match ir {
                            Ok(u) => match u.outcome {
                                Outcome::Next(y2) => {
                                    let ghost gy2 = y2;
                                    let yp = y2.pending_at_end();
                                    proof {
                                        assert(call_ensures(Y::pending_at_end, (gy2,), yp));
                                    }
                                    match yp {
                                        Some(yout) => Some(Either::Right(yout)),
                                        None => None,
                                    }
                                },
                                Outcome::Parsed(yout) => Some(Either::Right(yout)),
                            },
                            Err(_) => None,
                        }
                    },
                }
            },
            None => {
                let yp = y.pending_at_end();
                proof {
                    assert(call_ensures(Y::pending_at_end, (gy,), yp));
                    assert(gy == self.second_spec());
                }
                match yp {
                    Some(yout) => Some(Either::Right(yout)),
                    None => None,
                }
            },
        }
    }
}

impl<T, X, Y> ParserCore<T> for Or<T, X, Y> where
    T: Copy,
    X: ParserCore<T>,
    Y: ParserCore<T>,
 {
    open spec fn ok_input(&self, b: Seq<T>) -> bool {
        match self.first_spec() {
            Some(xbt) => xbt.ok_input(b) && self.acc_spec().is_prefix_of(b),
            None => self.second_spec().ok_input(b),
        }
    }

    open spec fn ok_fresh(&self) -> bool {
        &&& self.first_spec() matches Some(xbt) && xbt.ok_fresh()
        &&& self.acc_spec().len() == 0
        &&& self.second_spec().ok_fresh()
    }

    open spec fn ok_output(x: Either<X::Output, Y::Output>, b: Seq<T>) -> bool {
        match x {
            Either::Left(xo) => X::ok_output(xo, b),
            Either::Right(yo) => Y::ok_output(yo, b),
        }
    }

    proof fn lemma_ok_fresh(&self, b: Seq<T>) {
        match self.first_spec() {
            Some(xbt) => {
                xbt.lemma_ok_fresh(b);
                assert(self.acc_spec().is_prefix_of(b));
            },
            None => {},
        }
    }

    /// While the first alternative is tried, append the chunk to the
    /// accumulator and offer it the whole retained buffer; nothing counts as
    /// consumed until an alternative completes.  On the first alternative's
    /// error, replay the full accumulated input — all of it, in one feed —
    /// into the second alternative and commit to it.
    fn feed(self, buffer: &[T]) -> (r: ParseResult<
        Update<Self, Either<X::Output, Y::Output>>,
        Y::Error,
    >)
        ensures
            self.first_spec() matches Some(xbt) ==> r matches Err(_) ==> first_failed(
                xbt,
                buffer,
            ),
            self.first_spec() matches Some(xbt) ==> r matches Ok(u) ==> u.outcome
                matches Outcome::Parsed(x) ==> x matches Either::Right(_) ==> first_failed(
                xbt,
                buffer,
            ),
            self.first_spec() matches Some(xbt) ==> r matches Ok(u) ==> u.outcome
                matches Outcome::Next(s2) ==> s2.first_spec() matches None ==> first_failed(
                xbt,
                buffer,
            ),
            self.first_spec() matches Some(xbt) ==> r matches Ok(u) ==> u.outcome
                matches Outcome::Parsed(x) ==> x matches Either::Left(xo) ==> exists|
                iu: Update<Backtrack<X>, X::Output>,
            |
                {
                    &&& call_ensures(
                        <Backtrack<X> as ParserCore<T>>::feed,
                        (xbt, buffer),
                        Ok::<_, ParseError<X::Error>>(iu),
                    )
                    &&& iu.outcome matches Outcome::Parsed(xo2) && xo2 == xo
                    &&& iu.consumed == u.consumed
                },
            self.first_spec() matches Some(xbt) ==> r matches Ok(u) ==> u.outcome
                matches Outcome::Next(s2) ==> s2.first_spec() matches Some(bt2) ==> (u.consumed
                == 0 && (s2.second_spec() == self.second_spec() && (s2.acc_spec() == buffer@
                && exists|iu: Update<Backtrack<X>, X::Output>|
                {
                    &&& call_ensures(
                        <Backtrack<X> as ParserCore<T>>::feed,
                        (xbt, buffer),
                        Ok::<_, ParseError<X::Error>>(iu),
                    )
                    &&& iu.outcome matches Outcome::Next(bt3) && bt3 == bt2
                }))),
            self.first_spec() matches Some(_) ==> (r matches Err(_) ==> second_resolved(
                self.second_spec(),
                buffer@,
                r,
            )),
            self.first_spec() matches Some(_) ==> r matches Ok(u) ==> u.outcome
                matches Outcome::Parsed(x) ==> x matches Either::Right(_) ==> second_resolved(
                self.second_spec(),
                buffer@,
                r,
            ),
            self.first_spec() matches Some(_) ==> r matches Ok(u) ==> u.outcome
                matches Outcome::Next(s2) ==> s2.first_spec() matches None ==> second_resolved(
                self.second_spec(),
                buffer@,
                r,
            ),
            self.first_spec() matches None ==> second_resolved(self.second_spec(), buffer@, r),
    {
        proof {
            use_type_invariant(&self);
        }
        let Or { xbt, mut acc, y } = self;
        match xbt {
            Some(bt) => {
                let mut i: usize = acc.len();
                while i < buffer.len()
                    invariant
                        i == acc.len(),
                        acc@.is_prefix_of(buffer@),
                        i <= buffer@.len(),
                    decreases buffer@.len() - i,
                {
                    acc.push(buffer[i]);
                    proof {
                        assert(acc@ =~= buffer@.subrange(0, i + 1));
                    }
                    i += 1;
                }
                proof {
                    assert(acc@ =~= buffer@);
                }
                match bt.feed(buffer) {
                    Ok(u) => {
                        let Update { consumed, outcome } = u;
                        match outcome {
                            Outcome::Next(bt2) => Ok(
                                Update {
                                    consumed,
                                    outcome: Outcome::Next(Or { xbt: Some(bt2), acc, y }),
                                },
                            ),
                            Outcome::Parsed(xout) => {
                                proof {
                                    assert forall|b2: Seq<T>|
                                        retains(buffer@, consumed as int, b2) implies <Or<
                                        T,
                                        X,
                                        Y,
                                    > as ParserCore<T>>::ok_output(Either::Left(xout), b2) by {}
                                }
                                Ok(
                                    Update {
                                        consumed,
                                        outcome: Outcome::Parsed(Either::Left(xout)),
                                    },
                                )
                            },
                        }
                    },
                    Err(_) => {
                        proof {
                            y.lemma_ok_fresh(acc@);
                        }
                        match y.feed(acc.as_slice()) {
                            Err(e) => Err(e),
                            Ok(u) => {
                                let Update { consumed, outcome } = u;
                                match outcome {
                                    Outcome::Next(y2) => Ok(
                                        Update {
                                            consumed,
                                            outcome: Outcome::Next(Or { xbt: None, acc, y: y2 }),
                                        },
                                    ),
                                    Outcome::Parsed(yout) => {
                                        proof {
                                            assert forall|b2: Seq<T>|
                                                retains(buffer@, consumed as int, b2) implies <Or<
                                                T,
                                                X,
                                                Y,
                                            > as ParserCore<T>>::ok_output(
                                                Either::Right(yout),
                                                b2,
                                            ) by {}
                                        }
                                        Ok(
                                            Update {
                                                consumed,
                                                outcome: Outcome::Parsed(Either::Right(yout)),
                                            },
                                        )
                                    },
                                }
                            },
                        }
                    },
                }
            },
            None => match y.feed(buffer) {
                Err(e) => Err(e),
                Ok(u) => {
                    let Update { consumed, outcome } = u;
                    match outcome {
                        Outcome::Next(y2) => Ok(
                            Update {
                                consumed,
                                outcome: Outcome::Next(Or { xbt: None, acc, y: y2 }),
                            },
                        ),
                        Outcome::Parsed(yout) => {
                            proof {
                                assert forall|b2: Seq<T>|
                                    retains(buffer@, consumed as int, b2) implies <Or<
                                    T,
                                    X,
                                    Y,
                                > as ParserCore<T>>::ok_output(Either::Right(yout), b2) by {}
                            }
                            Ok(Update { consumed, outcome: Outcome::Parsed(Either::Right(yout)) })
                        },
                    }
                },
            },
        }
}

    /// Drain the remainder into the alternation, then resolve with the
    /// left bias kept: the first alternative's value if it parses or can
    /// pend, else the second alternative's resolution of the whole
    /// accumulated input.
    fn finalize(self, buffer: &[T]) -> (r: ParseResult<
        Option<Either<X::Output, Y::Output>>,
        Y::Error,
    >)
        ensures
            self.first_spec() matches Some(xbt) ==> exists|
                irb: ParseResult<Update<Backtrack<X>, X::Output>, X::Error>,
            |
                {
                    &&& call_ensures(<Backtrack<X> as ParserCore<T>>::feed, (xbt, buffer), irb)
                    &&& (irb matches Ok(iu) ==> iu.outcome matches Outcome::Parsed(xo) ==> (
                    r matches Ok(o) && (o matches Some(oo) && (oo matches Either::Left(xo2)
                        && xo2 == xo))))
                    &&& (irb matches Ok(iu) ==> iu.outcome matches Outcome::Next(bt2) ==> exists|
                        xp: Option<X::Output>,
                    |
                        {
                            &&& call_ensures(X::pending_at_end, (bt2.parser_spec(),), xp)
                            &&& (xp matches Some(xo) ==> (r matches Ok(o) && (o matches Some(oo)
                                && (oo matches Either::Left(xo2) && xo2 == xo))))
                            &&& (xp matches None ==> second_finalized::<T, X, Y>(
                                self.second_spec(),
                                buffer@,
                                r,
                            ))
                        })
                    &&& (irb matches Err(_) ==> second_settled::<T, X, Y>(
                        self.second_spec(),
                        buffer@,
                        r,
                    ))
                },
            self.first_spec() matches None ==> second_settled::<T, X, Y>(
                self.second_spec(),
                buffer@,
                r,
            ),
    {
        match self.feed(buffer) {
            Err(e) => Err(e),
            Ok(u) => match u.outcome {
                Outcome::Next(s2) => Ok(s2.pending_at_end()),
                Outcome::Parsed(x) => Ok(Some(x)),
            },
        }
    }
}

} // verus!
