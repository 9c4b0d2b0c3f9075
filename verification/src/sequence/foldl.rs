use vstd::prelude::*;

use core::marker::PhantomData;

use crate::error::{ParseError, ParseResult};
use crate::parser::{lemma_skip_skip, retains, Outcome, ParserBase, ParserCore, Update};
use crate::sequence::{drain_steps, lemma_drain_steps_snoc, SequenceParser};

verus! {

/// The left fold of `f` over `items`, admitted step by step: a chain of
/// accumulators starts at `a0`, each item is combined by a call `f` may
/// make, and the chain ends at `a2`.
pub open spec fn folds<F: Fn(A, X) -> A, A, X>(f: F, a0: A, items: Seq<X>, a2: A) -> bool {
    exists|accs: Seq<A>|
        {
            &&& accs.len() == items.len() + 1
            &&& accs[0] == a0
            &&& accs[items.len() as int] == a2
            &&& forall|i: int|
                0 <= i < items.len() ==> #[trigger] call_ensures(
                    f,
                    (accs[i], items[i]),
                    accs[i + 1],
                )
        }
}

/// A fold extends by one more combining step at its end.
pub proof fn lemma_folds_snoc<F: Fn(A, X) -> A, A, X>(
    f: F,
    a0: A,
    items: Seq<X>,
    a2: A,
    x: X,
    a3: A,
)
    requires
        folds(f, a0, items, a2),
        call_ensures(f, (a2, x), a3),
    ensures
        folds(f, a0, items.push(x), a3),
{
    let accs: Seq<A> = choose|accs: Seq<A>|
        {
            &&& accs.len() == items.len() + 1
            &&& accs[0] == a0
            &&& accs[items.len() as int] == a2
            &&& forall|i: int|
                0 <= i < items.len() ==> #[trigger] call_ensures(
                    f,
                    (accs[i], items[i]),
                    accs[i + 1],
                )
        };
    let accs2 = accs.push(a3);
    let items2 = items.push(x);
    assert(accs2.len() == items2.len() + 1);
    assert(accs2[0] == a0);
    assert(accs2[items2.len() as int] == a3);
    assert forall|i: int| 0 <= i < items2.len() implies #[trigger] call_ensures(
        f,
        (accs2[i], items2[i]),
        accs2[i + 1],
    ) by {
        if i < items.len() {
            assert(accs2[i] == accs[i] && accs2[i + 1] == accs[i + 1] && items2[i] == items[i]);
        } else {
            assert(accs2[i] == a2 && items2[i] == x && accs2[i + 1] == a3);
        }
    }
}

/// How a pending sequence resolves into a fold at the end of input, with
/// `base` already folded: the continuation's admitted pending value either
/// ends the sequence (yielding `base`), cannot resolve (`None`), or yields
/// one last item to fold in — after which the drain stops.
pub open spec fn fold_drained<T, S: SequenceParser<T>, F: Fn(A, <S as SequenceParser<T>>::Item) -> A, A>(
    f: F,
    base: A,
    p: S,
    r: ParseResult<Option<A>, S::Error>,
) -> bool {
    exists|pp: Option<Option<(S, <S as SequenceParser<T>>::Item)>>|
        {
            &&& call_ensures(S::pending_at_end, (p,), pp)
            &&& (pp matches None ==> r matches Ok(ro) && ro matches None)
            &&& (pp matches Some(po) ==> po matches None ==> (r matches Ok(ro) && (ro
                matches Some(a) && a == base)))
            &&& (pp matches Some(po) ==> po matches Some(pair) ==> exists|
                a2: A,
                pp2: Option<Option<(S, <S as SequenceParser<T>>::Item)>>,
            |
                {
                    &&& call_ensures(f, (base, pair.1), a2)
                    &&& call_ensures(S::pending_at_end, (pair.0,), pp2)
                    &&& (pp2 matches None ==> r matches Ok(ro) && ro matches None)
                    &&& (pp2 matches Some(_) ==> (r matches Ok(ro) && (ro matches Some(a) && a
                        == a2)))
                })
        }
}

/// A pending resolution of a fold is a drained resolution: what
/// [`Foldl::pending_at_end`] admits is what [`fold_drained`] describes, at
/// the state's own accumulator and continuation.
proof fn lemma_fold_drained_from_pending<T, S, F, A, X>(s2: Foldl<S, F, A, X>, o: Option<A>) where
    S: SequenceParser<T, Item = X>,
    F: Fn(A, X) -> A,

    requires
        call_ensures(<Foldl<S, F, A, X> as ParserBase>::pending_at_end, (s2,), o),
    ensures
        fold_drained::<T, S, F, A>(s2.f_spec(), s2.acc_spec(), s2.parser_spec(), Ok(o)),
{
    let pp = choose|pp: Option<Option<(S, X)>>|
        {
            &&& call_ensures(S::pending_at_end, (s2.parser_spec(),), pp)
            &&& (pp matches None ==> o matches None)
            &&& (pp matches Some(po) ==> po matches None ==> (o matches Some(a) && a
                == s2.acc_spec()))
            &&& (pp matches Some(po) ==> po matches Some(pair) ==> exists|
                a2: A,
                pp2: Option<Option<(S, X)>>,
            |
                {
                    &&& call_ensures(s2.f_spec(), (s2.acc_spec(), pair.1), a2)
                    &&& call_ensures(S::pending_at_end, (pair.0,), pp2)
                    &&& (pp2 matches None ==> o matches None)
                    &&& (pp2 matches Some(_) ==> (o matches Some(a) && a == a2))
                })
        };
    match pp {
        Some(Some(pair)) => {
            let (a2, pp2) = choose|a2: A, pp2: Option<Option<(S, X)>>|
                {
                    &&& call_ensures(s2.f_spec(), (s2.acc_spec(), pair.1), a2)
                    &&& call_ensures(S::pending_at_end, (pair.0,), pp2)
                    &&& (pp2 matches None ==> o matches None)
                    &&& (pp2 matches Some(_) ==> (o matches Some(a) && a == a2))
                };
            assert(fold_drained::<T, S, F, A>(
                s2.f_spec(),
                s2.acc_spec(),
                s2.parser_spec(),
                Ok(o),
            ));
        },
        _ => {
            assert(fold_drained::<T, S, F, A>(
                s2.f_spec(),
                s2.acc_spec(),
                s2.parser_spec(),
                Ok(o),
            ));
        },
    }
}

/// Fold the items a [`SequenceParser`] produces into an accumulator.
///
/// Works as [`crate::sequence::Collect`] does, but instead of keeping the
/// items it combines each one into the accumulator with `f` the moment it
/// is parsed.
#[verifier::reject_recursive_types(A)]
#[verifier::reject_recursive_types(X)]
pub struct Foldl<S, F, A, X> where F: Fn(A, X) -> A {
    parser: S,
    acc: A,
    f: F,
    phantom: PhantomData<X>,
}

impl<S, F, A, X> Foldl<S, F, A, X> where F: Fn(A, X) -> A {
    /// The combining function must accept every accumulator and item.
    #[verifier::type_invariant]
    spec fn f_total(self) -> bool {
        forall|a: A, x: X| call_requires(self.f, (a, x))
    }

    /// Fold the items of `parser` into `acc` with `f`.
    pub fn new(parser: S, acc: A, f: F) -> (r: Self)
        requires
            forall|a: A, x: X| call_requires(f, (a, x)),
        ensures
            r.parser_spec() == parser,
            r.acc_spec() == acc,
            r.f_spec() == f,
    {
        Foldl { parser, acc, f, phantom: PhantomData }
    }

    /// The sequence parser driven to exhaustion.
    pub closed spec fn parser_spec(self) -> S {
        self.parser
    }

    /// The accumulator built so far.
    pub closed spec fn acc_spec(self) -> A {
        self.acc
    }

    /// The combining function.
    pub closed spec fn f_spec(self) -> F {
        self.f
    }
}

impl<S, F, A, X> ParserBase for Foldl<S, F, A, X> where
    S: ParserBase<Output = Option<(S, X)>>,
    F: Fn(A, X) -> A,
 {
    type Output = A;

    type Error = S::Error;

    /// Fold in the sequence's one last pending item if there is one, then
    /// yield the accumulator: an empty repetition is always a valid outcome.
    ///
    /// A continuation that itself resolves to yet another item with no input
    /// in between would repeat the same item forever; the drain stops there
    /// and returns the accumulator.
    fn pending_at_end(self) -> (r: Option<A>)
        ensures
            exists|pp: Option<Option<(S, X)>>|
                {
                    &&& call_ensures(S::pending_at_end, (self.parser_spec(),), pp)
                    &&& (pp matches None ==> r matches None)
                    &&& (pp matches Some(po) ==> po matches None ==> (r matches Some(a) && a
                        == self.acc_spec()))
                    &&& (pp matches Some(po) ==> po matches Some(pair) ==> exists|
                        a2: A,
                        pp2: Option<Option<(S, X)>>,
                    |
                        {
                            &&& call_ensures(self.f_spec(), (self.acc_spec(), pair.1), a2)
                            &&& call_ensures(S::pending_at_end, (pair.0,), pp2)
                            &&& (pp2 matches None ==> r matches None)
                            &&& (pp2 matches Some(_) ==> (r matches Some(a) && a == a2))
                        })
                },
    {
        proof {
            use_type_invariant(&self);
        }
        let Foldl { parser, acc, f, phantom } = self;
        let pp = parser.pending_at_end();
        proof {
            assert(call_ensures(S::pending_at_end, (self.parser_spec(),), pp));
        }
        match pp {
            None => None,
            Some(None) => Some(acc),
            Some(Some((r2, item))) => {
                let acc2 = f(acc, item);
                proof {
                    assert(call_ensures(self.f_spec(), (self.acc_spec(), item), acc2));
                }
                let pp2 = r2.pending_at_end();
                proof {
                    assert(call_ensures(S::pending_at_end, (r2,), pp2));
                }
                match pp2 {
                    None => None,
                    Some(_) => Some(acc2),
                }
            },
        }
    }
}

impl<T, S, F, A, X> ParserCore<T> for Foldl<S, F, A, X> where
    S: SequenceParser<T, Item = X>,
    F: Fn(A, X) -> A,
 {
    open spec fn ok_input(&self, b: Seq<T>) -> bool {
        self.parser_spec().ok_input(b)
    }

    open spec fn ok_fresh(&self) -> bool {
        self.parser_spec().ok_fresh()
    }

    open spec fn ok_output(x: A, b: Seq<T>) -> bool {
        true
    }

    proof fn lemma_ok_fresh(&self, b: Seq<T>) {
        self.parser_spec().lemma_ok_fresh(b);
    }

    /// Drain items from the buffer, folding each into the accumulator and
    /// feeding the continuation the same buffer advanced past what was just
    /// consumed, until the sequence ends or asks for more input.  The
    /// result mirrors an admitted drain, its items folded left to right.
    fn feed(self, buffer: &[T]) -> (r: ParseResult<Update<Self, A>, S::Error>)
        ensures
            exists|
                items: Seq<X>,
                afold: A,
                p2: S,
                pos2: int,
                sl: &[T],
                ir: ParseResult<Update<S, S::Output>, S::Error>,
            |
                {
                    &&& drain_steps(self.parser_spec(), buffer@, 0, items, p2, pos2)
                    &&& folds(self.f_spec(), self.acc_spec(), items, afold)
                    &&& sl@ == buffer@.skip(pos2)
                    &&& call_ensures(S::feed, (p2, sl), ir)
                    &&& (ir matches Err(e) ==> r matches Err(e2) && e2 == e)
                    &&& (ir matches Ok(iu) ==> iu.outcome matches Outcome::Next(p3) ==> (
                    r matches Ok(u) && (u.consumed == pos2 + iu.consumed && (u.outcome
                        matches Outcome::Next(s2) && (s2.parser_spec() == p3 && (s2.acc_spec()
                        == afold && s2.f_spec() == self.f_spec()))))))
                    &&& (ir matches Ok(iu) ==> iu.outcome matches Outcome::Parsed(o) ==> o
                        matches None ==> (r matches Ok(u) && (u.consumed == pos2 + iu.consumed
                        && (u.outcome matches Outcome::Parsed(a) && a == afold))))
                    &&& (ir matches Ok(iu) ==> iu.outcome matches Outcome::Parsed(o) ==> o
                        matches Some(pair) ==> (iu.consumed == 0 && exists|a3: A|
                        {
                            &&& call_ensures(self.f_spec(), (afold, pair.1), a3)
                            &&& r matches Ok(u) && (u.consumed == pos2 && (u.outcome
                                matches Outcome::Next(s2) && (s2.parser_spec() == pair.0 && (
                            s2.acc_spec() == a3 && s2.f_spec() == self.f_spec()))))
                        }))
                },
    {
        proof {
            use_type_invariant(&self);
        }
        let Foldl { mut parser, mut acc, f, phantom } = self;
        let ghost mut items: Seq<X> = Seq::empty();
        let mut pos: usize = 0;
        let blen: usize = buffer.len();
        proof {
            assert(buffer@.skip(0) =~= buffer@);
            let accs0: Seq<A> = seq![self.acc_spec()];
            assert(accs0.len() == items.len() + 1);
            assert(accs0[0] == self.acc_spec());
            assert(accs0[items.len() as int] == acc);
            assert(folds(self.f_spec(), self.acc_spec(), items, acc));
        }
        loop
            invariant
                pos <= buffer@.len(),
                blen == buffer@.len(),
                parser.ok_input(buffer@.skip(pos as int)),
                drain_steps(self.parser_spec(), buffer@, 0, items, parser, pos as int),
                folds(self.f_spec(), self.acc_spec(), items, acc),
                f == self.f_spec(),
                forall|a: A, x: X| call_requires(f, (a, x)),
            decreases buffer@.len() - pos,
        {
            let sub: &[T] = buffer.split_at(pos).1;
            match parser.feed(sub) {
                Err(e) => {
                    return Err(e);
                },
                Ok(u) => {
                    let ghost iu = u;
                    let Update { consumed, outcome } = u;
                    match outcome {
                        Outcome::Next(s2) => {
                            proof {
                                assert forall|b2: Seq<T>|
                                    retains(buffer@, pos + consumed, b2) implies s2.ok_input(
                                    b2,
                                ) by {
                                    lemma_skip_skip(buffer@, pos as int, consumed as int);
                                    assert(retains(sub@, consumed as int, b2));
                                }
                            }
                            return Ok(
                                Update {
                                    consumed: pos + consumed,
                                    outcome: Outcome::Next(
                                        Foldl { parser: s2, acc, f, phantom },
                                    ),
                                },
                            );
                        },
                        Outcome::Parsed(None) => {
                            proof {
                                assert forall|b2: Seq<T>|
                                    retains(buffer@, pos + consumed, b2) implies <Foldl<
                                    S,
                                    F,
                                    A,
                                    X,
                                > as ParserCore<T>>::ok_output(acc, b2) by {}
                            }
                            return Ok(
                                Update { consumed: pos + consumed, outcome: Outcome::Parsed(acc) },
                            );
                        },
                        Outcome::Parsed(Some((s2, item))) => {
                            proof {
                                assert(iu.outcome matches Outcome::Parsed(o) && (o matches Some(
                                    pair,
                                ) && pair == (s2, item)));
                            }
                            let ghost acc_old = acc;
                            acc = f(acc, item);
                            if consumed == 0 {
                                proof {
                                    assert forall|b2: Seq<T>|
                                        retains(buffer@, pos as int, b2) implies s2.ok_input(
                                        b2,
                                    ) by {
                                        assert(retains(sub@, 0, b2));
                                        S::lemma_continuation(s2, item, b2);
                                    }
                                }
                                return Ok(
                                    Update {
                                        consumed: pos,
                                        outcome: Outcome::Next(
                                            Foldl { parser: s2, acc, f, phantom },
                                        ),
                                    },
                                );
                            }
                            proof {
                                lemma_skip_skip(buffer@, pos as int, consumed as int);
                                assert(retains(sub@, consumed as int, buffer@.skip(pos + consumed)));
                                S::lemma_continuation(s2, item, buffer@.skip(pos + consumed));
                                lemma_drain_steps_snoc(
                                    self.parser_spec(),
                                    buffer@,
                                    0,
                                    items,
                                    parser,
                                    pos as int,
                                    sub,
                                    iu,
                                    s2,
                                    item,
                                );
                                lemma_folds_snoc(
                                    self.f_spec(),
                                    self.acc_spec(),
                                    items,
                                    acc_old,
                                    item,
                                    acc,
                                );
                                items = items.push(item);
                            }
                            pos = pos + consumed;
                            parser = s2;
                        },
                    }
                },
            }
        }
    }

    /// Drain the remainder, then resolve: the terminal feed's error, the
    /// fold when the sequence ends, or — through the pending continuation —
    /// the fold with at most one last item combined in, `None` when that
    /// continuation cannot resolve.
    fn finalize(self, buffer: &[T]) -> (r: ParseResult<Option<A>, S::Error>)
        ensures
            exists|
                items: Seq<X>,
                afold: A,
                p2: S,
                pos2: int,
                sl: &[T],
                ir: ParseResult<Update<S, S::Output>, S::Error>,
            |
                {
                    &&& drain_steps(self.parser_spec(), buffer@, 0, items, p2, pos2)
                    &&& folds(self.f_spec(), self.acc_spec(), items, afold)
                    &&& sl@ == buffer@.skip(pos2)
                    &&& call_ensures(S::feed, (p2, sl), ir)
                    &&& (ir matches Err(e) ==> r matches Err(e2) && e2 == e)
                    &&& (ir matches Ok(iu) ==> iu.outcome matches Outcome::Parsed(o) ==> o
                        matches None ==> (r matches Ok(ro) && (ro matches Some(a) && a
                        == afold)))
                    &&& (ir matches Ok(iu) ==> iu.outcome matches Outcome::Parsed(o) ==> o
                        matches Some(pair) ==> exists|a3: A|
                        {
                            &&& call_ensures(self.f_spec(), (afold, pair.1), a3)
                            &&& fold_drained::<T, S, F, A>(self.f_spec(), a3, pair.0, r)
                        })
                    &&& (ir matches Ok(iu) ==> iu.outcome matches Outcome::Next(p3)
                        ==> fold_drained::<T, S, F, A>(self.f_spec(), afold, p3, r))
                },
    {
        let ghost me = self;
        let fr = self.feed(buffer);
        let ghost (items, afold, p2, pos2, sl, ir) = choose|
            items: Seq<X>,
            afold: A,
            p2: S,
            pos2: int,
            sl: &[T],
            ir: ParseResult<Update<S, S::Output>, S::Error>,
        |
            {
                &&& drain_steps(me.parser_spec(), buffer@, 0, items, p2, pos2)
                &&& folds(me.f_spec(), me.acc_spec(), items, afold)
                &&& sl@ == buffer@.skip(pos2)
                &&& call_ensures(S::feed, (p2, sl), ir)
                &&& (ir matches Err(e) ==> fr matches Err(e2) && e2 == e)
                &&& (ir matches Ok(iu) ==> iu.outcome matches Outcome::Next(p3) ==> (
                fr matches Ok(u) && (u.consumed == pos2 + iu.consumed && (u.outcome
                    matches Outcome::Next(s2) && (s2.parser_spec() == p3 && (s2.acc_spec()
                    == afold && s2.f_spec() == me.f_spec()))))))
                &&& (ir matches Ok(iu) ==> iu.outcome matches Outcome::Parsed(o) ==> o
                    matches None ==> (fr matches Ok(u) && (u.consumed == pos2 + iu.consumed && (
                u.outcome matches Outcome::Parsed(a) && a == afold))))
                &&& (ir matches Ok(iu) ==> iu.outcome matches Outcome::Parsed(o) ==> o
                    matches Some(pair) ==> (iu.consumed == 0 && exists|a3: A|
                    {
                        &&& call_ensures(me.f_spec(), (afold, pair.1), a3)
                        &&& fr matches Ok(u) && (u.consumed == pos2 && (u.outcome
                            matches Outcome::Next(s2) && (s2.parser_spec() == pair.0 && (
                        s2.acc_spec() == a3 && s2.f_spec() == me.f_spec()))))
                    }))
            };
        match fr {
            Err(e) => Err(e),
            Ok(u) => match u.outcome {
                Outcome::Next(s2) => {
                    let ghost gs2 = s2;
                    let o = s2.pending_at_end();
                    proof {
                        lemma_fold_drained_from_pending::<T, S, F, A, X>(gs2, o);
                    }
                    Ok(o)
                },
                Outcome::Parsed(x) => Ok(Some(x)),
            },
        }
    }
}

} // verus!
