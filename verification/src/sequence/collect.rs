use vstd::prelude::*;

use crate::error::{ParseError, ParseResult};
use crate::parser::{lemma_skip_skip, retains, Outcome, ParserBase, ParserCore, Update};
use crate::sequence::{drain_steps, lemma_drain_steps_snoc, SequenceParser};

verus! {

/// Collect the items a [`SequenceParser`] produces into a vector.
///
/// One feed call drains as many items as the available input yields — not
/// just one — appending each to the collection and offering the rest of the
/// buffer to the continuation, until the sequence either ends (yielding the
/// collection) or needs more input.
pub struct Collect<P, X> {
    repeated: P,
    collection: Vec<X>,
}

impl<P, X> Collect<P, X> {
    /// Collect the items of `repeated` into an initially empty vector.
    pub fn new(repeated: P) -> (r: Self)
        ensures
            r.repeated_spec() == repeated,
            r.collection_spec() == Seq::<X>::empty(),
    {
        Collect { repeated, collection: Vec::new() }
    }

    /// The sequence parser driven to exhaustion.
    pub closed spec fn repeated_spec(self) -> P {
        self.repeated
    }

    /// The items collected so far.
    pub closed spec fn collection_spec(self) -> Seq<X> {
        self.collection@
    }
}

impl<P, X> ParserBase for Collect<P, X> where P: ParserBase<Output = Option<(P, X)>> {
    type Output = Vec<X>;

    type Error = P::Error;

    /// Take the sequence's one last pending item if there is one, then end
    /// the sequence: an empty repetition is always a valid outcome.
    ///
    /// A continuation that itself resolves to yet another item with no input
    /// in between would repeat the same item forever; the drain stops there
    /// and returns what has been collected.
    fn pending_at_end(self) -> (r: Option<Vec<X>>)
        ensures
            exists|pp: Option<Option<(P, X)>>|
                {
                    &&& call_ensures(P::pending_at_end, (self.repeated_spec(),), pp)
                    &&& (pp matches None ==> r matches None)
                    &&& (pp matches Some(po) ==> po matches None ==> (r matches Some(c) && c@
                        == self.collection_spec()))
                    &&& (pp matches Some(po) ==> po matches Some(pair) ==> exists|
                        pp2: Option<Option<(P, X)>>,
                    |
                        {
                            &&& call_ensures(P::pending_at_end, (pair.0,), pp2)
                            &&& (pp2 matches None ==> r matches None)
                            &&& (pp2 matches Some(_) ==> (r matches Some(c) && c@
                                == self.collection_spec().push(pair.1)))
                        })
                },
    {
        let Collect { repeated, mut collection } = self;
        let pp = repeated.pending_at_end();
        proof {
            assert(call_ensures(P::pending_at_end, (self.repeated_spec(),), pp));
        }
        match pp {
            None => None,
            Some(None) => Some(collection),
            Some(Some((r2, item))) => {
                collection.push(item);
                proof {
                    assert(collection@ =~= self.collection_spec().push(item));
                }
                let pp2 = r2.pending_at_end();
                proof {
                    assert(call_ensures(P::pending_at_end, (r2,), pp2));
                }
                match pp2 {
                    None => None,
                    Some(_) => Some(collection),
                }
            },
        }
    }
}

impl<T, P, X> ParserCore<T> for Collect<P, X> where P: SequenceParser<T, Item = X> {
    open spec fn ok_input(&self, b: Seq<T>) -> bool {
        self.repeated_spec().ok_input(b)
    }

    open spec fn ok_fresh(&self) -> bool {
        self.repeated_spec().ok_fresh()
    }

    open spec fn ok_output(x: Vec<X>, b: Seq<T>) -> bool {
        true
    }

    proof fn lemma_ok_fresh(&self, b: Seq<T>) {
        self.repeated_spec().lemma_ok_fresh(b);
    }

    /// Drain items from the buffer.  Each item is appended to the
    /// collection, and the continuation is fed the same buffer advanced past
    /// what was just consumed, until the sequence ends or asks for more
    /// input.  The result mirrors an admitted drain of the sequence parser:
    /// the drained items in order after the old collection, their positions
    /// consumed, ending as the terminal feed says — end of sequence,
    /// pending continuation, or that feed's own error.
    fn feed(self, buffer: &[T]) -> (r: ParseResult<Update<Self, Vec<X>>, P::Error>)
        ensures
            exists|
                items: Seq<X>,
                p2: P,
                pos2: int,
                sl: &[T],
                ir: ParseResult<Update<P, P::Output>, P::Error>,
            |
                {
                    &&& drain_steps(self.repeated_spec(), buffer@, 0, items, p2, pos2)
                    &&& sl@ == buffer@.skip(pos2)
                    &&& call_ensures(P::feed, (p2, sl), ir)
                    &&& (ir matches Err(e) ==> r matches Err(e2) && e2 == e)
                    &&& (ir matches Ok(iu) ==> iu.outcome matches Outcome::Next(p3) ==> (
                    r matches Ok(u) && (u.consumed == pos2 + iu.consumed && (u.outcome
                        matches Outcome::Next(s2) && (s2.repeated_spec() == p3
                        && s2.collection_spec() == self.collection_spec() + items)))))
                    &&& (ir matches Ok(iu) ==> iu.outcome matches Outcome::Parsed(o) ==> o
                        matches None ==> (r matches Ok(u) && (u.consumed == pos2 + iu.consumed
                        && (u.outcome matches Outcome::Parsed(c) && c@
                        == self.collection_spec() + items))))
                    &&& (ir matches Ok(iu) ==> iu.outcome matches Outcome::Parsed(o) ==> o
                        matches Some(pair) ==> (iu.consumed == 0 && (r matches Ok(u) && (
                    u.consumed == pos2 && (u.outcome matches Outcome::Next(s2) && (
                    s2.repeated_spec() == pair.0 && s2.collection_spec()
                        == self.collection_spec() + items + seq![pair.1]))))))
                },
    {
        let Collect { mut repeated, mut collection } = self;
        let ghost mut items: Seq<X> = Seq::empty();
        let mut pos: usize = 0;
        let blen: usize = buffer.len();
        proof {
            assert(buffer@.skip(0) =~= buffer@);
            assert(collection@ =~= self.collection_spec() + items);
        }
        loop
            invariant
                pos <= buffer@.len(),
                blen == buffer@.len(),
                repeated.ok_input(buffer@.skip(pos as int)),
                drain_steps(self.repeated_spec(), buffer@, 0, items, repeated, pos as int),
                collection@ == self.collection_spec() + items,
            decreases buffer@.len() - pos,
        {
            let sub: &[T] = buffer.split_at(pos).1;
            match repeated.feed(sub) {
                Err(e) => {
                    return Err(e);
                },
                Ok(u) => {
                    let ghost iu = u;
                    let Update { consumed, outcome } = u;
                    match outcome {
                        Outcome::Next(r2) => {
                            proof {
                                assert forall|b2: Seq<T>|
                                    retains(buffer@, pos + consumed, b2) implies r2.ok_input(
                                    b2,
                                ) by {
                                    lemma_skip_skip(buffer@, pos as int, consumed as int);
                                    assert(retains(sub@, consumed as int, b2));
                                }
                            }
                            return Ok(
                                Update {
                                    consumed: pos + consumed,
                                    outcome: Outcome::Next(Collect { repeated: r2, collection }),
                                },
                            );
                        },
                        Outcome::Parsed(None) => {
                            proof {
                                assert forall|b2: Seq<T>|
                                    retains(buffer@, pos + consumed, b2) implies <Collect<
                                    P,
                                    X,
                                > as ParserCore<T>>::ok_output(collection, b2) by {}
                            }
                            return Ok(
                                Update {
                                    consumed: pos + consumed,
                                    outcome: Outcome::Parsed(collection),
                                },
                            );
                        },
                        Outcome::Parsed(Some((r2, item))) => {
                            proof {
                                assert(iu.outcome matches Outcome::Parsed(o) && (o matches Some(
                                    pair,
                                ) && pair == (r2, item)));
                            }
                            collection.push(item);
                            if consumed == 0 {
                                proof {
                                    assert forall|b2: Seq<T>|
                                        retains(buffer@, pos as int, b2) implies r2.ok_input(
                                        b2,
                                    ) by {
                                        assert(retains(sub@, 0, b2));
                                        P::lemma_continuation(r2, item, b2);
                                    }
                                    assert(collection@ =~= self.collection_spec() + items + seq![
                                        item,
                                    ]);
                                }
                                return Ok(
                                    Update {
                                        consumed: pos,
                                        outcome: Outcome::Next(
                                            Collect { repeated: r2, collection },
                                        ),
                                    },
                                );
                            }
                            proof {
                                lemma_skip_skip(buffer@, pos as int, consumed as int);
                                assert(retains(sub@, consumed as int, buffer@.skip(pos + consumed)));
                                P::lemma_continuation(r2, item, buffer@.skip(pos + consumed));
                                lemma_drain_steps_snoc(
                                    self.repeated_spec(),
                                    buffer@,
                                    0,
                                    items,
                                    repeated,
                                    pos as int,
                                    sub,
                                    iu,
                                    r2,
                                    item,
                                );
                                items = items.push(item);
                                assert(collection@ =~= self.collection_spec() + items);
                            }
                            pos = pos + consumed;
                            repeated = r2;
                        },
                    }
                },
            }
        }
    }

    /// Drain the remainder, then resolve: the terminal feed's error, the
    /// collection when the sequence ends, or — through the pending
    /// continuation — the collection with at most one last item, `None`
    /// when that continuation cannot resolve.
    fn finalize(self, buffer: &[T]) -> (r: ParseResult<Option<Vec<X>>, P::Error>)
        ensures
            exists|
                items: Seq<X>,
                p2: P,
                pos2: int,
                sl: &[T],
                ir: ParseResult<Update<P, P::Output>, P::Error>,
            |
                {
                    &&& drain_steps(self.repeated_spec(), buffer@, 0, items, p2, pos2)
                    &&& sl@ == buffer@.skip(pos2)
                    &&& call_ensures(P::feed, (p2, sl), ir)
                    &&& (ir matches Err(e) ==> r matches Err(e2) && e2 == e)
                    &&& (ir matches Ok(iu) ==> iu.outcome matches Outcome::Parsed(o) ==> o
                        matches None ==> (r matches Ok(ro) && (ro matches Some(c) && c@
                        == self.collection_spec() + items)))
                    &&& (ir matches Ok(iu) ==> iu.outcome matches Outcome::Parsed(o) ==> o
                        matches Some(pair) ==> collect_drained(
                        self.collection_spec() + items + seq![pair.1],
                        pair.0,
                        r,
                    ))
                    &&& (ir matches Ok(iu) ==> iu.outcome matches Outcome::Next(p3)
                        ==> collect_drained(self.collection_spec() + items, p3, r))
                },
    {
        let ghost me = self;
        let fr = self.feed(buffer);
        let ghost (items, p2, pos2, sl, ir) = choose|
            items: Seq<X>,
            p2: P,
            pos2: int,
            sl: &[T],
            ir: ParseResult<Update<P, P::Output>, P::Error>,
        |
            {
                &&& drain_steps(me.repeated_spec(), buffer@, 0, items, p2, pos2)
                &&& sl@ == buffer@.skip(pos2)
                &&& call_ensures(P::feed, (p2, sl), ir)
                &&& (ir matches Err(e) ==> fr matches Err(e2) && e2 == e)
                &&& (ir matches Ok(iu) ==> iu.outcome matches Outcome::Next(p3) ==> (
                fr matches Ok(u) && (u.consumed == pos2 + iu.consumed && (u.outcome
                    matches Outcome::Next(s2) && (s2.repeated_spec() == p3
                    && s2.collection_spec() == me.collection_spec() + items)))))
                &&& (ir matches Ok(iu) ==> iu.outcome matches Outcome::Parsed(o) ==> o
                    matches None ==> (fr matches Ok(u) && (u.consumed == pos2 + iu.consumed && (
                u.outcome matches Outcome::Parsed(c) && c@ == me.collection_spec() + items))))
                &&& (ir matches Ok(iu) ==> iu.outcome matches Outcome::Parsed(o) ==> o
                    matches Some(pair) ==> (iu.consumed == 0 && (fr matches Ok(u) && (u.consumed
                    == pos2 && (u.outcome matches Outcome::Next(s2) && (s2.repeated_spec()
                    == pair.0 && s2.collection_spec() == me.collection_spec() + items + seq![
                    pair.1,
                ]))))))
            };
        match fr {
            Err(e) => Err(e),
            Ok(u) => match u.outcome {
                Outcome::Next(s2) => {
                    let ghost gs2 = s2;
                    let o = s2.pending_at_end();
                    proof {
                        lemma_collect_drained_from_pending::<T, P, X>(gs2, o);
                    }
                    Ok(o)
                },
                Outcome::Parsed(x) => Ok(Some(x)),
            },
        }
    }
}

/// How a pending sequence resolves at the end of input, with `base` already
/// collected: the continuation's admitted pending value either ends the
/// sequence (yielding `base`), cannot resolve (`None`), or yields one last
/// item — after which the drain stops.
pub open spec fn collect_drained<T, P: SequenceParser<T>>(
    base: Seq<P::Item>,
    p: P,
    r: ParseResult<Option<Vec<P::Item>>, P::Error>,
) -> bool {
    exists|pp: Option<Option<(P, P::Item)>>|
        {
            &&& call_ensures(P::pending_at_end, (p,), pp)
            &&& (pp matches None ==> r matches Ok(ro) && ro matches None)
            &&& (pp matches Some(po) ==> po matches None ==> (r matches Ok(ro) && (ro
                matches Some(c) && c@ == base)))
            &&& (pp matches Some(po) ==> po matches Some(pair) ==> exists|
                pp2: Option<Option<(P, P::Item)>>,
            |
                {
                    &&& call_ensures(P::pending_at_end, (pair.0,), pp2)
                    &&& (pp2 matches None ==> r matches Ok(ro) && ro matches None)
                    &&& (pp2 matches Some(_) ==> (r matches Ok(ro) && (ro matches Some(c) && c@
                        == base.push(pair.1))))
                })
        }
}

/// A pending resolution of a collection is a drained resolution: what
/// [`Collect::pending_at_end`] admits is what [`collect_drained`]
/// describes, at the state's own collection and continuation.
proof fn lemma_collect_drained_from_pending<T, P, X>(s2: Collect<P, X>, o: Option<Vec<X>>) where
    P: SequenceParser<T, Item = X>,

    requires
        call_ensures(<Collect<P, X> as ParserBase>::pending_at_end, (s2,), o),
    ensures
        collect_drained::<T, P>(s2.collection_spec(), s2.repeated_spec(), Ok(o)),
{
    let pp = choose|pp: Option<Option<(P, X)>>|
        {
            &&& call_ensures(P::pending_at_end, (s2.repeated_spec(),), pp)
            &&& (pp matches None ==> o matches None)
            &&& (pp matches Some(po) ==> po matches None ==> (o matches Some(c) && c@
                == s2.collection_spec()))
            &&& (pp matches Some(po) ==> po matches Some(pair) ==> exists|
                pp2: Option<Option<(P, X)>>,
            |
                {
                    &&& call_ensures(P::pending_at_end, (pair.0,), pp2)
                    &&& (pp2 matches None ==> o matches None)
                    &&& (pp2 matches Some(_) ==> (o matches Some(c) && c@
                        == s2.collection_spec().push(pair.1)))
                })
        };
    match pp {
        Some(Some(pair)) => {
            let pp2 = choose|pp2: Option<Option<(P, X)>>|
                {
                    &&& call_ensures(P::pending_at_end, (pair.0,), pp2)
                    &&& (pp2 matches None ==> o matches None)
                    &&& (pp2 matches Some(_) ==> (o matches Some(c) && c@
                        == s2.collection_spec().push(pair.1)))
                };
            assert(s2.collection_spec().push(pair.1) =~= s2.collection_spec() + seq![pair.1]);
            assert(collect_drained::<T, P>(s2.collection_spec(), s2.repeated_spec(), Ok(o)));
        },
        _ => {
            assert(collect_drained::<T, P>(s2.collection_spec(), s2.repeated_spec(), Ok(o)));
        },
    }
}

} // verus!
