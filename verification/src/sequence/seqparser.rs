use vstd::prelude::*;

use crate::error::{ParseError, ParseResult};
use crate::parser::{Outcome, ParserBase, ParserCore, Update};
use crate::sequence::{Collect, Foldl};

verus! {

/// An admitted drain of a sequence parser: starting as `p` at position
/// `pos` of the buffer, successive admitted feeds of the remaining input
/// each parse one item together with a continuation, yielding `items` in
/// order and ending as `p2` at position `pos2`.  Every step consumes input,
/// so a drain never spins in place.
pub open spec fn drain_steps<T, P: SequenceParser<T>>(
    p: P,
    b: Seq<T>,
    pos: int,
    items: Seq<P::Item>,
    p2: P,
    pos2: int,
) -> bool
    decreases items.len(),
{
    if items.len() == 0 {
        p2 == p && pos2 == pos
    } else {
        exists|sl: &[T], u: Update<P, P::Output>|
            {
                &&& sl@ == b.skip(pos)
                &&& call_ensures(P::feed, (p, sl), Ok::<_, ParseError<P::Error>>(u))
                &&& u.outcome matches Outcome::Parsed(o) && (o matches Some(pair) && (pair.1
                    == items[0] && (u.consumed > 0 && drain_steps(
                    pair.0,
                    b,
                    pos + u.consumed,
                    items.drop_first(),
                    p2,
                    pos2,
                ))))
            }
    }
}

/// A drain extends by one more consuming step at its end.
pub proof fn lemma_drain_steps_snoc<T, P: SequenceParser<T>>(
    p: P,
    b: Seq<T>,
    pos: int,
    items: Seq<P::Item>,
    p2: P,
    pos2: int,
    sl: &[T],
    u: Update<P, P::Output>,
    pn: P,
    x: P::Item,
)
    requires
        drain_steps(p, b, pos, items, p2, pos2),
        sl@ == b.skip(pos2),
        call_ensures(P::feed, (p2, sl), Ok::<_, ParseError<P::Error>>(u)),
        u.outcome matches Outcome::Parsed(o) && (o matches Some(pair) && pair == (pn, x)),
        u.consumed > 0,
    ensures
        drain_steps(p, b, pos, items.push(x), pn, pos2 + u.consumed),
    decreases items.len(),
{
    if items.len() == 0 {
        assert(items.push(x)[0] == x);
        assert(items.push(x).drop_first() =~= Seq::<P::Item>::empty());
        assert(drain_steps(pn, b, pos2 + u.consumed, items.push(x).drop_first(), pn, pos2
            + u.consumed));
    } else {
        let (sl0, u0): (&[T], Update<P, P::Output>) = choose|sl0: &[T], u0: Update<P, P::Output>|
            {
                &&& sl0@ == b.skip(pos)
                &&& call_ensures(P::feed, (p, sl0), Ok::<_, ParseError<P::Error>>(u0))
                &&& u0.outcome matches Outcome::Parsed(o) && (o matches Some(pair) && (pair.1
                    == items[0] && (u0.consumed > 0 && drain_steps(
                    pair.0,
                    b,
                    pos + u0.consumed,
                    items.drop_first(),
                    p2,
                    pos2,
                ))))
            };
        let pn0 = u0.outcome->Parsed_0->Some_0.0;
        lemma_drain_steps_snoc(pn0, b, pos + u0.consumed, items.drop_first(), p2, pos2, sl, u, pn, x);
        assert(items.push(x).drop_first() =~= items.drop_first().push(x));
        assert(items.push(x)[0] == items[0]);
        assert(drain_steps(pn0, b, pos + u0.consumed, items.push(x).drop_first(), pn, pos2
            + u.consumed));
    }
}

/// A parser for a sequence of items: each successful parse yields either
/// `None` — the end of the sequence — or one item together with a
/// continuation parser that looks for the next one.
///
/// [`crate::combinator::Repeated`] is the canonical way to build one.
pub trait SequenceParser<T>: ParserCore<T> + ParserBase<Output = Option<
    (Self, <Self as SequenceParser<T>>::Item),
>> {
    /// The items of the sequence.
    type Item;

    /// A continuation handed out with an item is ready for every buffer the
    /// retention discipline allows after that item.
    proof fn lemma_continuation(r2: Self, item: Self::Item, b: Seq<T>)
        requires
            Self::ok_output(Some((r2, item)), b),
        ensures
            r2.ok_input(b),
    ;

    /// Collect every item of the sequence into a vector.
    fn collect(self) -> (r: Collect<Self, Self::Item>)
        ensures
            r.repeated_spec() == self,
            r.collection_spec() == Seq::<Self::Item>::empty(),
    {
        Collect::new(self)
    }

    /// Fold every item of the sequence into an accumulator with `f`.
    fn foldl<F, A>(self, acc: A, f: F) -> (r: Foldl<Self, F, A, Self::Item>) where
        F: Fn(A, Self::Item) -> A,

        requires
            forall|a: A, x: Self::Item| call_requires(f, (a, x)),
        ensures
            r.parser_spec() == self,
            r.acc_spec() == acc,
            r.f_spec() == f,
    {
        Foldl::new(self, acc, f)
    }
}

} // verus!
