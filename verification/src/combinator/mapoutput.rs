use vstd::prelude::*;

use core::marker::PhantomData;

use crate::error::ParseResult;
use crate::parser::{retains, Outcome, ParserBase, ParserCore, Update};

verus! {

/// Convert the output of parser `P` with the function `F` once it parses.
#[verifier::reject_recursive_types(O)]
pub struct MapOutput<P, F, O> where P: ParserBase, F: FnOnce(P::Output) -> O {
    parser: P,
    map: F,
    phantom: PhantomData<O>,
}

impl<P, F, O> MapOutput<P, F, O> where P: ParserBase, F: FnOnce(P::Output) -> O {
    /// The conversion must accept whatever the parser may produce.
    #[verifier::type_invariant]
    spec fn map_total(self) -> bool {
        forall|x: P::Output| call_requires(self.map, (x,))
    }

    /// Construct a parser that parses as `parser` does and converts the
    /// output with `map`.
    pub fn new(parser: P, map: F) -> (r: Self)
        requires
            forall|x: P::Output| call_requires(map, (x,)),
        ensures
            r.parser_spec() == parser,
            r.map_spec() == map,
    {
        MapOutput { parser, map, phantom: PhantomData }
    }

    /// The wrapped parser state.
    pub closed spec fn parser_spec(self) -> P {
        self.parser
    }

    /// The conversion applied to the output.
    pub closed spec fn map_spec(self) -> F {
        self.map
    }
}

impl<P, F, O> Clone for MapOutput<P, F, O> where
    P: Copy + ParserBase,
    F: Copy + FnOnce(P::Output) -> O,
 {
    fn clone(&self) -> (r: Self)
        ensures
            r == *self,
    {
        proof {
            use_type_invariant(self);
        }
        MapOutput { parser: self.parser, map: self.map, phantom: PhantomData }
    }
}

impl<P, F, O> Copy for MapOutput<P, F, O> where
    P: Copy + ParserBase,
    F: Copy + FnOnce(P::Output) -> O,
 {

}

impl<P, F, O> ParserBase for MapOutput<P, F, O> where P: ParserBase, F: FnOnce(P::Output) -> O {
    type Output = O;

    type Error = P::Error;

    /// Resolve through the wrapped parser and convert its pending value.
    fn pending_at_end(self) -> (r: Option<O>)
        ensures
            r matches Some(o) ==> exists|x: P::Output|
                call_ensures(P::pending_at_end, (self.parser_spec(),), Some(x))
                    && call_ensures(self.map_spec(), (x,), o),
            r matches None ==> call_ensures(
                P::pending_at_end,
                (self.parser_spec(),),
                None::<P::Output>,
            ),
    {
        proof {
            use_type_invariant(&self);
        }
        let MapOutput { parser, map, phantom } = self;
        match parser.pending_at_end() {
            Some(x) => Some(map(x)),
            None => None,
        }
    }
}

impl<T, P, F, O> ParserCore<T> for MapOutput<P, F, O> where
    P: ParserCore<T>,
    F: FnOnce(P::Output) -> O,
 {
    open spec fn ok_input(&self, b: Seq<T>) -> bool {
        self.parser_spec().ok_input(b)
    }

    open spec fn ok_fresh(&self) -> bool {
        self.parser_spec().ok_fresh()
    }

    open spec fn ok_output(x: O, b: Seq<T>) -> bool {
        true
    }

    proof fn lemma_ok_fresh(&self, b: Seq<T>) {
        self.parser_spec().lemma_ok_fresh(b);
    }

    /// Feed the wrapped parser; a parsed output is converted, with the
    /// consumed count unchanged.
    fn feed(self, buffer: &[T]) -> (r: ParseResult<Update<Self, O>, P::Error>)
        ensures
            exists|ir: ParseResult<Update<P, P::Output>, P::Error>|
                {
                    &&& call_ensures(P::feed, (self.parser_spec(), buffer), ir)
                    &&& (ir matches Err(e) ==> r matches Err(e2) && e2 == e)
                    &&& (ir matches Ok(iu) ==> iu.outcome matches Outcome::Next(p2) ==> (
                    r matches Ok(u) && (u.consumed == iu.consumed && (u.outcome
                        matches Outcome::Next(s2) && (s2.parser_spec() == p2 && s2.map_spec()
                        == self.map_spec())))))
                    &&& (ir matches Ok(iu) ==> iu.outcome matches Outcome::Parsed(x) ==> (
                    r matches Ok(u) && (u.consumed == iu.consumed && (u.outcome
                        matches Outcome::Parsed(o) && call_ensures(self.map_spec(), (x,), o)))))
                },
    {
        proof {
            use_type_invariant(&self);
        }
        let MapOutput { parser, map, phantom } = self;
        match parser.feed(buffer) {
            Err(e) => Err(e),
            Ok(u) => {
                let Update { consumed, outcome } = u;
                match outcome {
                    Outcome::Next(p2) => Ok(
                        Update {
                            consumed,
                            outcome: Outcome::Next(MapOutput { parser: p2, map, phantom }),
                        },
                    ),
                    Outcome::Parsed(x) => {
                        let o = map(x);
                        proof {
                            assert(call_ensures(self.map_spec(), (x,), o));
                            assert forall|b2: Seq<T>|
                                retains(buffer@, consumed as int, b2) implies <MapOutput<
                                P,
                                F,
                                O,
                            > as ParserCore<T>>::ok_output(o, b2) by {}
                        }
                        Ok(Update { consumed, outcome: Outcome::Parsed(o) })
                    },
                }
            },
        }
}

    /// Drain the remainder, then resolve what the wrapped parser still has
    /// pending, converted.
    fn finalize(self, buffer: &[T]) -> (r: ParseResult<Option<O>, P::Error>)
        ensures
            exists|ir: ParseResult<Update<P, P::Output>, P::Error>|
                {
                    &&& call_ensures(P::feed, (self.parser_spec(), buffer), ir)
                    &&& (ir matches Err(e) ==> r matches Err(e2) && e2 == e)
                    &&& (ir matches Ok(iu) ==> iu.outcome matches Outcome::Parsed(x) ==> (
                    r matches Ok(o) && (o matches Some(oo) && call_ensures(
                        self.map_spec(),
                        (x,),
                        oo,
                    ))))
                    &&& (ir matches Ok(iu) ==> iu.outcome matches Outcome::Next(p2) ==> exists|
                        pp: Option<P::Output>,
                    |
                        {
                            &&& call_ensures(P::pending_at_end, (p2,), pp)
                            &&& (pp matches None ==> r matches Ok(o) && o matches None)
                            &&& (pp matches Some(x) ==> (r matches Ok(o) && (o matches Some(oo)
                                && call_ensures(self.map_spec(), (x,), oo))))
                        })
                },
    {
        match self.feed(buffer) {
            Err(e) => Err(e),
            Ok(u) => match u.outcome {
                Outcome::Next(s2) => Ok(s2.pending_at_end()),
                Outcome::Parsed(x) => Ok(Some(x)),
            },
        }
    }
}

} // verus!
