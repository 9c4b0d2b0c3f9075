use vstd::prelude::*;

use core::convert::Infallible;

use crate::combinator::Backtrack;
use crate::error::{ParseError, ParseResult};
use crate::parser::{retains, Outcome, ParserBase, ParserCore, Update};

verus! {

/// Attempt to parse `P`; if it can never succeed, succeed with `None`
/// instead, consuming nothing.
///
/// The wrapped parser sits behind a [`Backtrack`], so nothing counts as
/// consumed until it completes: when the inner parser fails after several
/// chunks, the caller observes `Parsed(None)` with zero consumption, exactly
/// as if nothing had ever been offered.
pub struct Optional<P>(Backtrack<P>);

impl<P> Optional<P> {
    /// Wrap a parser into an optional attempt at it.
    pub fn new(parser: P) -> (r: Self)
        ensures
            r.parser_spec() == parser,
            r.cursor_spec() == 0,
    {
        Optional(Backtrack::new(parser))
    }

    /// The backtracking attempt at the wrapped parser.
    pub closed spec fn attempt_spec(self) -> Backtrack<P> {
        self.0
    }

    /// The wrapped parser state.
    pub open spec fn parser_spec(self) -> P {
        self.attempt_spec().parser_spec()
    }

    /// How far into the retained input the wrapped parser has advanced.
    pub open spec fn cursor_spec(self) -> int {
        self.attempt_spec().offset_spec()
    }
}

impl<P> ParserBase for Optional<P> where P: ParserBase {
    type Output = Option<P::Output>;

    type Error = Infallible;

    /// At the end of input an optional parser always resolves: with the
    /// inner parser's pending value if it has one, and with `None` — zero
    /// occurrences — otherwise.
    fn pending_at_end(self) -> (r: Option<Option<P::Output>>)
        ensures
            r matches Some(o) && call_ensures(P::pending_at_end, (self.parser_spec(),), o),
    {
        Some(self.0.pending_at_end())
    }
}

impl<T, P> ParserCore<T> for Optional<P> where P: ParserCore<T> {
    open spec fn ok_input(&self, b: Seq<T>) -> bool {
        &&& self.cursor_spec() <= b.len()
        &&& self.parser_spec().ok_input(b.skip(self.cursor_spec()))
    }

    open spec fn ok_fresh(&self) -> bool {
        &&& self.cursor_spec() == 0
        &&& self.parser_spec().ok_fresh()
    }

    open spec fn ok_output(x: Option<P::Output>, b: Seq<T>) -> bool {
        match x {
            Some(y) => P::ok_output(y, b),
            None => true,
        }
    }

    proof fn lemma_ok_fresh(&self, b: Seq<T>) {
        self.0.lemma_ok_fresh(b);
    }

    /// An optional parser never errors: an inner error becomes a successful
    /// `Parsed(None)` with zero consumption, and nothing is consumed while
    /// the attempt is still pending either.
    fn feed(self, buffer: &[T]) -> (r: ParseResult<Update<Self, Option<P::Output>>, Infallible>)
        ensures
            r matches Ok(_),
            r matches Ok(u) ==> u.outcome matches Outcome::Next(_) ==> u.consumed == 0,
            r matches Ok(u) ==> u.outcome matches Outcome::Parsed(x) ==> (x matches None
                ==> u.consumed == 0),
            r matches Ok(u) ==> u.outcome matches Outcome::Parsed(x) ==> x matches None
                ==> exists|e: ParseError<P::Error>|
                call_ensures(
                    <Backtrack<P> as ParserCore<T>>::feed,
                    (self.attempt_spec(), buffer),
                    Err(e),
                ),
            r matches Ok(u) ==> u.outcome matches Outcome::Next(s2) ==> exists|
                iu: Update<Backtrack<P>, P::Output>,
            |
                {
                    &&& call_ensures(
                        <Backtrack<P> as ParserCore<T>>::feed,
                        (self.attempt_spec(), buffer),
                        Ok::<_, ParseError<P::Error>>(iu),
                    )
                    &&& iu.outcome matches Outcome::Next(bt2) && bt2 == s2.attempt_spec()
                },
            r matches Ok(u) ==> u.outcome matches Outcome::Parsed(x) ==> x matches Some(y)
                ==> exists|u2: Update<Backtrack<P>, P::Output>|
                {
                    &&& call_ensures(
                        <Backtrack<P> as ParserCore<T>>::feed,
                        (self.attempt_spec(), buffer),
                        Ok::<_, ParseError<P::Error>>(u2),
                    )
                    &&& u2.outcome matches Outcome::Parsed(y2) && y2 == y
                    &&& u2.consumed == u.consumed
                },
    {
        let Optional(bt) = self;
        match bt.feed(buffer) {
            Err(_) => {
                proof {
                    assert forall|b2: Seq<T>|
                        retains(buffer@, 0, b2) implies <Optional<P> as ParserCore<T>>::ok_output(
                        None,
                        b2,
                    ) by {}
                }
                Ok(Update { consumed: 0, outcome: Outcome::Parsed(None) })
            },
            Ok(u) => {
                let Update { consumed, outcome } = u;
                match outcome {
                    Outcome::Next(bt2) => Ok(
                        Update { consumed, outcome: Outcome::Next(Optional(bt2)) },
                    ),
                    Outcome::Parsed(x) => {
                        proof {
                            assert forall|b2: Seq<T>|
                                retains(buffer@, consumed as int, b2) implies <Optional<
                                P,
                            > as ParserCore<T>>::ok_output(Some(x), b2) by {}
                        }
                        Ok(Update { consumed, outcome: Outcome::Parsed(Some(x)) })
                    },
                }
            },
        }
}

    /// Drain the remainder; at the end of input an optional parser always
    /// resolves, with `None` when the attempt cannot complete.
    fn finalize(self, buffer: &[T]) -> (r: ParseResult<Option<Option<P::Output>>, Infallible>)
        ensures
            r matches Ok(_),
            exists|ir: ParseResult<Update<Backtrack<P>, P::Output>, P::Error>|
                {
                    &&& call_ensures(
                        <Backtrack<P> as ParserCore<T>>::feed,
                        (self.attempt_spec(), buffer),
                        ir,
                    )
                    &&& (ir matches Err(_) ==> (r matches Ok(o) && (o matches Some(oo)
                        && oo matches None)))
                    &&& (ir matches Ok(iu) ==> iu.outcome matches Outcome::Parsed(x) ==> (
                    r matches Ok(o) && (o matches Some(oo) && (oo matches Some(x2) && x2 == x))))
                    &&& (ir matches Ok(iu) ==> iu.outcome matches Outcome::Next(bt2) ==> exists|
                        pp: Option<P::Output>,
                    |
                        call_ensures(P::pending_at_end, (bt2.parser_spec(),), pp) && (
                        r matches Ok(o) && (o matches Some(oo) && oo == pp)))
                },
    {
        match self.feed(buffer) {
            Err(e) => Err(e),
            Ok(u) => match u.outcome {
                Outcome::Next(s2) => Ok(s2.pending_at_end()),
                Outcome::Parsed(x) => Ok(Some(x)),
            },
        }
    }
}

} // verus!
