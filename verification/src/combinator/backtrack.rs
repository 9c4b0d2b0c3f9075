use vstd::prelude::*;

use crate::buffer::BufRef;
use crate::error::ParseResult;
use crate::parser::{
    lemma_retains_skip, lemma_skip_skip, retains, Outcome, ParserBase, ParserCore, Update,
};

verus! {

/// A [`Backtrack`] keeps a logical cursor into the original, unmodified
/// input stream instead of consuming from it.
///
/// While the inner parser is still pending, `feed` reports a consumed count
/// of zero, so the driver retains the whole input seen so far; the cursor
/// records how far the inner parser has advanced, and each feed offers the
/// inner parser the buffer with the first `offset` units dropped.  A caller
/// can therefore re-offer the same original input (for example to a second
/// alternative) with nothing copied.  Once the inner parser completes,
/// [`Backtrack`] reports the whole accumulated offset as its consumption.
pub struct Backtrack<P> {
    parser: P,
    offset: usize,
}

impl<P> Backtrack<P> {
    /// Wrap a parser, with the cursor at the start of the input.
    pub fn new(parser: P) -> (r: Self)
        ensures
            r.parser_spec() == parser,
            r.offset_spec() == 0,
    {
        Backtrack { parser, offset: 0 }
    }

    /// The wrapped parser state.
    pub closed spec fn parser_spec(self) -> P {
        self.parser
    }

    /// How many units of the original input the inner parser has consumed.
    pub closed spec fn offset_spec(self) -> int {
        self.offset as int
    }
}

impl<P> ParserBase for Backtrack<P> where P: ParserBase {
    type Output = P::Output;

    type Error = P::Error;

    /// Resolve through the inner parser: the retained input cannot help a
    /// parser that asked for more.
    fn pending_at_end(self) -> (r: Option<P::Output>)
        ensures
            call_ensures(P::pending_at_end, (self.parser_spec(),), r),
    {
        self.parser.pending_at_end()
    }
}

impl<T, P> ParserCore<T> for Backtrack<P> where P: ParserCore<T> {
    open spec fn ok_input(&self, b: Seq<T>) -> bool {
        &&& self.offset_spec() <= b.len()
        &&& self.parser_spec().ok_input(b.skip(self.offset_spec()))
    }

    open spec fn ok_fresh(&self) -> bool {
        &&& self.offset_spec() == 0
        &&& self.parser_spec().ok_fresh()
    }

    open spec fn ok_output(x: P::Output, b: Seq<T>) -> bool {
        P::ok_output(x, b)
    }

    proof fn lemma_ok_fresh(&self, b: Seq<T>) {
        assert(self.ok_fresh());
        assert(self.parser_spec().ok_fresh());
        self.parser_spec().lemma_ok_fresh(b.skip(0));
        assert(b.skip(0) =~= b);
        assert(self.parser_spec().ok_input(b.skip(self.offset_spec())));
        assert(self.offset_spec() <= b.len());
        assert(self.ok_input(b));
    }

    /// Offer the inner parser the input beyond the cursor.  While the inner
    /// parser is pending nothing is consumed and the cursor advances; once
    /// it parses a value, the whole cursor is consumed at once.
    fn feed(self, buffer: &[T]) -> (r: ParseResult<Update<Self, P::Output>, P::Error>)
        ensures
            r matches Ok(u) ==> u.outcome matches Outcome::Next(s2) ==> (u.consumed == 0
                && s2.offset_spec() >= self.offset_spec()),
            r matches Ok(u) ==> u.outcome matches Outcome::Parsed(_) ==> u.consumed
                >= self.offset_spec(),
            exists|sb: &[T], ir: ParseResult<Update<P, P::Output>, P::Error>|
                {
                    &&& sb@ == buffer@.skip(self.offset_spec())
                    &&& call_ensures(P::feed, (self.parser_spec(), sb), ir)
                    &&& (ir matches Err(e) ==> r matches Err(e2) && e2 == e)
                    &&& (ir matches Ok(iu) ==> iu.outcome matches Outcome::Next(p2) ==> (
                    r matches Ok(u) && (u.consumed == 0 && (u.outcome matches Outcome::Next(s2)
                        && (s2.parser_spec() == p2 && s2.offset_spec() == self.offset_spec()
                        + iu.consumed)))))
                    &&& (ir matches Ok(iu) ==> iu.outcome matches Outcome::Parsed(x) ==> (
                    r matches Ok(u) && (u.consumed == self.offset_spec() + iu.consumed && (
                    u.outcome matches Outcome::Parsed(x2) && x2 == x))))
                },
    {
        let Backtrack { parser, offset } = self;
        let blen: usize = buffer.len();
        let subbuf: &[T] = buffer.drop_up_to(offset);
        assert(subbuf@.len() == blen - offset);
        match parser.feed(subbuf) {
            Err(e) => Err(e),
            Ok(u) => {
                let Update { consumed, outcome } = u;
                match outcome {
                    Outcome::Next(p2) => {
                        proof {
                            assert forall|b2: Seq<T>| retains(buffer@, 0, b2) implies (offset
                                + consumed <= b2.len() && p2.ok_input(
                                b2.skip(offset + consumed),
                            )) by {
                                lemma_retains_skip(buffer@, 0, b2, offset + consumed);
                                lemma_skip_skip(buffer@, offset as int, consumed as int);
                                assert(retains(subbuf@, consumed as int, b2.skip(offset + consumed)));
                            }
                        }
                        Ok(
                            Update {
                                consumed: 0,
                                outcome: Outcome::Next(
                                    Backtrack { parser: p2, offset: offset + consumed },
                                ),
                            },
                        )
                    },
                    Outcome::Parsed(x) => {
                        proof {
                            assert forall|b2: Seq<T>|
                                retains(buffer@, offset + consumed, b2) implies <Backtrack<
                                P,
                            > as ParserCore<T>>::ok_output(x, b2) by {
                                lemma_skip_skip(buffer@, offset as int, consumed as int);
                                assert(retains(subbuf@, consumed as int, b2));
                            }
                        }
                        Ok(Update { consumed: offset + consumed, outcome: Outcome::Parsed(x) })
                    },
                }
            },
        }
    }

    /// Drain the remainder past the cursor, then resolve what the inner
    /// parser still has pending.
    fn finalize(self, buffer: &[T]) -> (r: ParseResult<Option<P::Output>, P::Error>)
        ensures
            exists|sb: &[T], ir: ParseResult<Update<P, P::Output>, P::Error>|
                {
                    &&& sb@ == buffer@.skip(self.offset_spec())
                    &&& call_ensures(P::feed, (self.parser_spec(), sb), ir)
                    &&& (ir matches Err(e) ==> r matches Err(e2) && e2 == e)
                    &&& (ir matches Ok(iu) ==> iu.outcome matches Outcome::Parsed(x) ==> (
                    r matches Ok(o) && (o matches Some(x2) && x2 == x)))
                    &&& (ir matches Ok(iu) ==> iu.outcome matches Outcome::Next(p2) ==> exists|
                        pp: Option<P::Output>,
                    |
                        call_ensures(P::pending_at_end, (p2,), pp) && (r matches Ok(o) && o
                            == pp))
                },
    {
        match self.feed(buffer) {
            Err(e) => Err(e),
            Ok(u) => match u.outcome {
                Outcome::Next(s2) => Ok(s2.pending_at_end()),
                Outcome::Parsed(x) => Ok(Some(x)),
            },
        }
    }
}

} // verus!
