use vstd::prelude::*;

use core::convert::Infallible;

use crate::combinator::Optional;
use crate::error::{ParseError, ParseResult};
use crate::parser::{retains, Outcome, ParserBase, ParserCore, Update};
use crate::sequence::SequenceParser;

verus! {

/// Parse `P` over and over: a sequence parser whose items are `P`'s outputs.
///
/// Each successful parse of `P` yields one item together with a fresh
/// restart of the template, ready to look for the next occurrence; a failed
/// attempt ends the sequence with `None`, consuming nothing, thanks to the
/// [`Optional`] around the current attempt.
pub struct Repeated<P> where P: Copy {
    template: P,
    current: Optional<P>,
}

impl<P> Repeated<P> where P: Copy {
    /// The template this repetition restarts from.
    pub closed spec fn template_spec(self) -> P {
        self.template
    }

    /// The attempt at the next occurrence.
    pub closed spec fn current_spec(self) -> Optional<P> {
        self.current
    }
}

impl<P> Repeated<P> where P: Copy {
    /// Repeat `template`: parse it as many times as it matches.
    pub fn new(template: P) -> (r: Self)
        ensures
            r.template_spec() == template,
            r.current_spec().parser_spec() == template,
            r.current_spec().cursor_spec() == 0,
    {
        Repeated { template, current: Optional::new(template) }
    }
}

impl<P> ParserBase for Repeated<P> where P: Copy + ParserBase {
    type Output = Option<(Repeated<P>, P::Output)>;

    type Error = Infallible;

    /// With no more input, the current attempt either resolves to one last
    /// item — paired with a fresh restart — or to `None`, the end of the
    /// sequence.
    fn pending_at_end(self) -> (r: Option<Option<(Repeated<P>, P::Output)>>)
        ensures
            r matches Some(_),
            exists|pp: Option<Option<P::Output>>|
                {
                    &&& call_ensures(
                        <Optional<P> as ParserBase>::pending_at_end,
                        (self.current_spec(),),
                        pp,
                    )
                    &&& (pp matches Some(po) ==> po matches None ==> (r matches Some(ro)
                        && ro matches None))
                    &&& (pp matches Some(po) ==> po matches Some(x) ==> (r matches Some(ro) && (
                    ro matches Some(p) && (p.1 == x && (p.0.template_spec()
                        == self.template_spec() && (p.0.current_spec().parser_spec()
                        == self.template_spec() && p.0.current_spec().cursor_spec() == 0))))))
                    &&& (pp matches None ==> (r matches Some(ro) && ro matches None))
                },
    {
        let Repeated { template, current } = self;
        let ghost gcur = current;
        let pp = current.pending_at_end();
        proof {
            assert(call_ensures(<Optional<P> as ParserBase>::pending_at_end, (gcur,), pp));
            assert(gcur == self.current_spec());
            assert(template == self.template_spec());
        }
        match pp {
            Some(Some(x)) => Some(Some((Repeated::new(template), x))),
            Some(None) => Some(None),
            None => Some(None),
        }
    }
}

impl<T, P> ParserCore<T> for Repeated<P> where P: Copy + ParserCore<T> {
    open spec fn ok_input(&self, b: Seq<T>) -> bool {
        &&& self.current_spec().ok_input(b)
        &&& self.template_spec().ok_fresh()
    }

    open spec fn ok_fresh(&self) -> bool {
        &&& self.current_spec().ok_fresh()
        &&& self.template_spec().ok_fresh()
    }

    open spec fn ok_output(x: Option<(Repeated<P>, P::Output)>, b: Seq<T>) -> bool {
        match x {
            Some((r2, item)) => r2.ok_input(b),
            None => true,
        }
    }

    proof fn lemma_ok_fresh(&self, b: Seq<T>) {
        assert(self.ok_fresh());
        assert(self.current_spec().ok_fresh());
        self.current_spec().lemma_ok_fresh(b);
        assert(self.current_spec().ok_input(b));
        assert(self.template_spec().ok_fresh());
    }

    /// Feed the current attempt.  Its success is one item of the sequence,
    /// paired with a fresh restart of the template; its `None` is the end of
    /// the sequence, with nothing consumed.
    fn feed(self, buffer: &[T]) -> (r: ParseResult<
        Update<Self, Option<(Repeated<P>, P::Output)>>,
        Infallible,
    >)
        ensures
            r matches Ok(_),
            r matches Ok(u) ==> u.outcome matches Outcome::Parsed(x) ==> x matches None
                ==> u.consumed == 0,
            r matches Ok(u) ==> u.outcome matches Outcome::Next(_) ==> u.consumed == 0,
            exists|ir: ParseResult<Update<Optional<P>, Option<P::Output>>, Infallible>|
                {
                    &&& call_ensures(
                        <Optional<P> as ParserCore<T>>::feed,
                        (self.current_spec(), buffer),
                        ir,
                    )
                    &&& (ir matches Ok(iu) ==> iu.outcome matches Outcome::Next(c2) ==> (
                    r matches Ok(u) && (u.consumed == iu.consumed && (u.outcome
                        matches Outcome::Next(s2) && (s2.template_spec() == self.template_spec()
                        && s2.current_spec() == c2)))))
                    &&& (ir matches Ok(iu) ==> iu.outcome matches Outcome::Parsed(o) ==> o
                        matches None ==> (r matches Ok(u) && (u.consumed == iu.consumed
                        && u.outcome matches Outcome::Parsed(None))))
                    &&& (ir matches Ok(iu) ==> iu.outcome matches Outcome::Parsed(o) ==> o
                        matches Some(x) ==> (r matches Ok(u) && (u.consumed == iu.consumed && (
                    u.outcome matches Outcome::Parsed(o2) && (o2 matches Some(p) && (p.1 == x && (
                    p.0.template_spec() == self.template_spec()
                        && (p.0.current_spec().parser_spec() == self.template_spec()
                        && p.0.current_spec().cursor_spec() == 0))))))))
                },
    {
        let Repeated { template, current } = self;
        match current.feed(buffer) {
            Err(e) => Err(e),
            Ok(u) => {
                let Update { consumed, outcome } = u;
                match outcome {
                    Outcome::Next(cur2) => Ok(
                        Update {
                            consumed,
                            outcome: Outcome::Next(Repeated { template, current: cur2 }),
                        },
                    ),
                    Outcome::Parsed(None) => {
                        proof {
                            assert forall|b2: Seq<T>|
                                retains(buffer@, consumed as int, b2) implies <Repeated<
                                P,
                            > as ParserCore<T>>::ok_output(None, b2) by {}
                        }
                        Ok(Update { consumed, outcome: Outcome::Parsed(None) })
                    },
                    Outcome::Parsed(Some(x)) => {
                        let restart = Repeated::new(template);
                        proof {
                            assert forall|b2: Seq<T>|
                                retains(buffer@, consumed as int, b2) implies <Repeated<
                                P,
                            > as ParserCore<T>>::ok_output(Some((restart, x)), b2) by {
                                restart.lemma_ok_fresh(b2);
                            }
                        }
                        Ok(Update { consumed, outcome: Outcome::Parsed(Some((restart, x))) })
                    },
                }
            },
        }
    }

    /// Drain the remainder; the end of a repetition is always a valid
    /// resolution, with one last item if the current attempt can complete.
    fn finalize(self, buffer: &[T]) -> (r: ParseResult<
        Option<Option<(Repeated<P>, P::Output)>>,
        Infallible,
    >)
        ensures
            r matches Ok(_),
            exists|ir: ParseResult<Update<Optional<P>, Option<P::Output>>, Infallible>|
                {
                    &&& call_ensures(
                        <Optional<P> as ParserCore<T>>::feed,
                        (self.current_spec(), buffer),
                        ir,
                    )
                    &&& (ir matches Ok(iu) ==> iu.outcome matches Outcome::Parsed(o) ==> o
                        matches None ==> (r matches Ok(ro) && (ro matches Some(roo)
                        && roo matches None)))
                    &&& (ir matches Ok(iu) ==> iu.outcome matches Outcome::Parsed(o) ==> o
                        matches Some(x) ==> (r matches Ok(ro) && (ro matches Some(roo) && (
                    roo matches Some(p) && (p.1 == x && (p.0.template_spec()
                        == self.template_spec() && (p.0.current_spec().parser_spec()
                        == self.template_spec() && p.0.current_spec().cursor_spec() == 0)))))))
                    &&& (ir matches Ok(iu) ==> iu.outcome matches Outcome::Next(c2) ==> exists|
                        pp: Option<Option<P::Output>>,
                    |
                        {
                            &&& call_ensures(
                                <Optional<P> as ParserBase>::pending_at_end,
                                (c2,),
                                pp,
                            )
                            &&& (pp matches Some(po) ==> po matches None ==> (r matches Ok(ro)
                                && (ro matches Some(roo) && roo matches None)))
                            &&& (pp matches Some(po) ==> po matches Some(x) ==> (r matches Ok(
                                ro,
                            ) && (ro matches Some(roo) && (roo matches Some(p) && (p.1 == x && (
                            p.0.template_spec() == self.template_spec() && (
                            p.0.current_spec().parser_spec() == self.template_spec()
                                && p.0.current_spec().cursor_spec() == 0)))))))
                            &&& (pp matches None ==> (r matches Ok(ro) && (ro matches Some(roo)
                                && roo matches None)))
                        })
                },
    {
        match self.feed(buffer) {
            Err(e) => Err(e),
            Ok(u) => match u.outcome {
                Outcome::Next(s2) => Ok(s2.pending_at_end()),
                Outcome::Parsed(x) => Ok(Some(x)),
            },
        }
    }
}

/// A repetition is the canonical sequence parser: its items are the outputs
/// of the template.
impl<T, P> SequenceParser<T> for Repeated<P> where P: Copy + ParserCore<T> {
    type Item = P::Output;

    proof fn lemma_continuation(r2: Self, item: P::Output, b: Seq<T>) {
        assert(<Repeated<P> as ParserCore<T>>::ok_output(Some((r2, item)), b));
    }
}

} // verus!
