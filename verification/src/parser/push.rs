use vstd::prelude::*;

use crate::combinator::{MapOutput, Optional, Or, Repeated, Then};
use crate::either::Either;
use crate::parser::ParserCore;

verus! {

/// The composition interface of push parsers: every parser offers the
/// combinators through it.
pub trait PushParser<T>: ParserCore<T> {
    /// Convert this parser's output with `f` once it parses.
    fn map_output<F, O>(self, f: F) -> (r: MapOutput<Self, F, O>) where
        F: FnOnce(Self::Output) -> O,

        requires
            forall|x: Self::Output| call_requires(f, (x,)),
        ensures
            r.parser_spec() == self,
            r.map_spec() == f,
    {
        MapOutput::new(self, f)
    }

    /// Parse `self` then `next` in sequence, yielding both outputs.
    fn then<P>(self, next: P) -> (r: Then<Self, P>) where P: ParserCore<T>
        ensures
            r.first_spec() matches Either::Left(x) && x == self,
            r.second_spec() == next,
    {
        Then::new(self, next)
    }

    /// Parse either `self` or `alternative`, preferring `self`.
    fn or<P>(self, alternative: P) -> (r: Or<T, Self, P>) where P: ParserCore<T>
        requires
            alternative.ok_fresh(),
        ensures
            r.first_spec() matches Some(xbt) && (xbt.parser_spec() == self && xbt.offset_spec()
                == 0),
            r.acc_spec() == Seq::<T>::empty(),
            r.second_spec() == alternative,
    {
        Or::new(self, alternative)
    }

    /// Attempt to parse `self`, or else succeed with `None`, consuming
    /// nothing.
    fn optional(self) -> (r: Optional<Self>)
        ensures
            r.parser_spec() == self,
            r.cursor_spec() == 0,
    {
        Optional::new(self)
    }

    /// Parse `self` any number of times in sequence.
    fn repeated(self) -> (r: Repeated<Self>) where Self: Copy
        ensures
            r.template_spec() == self,
            r.current_spec().parser_spec() == self,
            r.current_spec().cursor_spec() == 0,
    {
        Repeated::new(self)
    }
}

impl<T, P> PushParser<T> for P where P: ParserCore<T> {

}

} // verus!
