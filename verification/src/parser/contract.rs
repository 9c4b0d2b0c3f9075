use vstd::prelude::*;

use crate::error::ParseResult;
use crate::parser::{Outcome, ParserBase, Update};

verus! {

/// True when `b2` is a buffer a driver may legally feed next, after feeding
/// `b1` to a parser that consumed `consumed` units: every unit of `b1` that
/// was not consumed appears again in `b2`, in order, starting at position 0.
pub open spec fn retains<T>(b1: Seq<T>, consumed: int, b2: Seq<T>) -> bool {
    b1.skip(consumed).is_prefix_of(b2)
}

/// Dropping the same number of units from a buffer and from one of its
/// extensions leaves the first remainder a prefix of the second.
pub proof fn lemma_retains_skip<T>(b1: Seq<T>, c: int, b2: Seq<T>, k: int)
    requires
        retains(b1, c, b2),
        c <= k <= b1.len(),
        0 <= c,
    ensures
        retains(b1, k, b2.skip(k - c)),
{
    let s1 = b1.skip(c);
    assert(s1.is_prefix_of(b2));
    assert(b1.skip(k) =~= b2.skip(k - c).subrange(0, b1.skip(k).len() as int)) by {
        assert forall|i: int| 0 <= i < b1.len() - k implies b1.skip(k)[i] == b2.skip(k - c)[i] by {
            assert(s1[i + k - c] == b2.subrange(0, s1.len() as int)[i + k - c]);
        }
    }
}

/// Skipping in two steps is skipping once.
pub proof fn lemma_skip_skip<T>(s: Seq<T>, i: int, j: int)
    requires
        0 <= i,
        0 <= j,
        i + j <= s.len(),
    ensures
        s.skip(i).skip(j) =~= s.skip(i + j),
{
}

/// The core functionality every parser implements: consume a chunk of input,
/// and separately, resolve at the end of input.
///
/// A driver must uphold the buffer retention discipline: units that a call to
/// [`ParserCore::feed`] did not consume must stand again at position 0 of the
/// buffer given to the next call on the returned state.  The `ok_input`
/// precondition expresses what a state needs of its buffer under that
/// discipline, and the postconditions of `feed` guarantee that the discipline
/// keeps every successor state satisfied.
pub trait ParserCore<T>: ParserBase {
    /// What this parser state requires of a fed buffer.
    spec fn ok_input(&self, b: Seq<T>) -> bool;

    /// True of states that accept any buffer whatsoever, such as every
    /// freshly constructed parser.
    spec fn ok_fresh(&self) -> bool;

    /// What a parsed output guarantees about every legally retained buffer
    /// that follows it.  For plain outputs this is trivial; a sequence parser
    /// uses it to hand out a continuation state that is ready for the
    /// remaining input.
    spec fn ok_output(x: Self::Output, b: Seq<T>) -> bool;

    /// A state that accepts any buffer accepts this one.
    proof fn lemma_ok_fresh(&self, b: Seq<T>)
        requires
            self.ok_fresh(),
        ensures
            self.ok_input(b),
    ;

    /// Feed a chunk of input to this parser, producing an update or an error.
    ///
    /// At most `buffer.len()` units are consumed, and any successor state is
    /// ready for every buffer the retention discipline allows next.
    fn feed(self, buffer: &[T]) -> (r: ParseResult<Update<Self, Self::Output>, Self::Error>)
        requires
            self.ok_input(buffer@),
        ensures
            r matches Ok(u) ==> u.consumed <= buffer@.len(),
            r matches Ok(u) ==> u.outcome matches Outcome::Next(s2) ==> forall|b2: Seq<T>|
                #[trigger] retains(buffer@, u.consumed as int, b2) ==> s2.ok_input(b2),
            r matches Ok(u) ==> u.outcome matches Outcome::Parsed(x) ==> forall|b2: Seq<T>|
                #[trigger] retains(buffer@, u.consumed as int, b2) ==> Self::ok_output(x, b2),
    ;

    /// Signal the end of input, offering the final unconsumed remainder.
    ///
    /// The remainder is drained as by [`ParserCore::feed`]; a parser that is
    /// then still waiting for input resolves through
    /// [`ParserBase::pending_at_end`], where `None` means the input ended too
    /// early.  Every implementation states how its result follows from an
    /// admitted feed of the remainder; the UTF-8 adapter in addition demands
    /// that no character be cut off by the end of input.
    fn finalize(self, buffer: &[T]) -> (r: ParseResult<Option<Self::Output>, Self::Error>)
        requires
            self.ok_input(buffer@),
    ;
}

} // verus!
