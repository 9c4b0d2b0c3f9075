use vstd::prelude::*;

use core::convert::Infallible;

use crate::buffer::Unit;
use crate::error::{ParseError, ParseResult};
use crate::parser::{retains, Outcome, ParserBase, ParserCore, Update};

verus! {

/// The number of units one feed of a [`Literal`] compares and consumes:
/// either the whole remainder of the value, or the whole buffer, whichever
/// is shorter.  `v` is the literal value, `m` how many of its units have
/// already matched, `b` the fed buffer.
pub open spec fn lit_step<T>(v: Seq<T>, m: int, b: Seq<T>) -> int {
    if v.len() - m <= b.len() {
        v.len() - m
    } else {
        b.len() as int
    }
}

/// True when the buffer agrees with the literal value on every compared unit.
pub open spec fn lit_matches<T>(v: Seq<T>, m: int, b: Seq<T>) -> bool {
    forall|j: int| 0 <= j < lit_step(v, m, b) ==> b[j] == v[m + j]
}

/// True when the buffer is long enough to finish matching the value.
pub open spec fn lit_complete<T>(v: Seq<T>, m: int, b: Seq<T>) -> bool {
    v.len() - m <= b.len()
}

/// Chunk boundaries do not change what a literal parses.
///
/// Feeding the concatenation of two buffers in one call has the same
/// outcome, and the same total consumed count, as feeding the first buffer
/// and then feeding the second to the state the first feed returned: if the
/// first buffer completes the match, the concatenation completes it with
/// the same consumption; if the first buffer only makes progress, the
/// concatenation matches, completes, and consumes exactly as the second
/// feed then does; and if the first buffer mismatches, so does the
/// concatenation.  Together with the exact contract of
/// [`Literal::feed`], this says a literal's result depends only on the
/// concatenation of the input, not on how it was chunked.
pub proof fn lemma_literal_chunk_split<T>(v: Seq<T>, m: int, b1: Seq<T>, b2: Seq<T>)
    requires
        0 <= m <= v.len(),
    ensures
        lit_matches(v, m, b1) && lit_complete(v, m, b1) ==> lit_matches(v, m, b1 + b2)
            && lit_complete(v, m, b1 + b2) && lit_step(v, m, b1 + b2) == lit_step(v, m, b1),
        lit_matches(v, m, b1) && !lit_complete(v, m, b1) ==> ({
            let m2 = m + b1.len();
            &&& (lit_matches(v, m, b1 + b2) <==> lit_matches(v, m2, b2))
            &&& (lit_complete(v, m, b1 + b2) <==> lit_complete(v, m2, b2))
            &&& b1.len() + lit_step(v, m2, b2) == lit_step(v, m, b1 + b2)
        }),
        !lit_matches(v, m, b1) ==> !lit_matches(v, m, b1 + b2),
{
    let whole = b1 + b2;
    assert(forall|j: int| 0 <= j < b1.len() ==> whole[j] == b1[j]);
    assert(forall|j: int| b1.len() <= j < whole.len() ==> whole[j] == b2[j - b1.len()]);
    if lit_matches(v, m, b1) && !lit_complete(v, m, b1) {
        let m2 = m + b1.len();
        assert(lit_step(v, m, b1) == b1.len());
        if lit_matches(v, m2, b2) {
            assert forall|j: int| 0 <= j < lit_step(v, m, whole) implies whole[j] == v[m + j] by {
                if j < b1.len() {
                } else {
                    assert(b2[j - b1.len()] == v[m2 + (j - b1.len())]);
                }
            }
        }
        if lit_matches(v, m, whole) {
            assert forall|j: int| 0 <= j < lit_step(v, m2, b2) implies b2[j] == v[m2 + j] by {
                assert(whole[b1.len() + j] == v[m + (b1.len() + j)]);
            }
        }
    }
    if !lit_matches(v, m, b1) {
        let j = choose|j: int| 0 <= j < lit_step(v, m, b1) && b1[j] != v[m + j];
        assert(whole[j] != v[m + j]);
        assert(0 <= j < lit_step(v, m, whole));
    }
}

/// What a fresh literal makes of an input.
///
/// Together with the exact contract of [`Literal::feed`]: the parse
/// succeeds — consuming exactly the value's length — precisely when the
/// input starts with the value; an input shorter than the value is
/// accepted as progress precisely when it is a prefix of the value; and
/// any other input is rejected as unexpected.
pub proof fn lemma_literal_start<T>(v: Seq<T>, b: Seq<T>)
    ensures
        lit_matches(v, 0, b) && lit_complete(v, 0, b) <==> v.is_prefix_of(b),
        b.len() < v.len() ==> (lit_matches(v, 0, b) <==> b.is_prefix_of(v)),
{
    if lit_matches(v, 0, b) && lit_complete(v, 0, b) {
        assert(v =~= b.subrange(0, v.len() as int));
    }
    if v.is_prefix_of(b) {
        assert(forall|j: int| 0 <= j < v.len() ==> v[j] == b.subrange(0, v.len() as int)[j]);
    }
    if b.len() < v.len() {
        if lit_matches(v, 0, b) {
            assert(b =~= v.subrange(0, b.len() as int));
        }
        if b.is_prefix_of(v) {
            assert(forall|j: int| 0 <= j < b.len() ==> b[j] == v.subrange(0, b.len() as int)[j]);
        }
    }
}

/// Construct a [`Literal`], which parses input that exactly matches `value`.
pub fn literal<'s, T: Unit>(value: &'s [T]) -> (r: Literal<'s, T>)
    ensures
        r.value_spec() == value@,
        r.matched_spec() == 0,
{
    Literal { value, matchcnt: 0 }
}

/// A [`Literal`] parses input that exactly matches its value, unit by unit.
///
/// Matching may span any number of feed calls; the state records how many
/// units have matched so far.  A full match consumes exactly the matched
/// units and leaves everything beyond them to the driver.
pub struct Literal<'s, T> {
    value: &'s [T],
    matchcnt: usize,
}

impl<'s, T> Clone for Literal<'s, T> {
    fn clone(&self) -> (r: Self)
        ensures
            r == *self,
    {
        Literal { value: self.value, matchcnt: self.matchcnt }
    }
}

impl<'s, T> Copy for Literal<'s, T> {

}

impl<'s, T> Literal<'s, T> {
    /// The value this literal matches.
    pub closed spec fn value_spec(self) -> Seq<T> {
        self.value@
    }

    /// How many units of the value have already matched.
    pub closed spec fn matched_spec(self) -> int {
        self.matchcnt as int
    }

    /// A literal state never claims to have matched past its value.
    pub open spec fn wf(self) -> bool {
        0 <= self.matched_spec() <= self.value_spec().len()
    }
}

impl<'s, T: Unit> ParserBase for Literal<'s, T> {
    type Output = &'s [T];

    type Error = Infallible;

    /// A literal that has not finished matching cannot complete without
    /// more input.
    fn pending_at_end(self) -> (r: Option<&'s [T]>)
        ensures
            r is None,
    {
        None
    }
}

impl<'s, T: Unit> ParserCore<T> for Literal<'s, T> {
    open spec fn ok_input(&self, b: Seq<T>) -> bool {
        self.wf()
    }

    open spec fn ok_fresh(&self) -> bool {
        self.wf()
    }

    open spec fn ok_output(x: &'s [T], b: Seq<T>) -> bool {
        true
    }

    proof fn lemma_ok_fresh(&self, b: Seq<T>) {
    }

    /// Compare as many units as the buffer and the unmatched remainder of
    /// the value allow.  Any disagreement is
    /// [`ParseError::UnexpectedInput`]; agreement either completes the match
    /// (consuming exactly the remainder and yielding the value) or consumes
    /// the whole buffer and records the progress.
    fn feed(self, buffer: &[T]) -> (r: ParseResult<Update<Self, &'s [T]>, Infallible>)
        ensures
            ({
                let v = self.value_spec();
                let m = self.matched_spec();
                let b = buffer@;
                &&& (r matches Ok(_) <==> lit_matches(v, m, b))
                &&& (r matches Err(e) ==> e matches ParseError::UnexpectedInput)
                &&& (lit_matches(v, m, b) && lit_complete(v, m, b) ==> (r matches Ok(u) && (
                u.consumed == v.len() - m && (u.outcome matches Outcome::Parsed(x) && x@ == v))))
                &&& (lit_matches(v, m, b) && !lit_complete(v, m, b) ==> (r matches Ok(u) && (
                u.consumed == b.len() && (u.outcome matches Outcome::Next(s2) && (
                s2.value_spec() == v && s2.matched_spec() == m + b.len())))))
            }),
    {
        let Literal { value, matchcnt } = self;
        let rem: usize = value.len() - matchcnt;
        let n: usize = if rem <= buffer.len() {
            rem
        } else {
            buffer.len()
        };
        let mut i: usize = 0;
        while i < n
            invariant
                self.value_spec() == value@,
                self.matched_spec() == matchcnt as int,
                matchcnt + rem == value@.len(),
                value@.len() <= usize::MAX,
                n == lit_step(value@, matchcnt as int, buffer@),
                n <= buffer@.len(),
                n <= rem,
                0 <= i <= n,
                forall|j: int| 0 <= j < i ==> buffer@[j] == value@[matchcnt + j],
            decreases n - i,
        {
            if !buffer[i].same(value[matchcnt + i]) {
                proof {
                    assert(buffer@[i as int] != value@[matchcnt + i]);
                    assert(!lit_matches(value@, matchcnt as int, buffer@));
                }
                return Err(ParseError::UnexpectedInput);
            }
            i += 1;
        }
        assert(lit_matches(value@, matchcnt as int, buffer@));
        proof {
            assert forall|b2: Seq<T>|
                retains(buffer@, n as int, b2) implies <Literal<'s, T> as ParserCore<T>>::ok_output(
                value,
                b2,
            ) by {}
        }
        if n == rem {
            Ok(Update { consumed: n, outcome: Outcome::Parsed(value) })
        } else {
            Ok(Update { consumed: n, outcome: Outcome::Next(Literal { value, matchcnt: matchcnt + n }) })
        }
}

    /// The end of input completes a literal exactly when the remainder
    /// finishes the match; a remainder that merely makes progress came too
    /// short.
    fn finalize(self, buffer: &[T]) -> (r: ParseResult<Option<&'s [T]>, Infallible>)
        ensures
            ({
                let v = self.value_spec();
                let m = self.matched_spec();
                let b = buffer@;
                &&& (r matches Ok(_) <==> lit_matches(v, m, b))
                &&& (r matches Err(e) ==> e matches ParseError::UnexpectedInput)
                &&& (lit_matches(v, m, b) && lit_complete(v, m, b) ==> (r matches Ok(o) && (
                o matches Some(x) && x@ == v)))
                &&& (lit_matches(v, m, b) && !lit_complete(v, m, b) ==> (r matches Ok(o)
                    && o matches None))
            }),
    {
        match self.feed(buffer) {
            Err(e) => Err(e),
            Ok(u) => match u.outcome {
                Outcome::Next(s2) => Ok(s2.pending_at_end()),
                Outcome::Parsed(x) => Ok(Some(x)),
            },
        }
    }
}

} // verus!
