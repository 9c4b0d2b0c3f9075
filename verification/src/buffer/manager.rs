use vstd::prelude::*;

use crate::error::{ParseError, ParseResult};
use crate::parser::{retains, Outcome, ParserBase, ParserCore, Update};

verus! {

/// Owns the buffering needed to drive a parser over bytes from any source.
///
/// The manager keeps one growable store.  Its prefix, up to the retained
/// mark, holds bytes already seen but not yet consumed by the parser; the
/// rest is room for new bytes.  A driver repeatedly obtains the writable
/// room with [`BufferManager::get_write_slice`], fills some prefix of it,
/// and calls [`BufferManager::process_write`], which feeds the parser the
/// retained bytes followed by the new ones and then rotates whatever was
/// not consumed back to the front of the store.  This is exactly the
/// retention discipline the parser contract asks of a driver.
pub struct BufferManager {
    buffer: Vec<u8>,
    rstart: usize,
}

impl BufferManager {
    /// The store never claims to retain more than it holds.
    pub open spec fn store_wf(self) -> bool {
        self.retained_spec() <= self.store_spec().len()
    }

    /// The whole backing store.
    pub closed spec fn store_spec(self) -> Seq<u8> {
        self.buffer@
    }

    /// How many bytes at the front of the store are retained, unconsumed
    /// input.
    pub closed spec fn retained_spec(self) -> int {
        self.rstart as int
    }

    /// The retained, unconsumed input itself.
    pub open spec fn retained_bytes(self) -> Seq<u8> {
        self.store_spec().take(self.retained_spec())
    }

    /// Start a parse session that buffers with `buffer`, initially holding
    /// no retained input.
    pub fn new(buffer: Vec<u8>) -> (r: BufferManager)
        ensures
            r.store_spec() == buffer@,
            r.retained_spec() == 0,
    {
        BufferManager { buffer, rstart: 0 }
    }

    /// Get the writable region after the retained bytes, for new input.
    ///
    /// If retained data fills the whole store, the store grows first, so
    /// that the region is empty only when the store cannot grow any more.
    /// Writes through the region land in the store right after the retained
    /// bytes, which stay as they are.
    pub fn get_write_slice(&mut self) -> (r: &mut [u8])
        requires
            old(self).store_wf(),
        ensures
            final(self).store_wf(),
            final(self).retained_spec() == old(self).retained_spec(),
            final(self).retained_bytes() == old(self).retained_bytes(),
            final(self).store_spec() == final(self).retained_bytes() + final(r)@,
            old(self).store_spec().len() < usize::MAX ==> r@.len() > 0,
    {
        let n = self.buffer.len();
        if self.rstart == n {
            let target = if n == 0 {
                1
            } else if n >= usize::MAX - n {
                usize::MAX
            } else {
                n + n
            };
            self.buffer.resize(target, 0);
            proof {
                assert(self.buffer@.subrange(0, n as int) == old(self).buffer@.subrange(
                    0,
                    n as int,
                ));
            }
        }
        proof {
            assert(self.buffer@.subrange(0, self.rstart as int) =~= old(self).buffer@.subrange(
                0,
                self.rstart as int,
            ));
        }
        let store = self.buffer.as_mut_slice();
        let pair = store.split_at_mut(self.rstart);
        pair.1
    }

    /// Feed the parser the retained bytes followed by `readcnt` newly
    /// written ones, rotating whatever it does not consume back to the
    /// front of the store.
    ///
    /// A `readcnt` of zero signals the end of input: the parser is then
    /// finalized on the full retained remainder instead, and a missing
    /// pending value is [`ParseError::ExpectedMoreInput`].  Errors propagate
    /// unchanged and leave the manager as it was: they end the session.
    pub fn process_write<P>(&mut self, parser: P, readcnt: usize) -> (r: ParseResult<
        Outcome<P, P::Output>,
        P::Error,
    >) where P: ParserCore<u8>
        requires
            old(self).store_wf(),
            old(self).retained_spec() + readcnt <= old(self).store_spec().len(),
            parser.ok_input(
                old(self).store_spec().take(old(self).retained_spec() + readcnt),
            ),
        ensures
            final(self).store_wf(),
            r matches Err(_) ==> *final(self) == *old(self),
            readcnt == 0 ==> (r matches Ok(oc) ==> oc matches Outcome::Parsed(_)),
            readcnt == 0 ==> exists|sl: &[u8], fr: ParseResult<Option<P::Output>, P::Error>|
                {
                    &&& sl@ == old(self).retained_bytes()
                    &&& call_ensures(P::finalize, (parser, sl), fr)
                    &&& (fr matches Ok(fo) ==> fo matches Some(x) ==> (r matches Ok(oc) && (
                    oc matches Outcome::Parsed(x2) && x2 == x)))
                    &&& (fr matches Ok(fo) ==> fo matches None ==> (r matches Err(pe)
                        && pe matches ParseError::ExpectedMoreInput))
                    &&& (fr matches Err(e) ==> r matches Err(e2) && e2 == e)
                },
            r matches Ok(oc) ==> oc matches Outcome::Next(p2) ==> p2.ok_input(
                final(self).retained_bytes(),
            ),
            readcnt > 0 ==> (r matches Err(e) ==> exists|sl: &[u8]|
                {
                    &&& sl@ == old(self).store_spec().take(old(self).retained_spec() + readcnt)
                    &&& call_ensures(P::feed, (parser, sl), Err::<Update<P, P::Output>, _>(e))
                }),
            readcnt > 0 ==> (r matches Ok(oc) ==> exists|sl: &[u8], u: Update<P, P::Output>|
                {
                    &&& sl@ == old(self).store_spec().take(old(self).retained_spec() + readcnt)
                    &&& call_ensures(P::feed, (parser, sl), Ok::<_, ParseError<P::Error>>(u))
                    &&& oc == u.outcome
                    &&& final(self).retained_spec() == old(self).retained_spec() + readcnt
                        - u.consumed
                    &&& final(self).retained_bytes() == sl@.skip(u.consumed as int)
                }),
    {
        let n = self.buffer.len();
        if readcnt == 0 {
            let rslice: &[u8] = self.buffer.as_slice().split_at(self.rstart).0;
            proof {
                assert(rslice@ =~= self.buffer@.take(self.rstart as int));
            }
            match parser.finalize(rslice) {
                Ok(Some(x)) => Ok(Outcome::Parsed(x)),
                Ok(None) => Err(ParseError::ExpectedMoreInput),
                Err(e) => Err(e),
            }
        } else {
            let end = self.rstart + readcnt;
            let rslice: &[u8] = self.buffer.as_slice().split_at(end).0;
            proof {
                assert(rslice@ =~= self.buffer@.take(end as int));
            }
            match parser.feed(rslice) {
                Err(e) => Err(e),
                Ok(u) => {
                    let Update { consumed, outcome } = u;
                    let ghost content = self.buffer@.take(end as int);
                    let mut i: usize = 0;
                    let keep = end - consumed;
                    while i < keep
                        invariant
                            consumed + keep == end <= self.buffer@.len(),
                            i <= keep,
                            self.buffer@.len() == old(self).buffer@.len(),
                            content == old(self).buffer@.take(end as int),
                            forall|j: int| 0 <= j < i ==> self.buffer@[j] == content[consumed + j],
                            forall|j: int|
                                i <= j < self.buffer@.len() ==> self.buffer@[j] == old(
                                    self,
                                ).buffer@[j],
                        decreases keep - i,
                    {
                        let b = self.buffer[consumed + i];
                        self.buffer[i] = b;
                        i += 1;
                    }
                    self.rstart = keep;
                    proof {
                        assert(self.buffer@.take(keep as int) =~= content.skip(consumed as int));
                        assert(retains(content, consumed as int, self.buffer@.take(keep as int)));
                    }
                    match outcome {
                        Outcome::Next(p2) => Ok(Outcome::Next(p2)),
                        Outcome::Parsed(x) => Ok(Outcome::Parsed(x)),
                    }
                },
            }
        }
    }
}

} // verus!
