use vstd::prelude::*;

use crate::either::{tag_left, Either};
use crate::error::{err_tagged_left, ParseError, ParseResult};
use crate::parser::{retains, Outcome, ParserBase, ParserCore, Update};
use vstd::utf8::{
    decode_first_codepoint, decode_first_scalar, decode_utf8, is_continuation_byte,
    is_leading_byte_width_2, is_leading_byte_width_3, is_leading_byte_width_4, is_scalar, length_of_first_scalar, not_overlong_encoding,
    not_surrogate, pop_first_scalar, valid_first_scalar,
    valid_leading_and_continuation_bytes_first_codepoint, valid_utf8,
};

verus! {

broadcast use vstd::utf8::group_utf8_lib;

/// The characters encoded in the longest prefix of `b` that is a sequence
/// of complete, valid UTF-8 scalar encodings.
pub open spec fn utf8_scan_chars(b: Seq<u8>) -> Seq<char>
    decreases b.len(),
{
    if valid_first_scalar(b) {
        seq![decode_first_scalar(b) as char] + utf8_scan_chars(pop_first_scalar(b))
    } else {
        seq![]
    }
}

/// The length in bytes of the longest prefix of `b` that is a sequence of
/// complete, valid UTF-8 scalar encodings.
pub open spec fn utf8_prefix_len(b: Seq<u8>) -> int
    decreases b.len(),
{
    if valid_first_scalar(b) {
        length_of_first_scalar(b) + utf8_prefix_len(pop_first_scalar(b))
    } else {
        0
    }
}

/// The length in bytes of the first `n` scalar encodings in `b`.
pub open spec fn utf8_len_upto(b: Seq<u8>, n: int) -> int
    decreases n,
{
    if n <= 0 || !valid_first_scalar(b) {
        0
    } else {
        length_of_first_scalar(b) + utf8_len_upto(pop_first_scalar(b), n - 1)
    }
}

/// True when `tail` could be the first bytes of a single, not yet complete
/// scalar encoding: a multi-byte leading byte followed only by continuation
/// bytes, fewer than the leading byte calls for.  Such a tail is what a
/// chunk boundary may cut off a character; it asks for more input rather
/// than being an error.
pub open spec fn utf8_straddle(tail: Seq<u8>) -> bool {
    ||| tail.len() == 0
    ||| {
        &&& 0 < tail.len()
        &&& ((is_leading_byte_width_2(tail[0]) && tail.len() < 2) || (is_leading_byte_width_3(
            tail[0],
        ) && tail.len() < 3) || (is_leading_byte_width_4(tail[0]) && tail.len() < 4))
        &&& forall|j: int| 1 <= j < tail.len() ==> is_continuation_byte(tail[j])
    }
}

/// Whether a byte sequence begins with a valid scalar encoding, and what it
/// is, depends only on the first bytes, as many as that encoding is long.
pub proof fn lemma_first_scalar_agree(s: Seq<u8>, t: Seq<u8>)
    requires
        valid_first_scalar(s),
        t.len() >= length_of_first_scalar(s),
        s.len() >= length_of_first_scalar(s),
        forall|j: int| 0 <= j < length_of_first_scalar(s) ==> s[j] == t[j],
    ensures
        valid_first_scalar(t),
        length_of_first_scalar(t) == length_of_first_scalar(s),
        decode_first_scalar(t) == decode_first_scalar(s),
{
}

/// Scanning a buffer and scanning an extension of it find the same leading
/// scalars: complete characters never change meaning when input grows.
pub proof fn lemma_scan_mono(s: Seq<u8>, t: Seq<u8>)
    requires
        s.is_prefix_of(t),
    ensures
        utf8_prefix_len(s) <= utf8_prefix_len(t),
        utf8_scan_chars(s).is_prefix_of(utf8_scan_chars(t)),
    decreases s.len(),
{
    lemma_prefix_len_bound(s);
    lemma_prefix_len_bound(t);
    if !valid_first_scalar(s) {
        assert(utf8_scan_chars(s).is_prefix_of(utf8_scan_chars(t))) by {
            assert(utf8_scan_chars(s) =~= utf8_scan_chars(t).subrange(0, 0));
        }
    } else {
        let w = length_of_first_scalar(s);
        assert(1 <= w <= s.len());
        assert(forall|j: int| 0 <= j < s.len() ==> s[j] == t[j]) by {
            assert(s =~= t.subrange(0, s.len() as int));
            assert(forall|j: int|
                0 <= j < s.len() ==> s[j] == t.subrange(0, s.len() as int)[j]);
        }
        lemma_first_scalar_agree(s, t);
        let s2 = pop_first_scalar(s);
        let t2 = pop_first_scalar(t);
        assert(s2.is_prefix_of(t2)) by {
            assert(forall|j: int| 0 <= j < s2.len() ==> s2[j] == s[j + w] && t2[j] == t[j + w]);
            assert(s2 =~= t2.subrange(0, s2.len() as int));
        }
        lemma_scan_mono(s2, t2);
        assert(utf8_prefix_len(s) == w + utf8_prefix_len(s2));
        assert(utf8_prefix_len(t) == w + utf8_prefix_len(t2));
        let cs = utf8_scan_chars(s);
        let ct = utf8_scan_chars(t);
        assert(utf8_scan_chars(s2).is_prefix_of(utf8_scan_chars(t2)));
        assert(cs =~= ct.subrange(0, cs.len() as int)) by {
            assert(cs.len() <= ct.len());
            assert(forall|j: int| 0 <= j < cs.len() ==> cs[j] == ct[j]) by {
                assert(forall|j: int|
                    1 <= j < cs.len() ==> cs[j] == utf8_scan_chars(s2)[j - 1] && ct[j]
                        == utf8_scan_chars(t2)[j - 1]);
                assert(forall|j: int|
                    0 <= j < utf8_scan_chars(s2).len() ==> utf8_scan_chars(s2)[j]
                        == utf8_scan_chars(t2)[j]) by {
                    assert(utf8_scan_chars(s2) =~= utf8_scan_chars(t2).subrange(
                        0,
                        utf8_scan_chars(s2).len() as int,
                    ));
                }
            }
        }
    }
}

/// The prefix of complete scalar encodings never runs past the buffer.
pub proof fn lemma_prefix_len_bound(b: Seq<u8>)
    ensures
        0 <= utf8_prefix_len(b) <= b.len(),
    decreases b.len(),
{
    if valid_first_scalar(b) {
        lemma_prefix_len_bound(pop_first_scalar(b));
    }
}

/// The bytes of the first `n` scanned characters lie within the scanned
/// prefix.
pub proof fn lemma_len_upto_bound(b: Seq<u8>, n: int)
    requires
        0 <= n <= utf8_scan_chars(b).len(),
    ensures
        0 <= utf8_len_upto(b, n) <= utf8_prefix_len(b),
    decreases n,
{
    lemma_prefix_len_bound(b);
    if n > 0 && valid_first_scalar(b) {
        lemma_len_upto_bound(pop_first_scalar(b), n - 1);
        lemma_prefix_len_bound(pop_first_scalar(b));
    }
}

/// The scanned prefix is valid UTF-8, and the scanned characters are its
/// decoding.
pub proof fn lemma_scan_decode(b: Seq<u8>)
    ensures
        valid_utf8(b.take(utf8_prefix_len(b))),
        decode_utf8(b.take(utf8_prefix_len(b))) == utf8_scan_chars(b),
    decreases b.len(),
{
    lemma_prefix_len_bound(b);
    if !valid_first_scalar(b) {
        assert(b.take(0) =~= Seq::<u8>::empty());
    } else {
        let w = length_of_first_scalar(b);
        let rest = pop_first_scalar(b);
        lemma_scan_decode(rest);
        lemma_prefix_len_bound(rest);
        let plen = utf8_prefix_len(b);
        let head = b.take(plen);
        assert(forall|j: int| 0 <= j < w ==> b[j] == head[j]);
        lemma_first_scalar_agree(b, head);
        assert(pop_first_scalar(head) =~= rest.take(utf8_prefix_len(rest)));
        assert(valid_utf8(head));
        assert(decode_utf8(head) == utf8_scan_chars(b));
    }
}

/// A failed decode: the bytes up to `valid_up_to` are complete, valid
/// scalar encodings, and what follows can never become one.
#[derive(Debug)]
pub struct Utf8Error {
    /// How many leading bytes still form valid UTF-8.
    pub valid_up_to: usize,
}

/// Relies on char::from_u32: every Unicode scalar value is the numeric
/// value of exactly one char.
#[verifier::external_body]
fn scalar_to_char(v: u32) -> (c: char)
    requires
        is_scalar(v),
    ensures
        c == v as char,
        c as u32 == v,
{
    char::from_u32(v).unwrap_or('\0')
}

/// Decode the longest prefix of complete, valid UTF-8 scalar encodings of
/// `buf` into characters.
///
/// On success, the characters decode exactly the first `r.1` bytes, and the
/// remainder is at most the start of one more character, cut off by the end
/// of the buffer.  A remainder that can never complete a character — a
/// stray continuation byte, a malformed leading byte, an overlong or
/// out-of-range encoding — is an error instead, reporting how many leading
/// bytes were still valid.
#[verifier::loop_isolation(false)]
#[verifier::rlimit(60)]
pub fn from_utf8_partial(buf: &[u8]) -> (r: Result<(Vec<char>, usize), Utf8Error>)
    ensures
        r matches Ok(p) ==> ({
            &&& p.1 == utf8_prefix_len(buf@)
            &&& p.0@ == utf8_scan_chars(buf@)
            &&& utf8_straddle(buf@.skip(p.1 as int))
            &&& valid_utf8(buf@.take(p.1 as int))
            &&& p.0@ == decode_utf8(buf@.take(p.1 as int))
        }),
        r matches Err(e) ==> ({
            &&& e.valid_up_to == utf8_prefix_len(buf@)
            &&& !utf8_straddle(buf@.skip(e.valid_up_to as int))
            &&& !valid_first_scalar(buf@.skip(e.valid_up_to as int))
        }),
{
    let n = buf.len();
    let mut chars: Vec<char> = Vec::new();
    let mut i: usize = 0;
    proof {
        assert(buf@.skip(0) =~= buf@);
        lemma_scan_decode(buf@);
    }
    loop
        invariant
            i <= n,
            n == buf@.len(),
            utf8_prefix_len(buf@) == i + utf8_prefix_len(buf@.skip(i as int)),
            utf8_scan_chars(buf@) == chars@ + utf8_scan_chars(buf@.skip(i as int)),
        decreases n - i,
    {
        let ghost tail = buf@.skip(i as int);
        proof {
            assert(tail.len() == n - i);
            assert(forall|k: int| 0 <= k < tail.len() ==> tail[k] == buf@[i + k]);
        }
        if i == n {
            proof {
                assert(!valid_first_scalar(tail));
                assert(utf8_scan_chars(tail) =~= Seq::<char>::empty());
            }
            return Ok((chars, i));
        }
        let b0 = buf[i];
        let w: usize = if b0 < 0x80 {
            1
        } else if b0 < 0xc0 {
            0
        } else if b0 < 0xe0 {
            2
        } else if b0 < 0xf0 {
            3
        } else if b0 < 0xf8 {
            4
        } else {
            0
        };
        if w == 0 {
            proof {
                assert(!valid_first_scalar(tail));
                assert(utf8_scan_chars(tail) =~= Seq::<char>::empty());
            }
            return Err(Utf8Error { valid_up_to: i });
        }
        if n - i < w {
            // The buffer ends inside this character: every byte present must
            // at least be a well-formed continuation byte.
            let mut j: usize = i + 1;
            while j < n
                invariant
                    i < j <= n,
                    n == buf@.len(),
                    forall|k: int| i < k < j ==> is_continuation_byte(buf@[k]),
                decreases n - j,
            {
                let bj = buf[j];
                if bj < 0x80 || bj >= 0xc0 {
                    proof {
                        assert(tail[j - i] == buf@[j as int]);
                        assert(!is_continuation_byte(tail[j - i]));
                        assert(!valid_first_scalar(tail));
                        assert(!utf8_straddle(tail));
                        assert(utf8_scan_chars(tail) =~= Seq::<char>::empty());
                    }
                    return Err(Utf8Error { valid_up_to: i });
                }
                j += 1;
            }
            proof {
                assert(!valid_first_scalar(tail));
                assert(utf8_straddle(tail));
                assert(utf8_scan_chars(tail) =~= Seq::<char>::empty());
            }
            return Ok((chars, i));
        }
        // The whole character is present: check its continuation bytes and
        // decode its scalar value.
        let mut j: usize = i + 1;
        while j < i + w
            invariant
                i < j <= i + w <= n,
                n == buf@.len(),
                forall|k: int| i < k < j ==> is_continuation_byte(buf@[k]),
            decreases i + w - j,
        {
            let bj = buf[j];
            if bj < 0x80 || bj >= 0xc0 {
                proof {
                    assert(tail[j - i] == buf@[j as int]);
                    assert(!is_continuation_byte(tail[j - i]));
                    assert(!valid_first_scalar(tail));
                    assert(tail.len() >= w);
                    assert(!utf8_straddle(tail));
                    assert(utf8_scan_chars(tail) =~= Seq::<char>::empty());
                }
                return Err(Utf8Error { valid_up_to: i });
            }
            j += 1;
        }
        let b1: u8 = if w >= 2 {
            buf[i + 1]
        } else {
            0
        };
        let b2: u8 = if w >= 3 {
            buf[i + 2]
        } else {
            0
        };
        let b3: u8 = if w >= 4 {
            buf[i + 3]
        } else {
            0
        };
        let cp: u32 = if w == 1 {
            b0 as u32
        } else if w == 2 {
            (((b0 & 0x1f) as u32) << 6) | ((b1 & 0x3f) as u32)
        } else if w == 3 {
            (((b0 & 0x0f) as u32) << 12) | (((b1 & 0x3f) as u32) << 6) | ((b2 & 0x3f) as u32)
        } else {
            (((b0 & 0x07) as u32) << 18) | (((b1 & 0x3f) as u32) << 12) | (((b2 & 0x3f) as u32)
                << 6) | ((b3 & 0x3f) as u32)
        };
        proof {
            assert(valid_leading_and_continuation_bytes_first_codepoint(tail));
            if w == 1 {
                assert(((b0 & 0x7f) as u32) == b0 as u32) by (bit_vector)
                    requires
                        b0 < 0x80,
                ;
            } else if w == 2 {
                assert(((((b0 & 0x1f) as u32) << 6) | ((b1 & 0x3f) as u32)) <= 0x7ff)
                    by (bit_vector);
            } else if w == 3 {
                assert(((((b0 & 0x0f) as u32) << 12) | (((b1 & 0x3f) as u32) << 6) | ((b2
                    & 0x3f) as u32)) <= 0xffff) by (bit_vector);
            }
            assert(cp == decode_first_codepoint(tail));
            assert(vstd::utf8::length_of_first_codepoint(tail) == w);
        }
        let ok = if w == 2 {
            cp >= 0x80
        } else if w == 3 {
            cp >= 0x800 && !(cp >= 0xd800 && cp <= 0xdfff)
        } else if w == 4 {
            cp >= 0x10000 && cp <= 0x10ffff
        } else {
            true
        };
        if !ok {
            proof {
                assert(!valid_first_scalar(tail));
                assert(!utf8_straddle(tail));
                assert(utf8_scan_chars(tail) =~= Seq::<char>::empty());
            }
            return Err(Utf8Error { valid_up_to: i });
        }
        proof {
            assert(not_overlong_encoding(cp, w as int));
            assert(not_surrogate(cp));
            assert(valid_first_scalar(tail));
            assert(is_scalar(cp));
        }
        let c = scalar_to_char(cp);
        chars.push(c);
        proof {
            assert(pop_first_scalar(tail) =~= buf@.skip(i + w));
            assert(utf8_scan_chars(tail) == seq![c] + utf8_scan_chars(buf@.skip(i + w)));
            assert(utf8_prefix_len(tail) == w + utf8_prefix_len(buf@.skip(i + w)));
            assert(chars@ + utf8_scan_chars(buf@.skip(i + w)) =~= utf8_scan_chars(buf@));
        }
        i += w;
    }
}

/// Each character the scan finds sits at the byte offset of the characters
/// before it, and its encoding is wholly within the scanned prefix.
pub proof fn lemma_len_upto_step(b: Seq<u8>, k: int)
    requires
        0 <= k < utf8_scan_chars(b).len(),
    ensures
        valid_first_scalar(b.skip(utf8_len_upto(b, k))),
        utf8_len_upto(b, k + 1) == utf8_len_upto(b, k) + length_of_first_scalar(
            b.skip(utf8_len_upto(b, k)),
        ),
        utf8_scan_chars(b).len() - k == utf8_scan_chars(b.skip(utf8_len_upto(b, k))).len(),
    decreases k,
{
    if k == 0 {
        assert(valid_first_scalar(b));
        assert(b.skip(0) =~= b);
        assert(utf8_len_upto(b, 0) == 0);
        assert(utf8_len_upto(b, 1) == length_of_first_scalar(b) + utf8_len_upto(
            pop_first_scalar(b),
            0,
        ));
        assert(utf8_len_upto(pop_first_scalar(b), 0) == 0);
    } else {
        assert(valid_first_scalar(b));
        let w = length_of_first_scalar(b);
        let rest = pop_first_scalar(b);
        assert(utf8_scan_chars(b).len() == 1 + utf8_scan_chars(rest).len());
        lemma_len_upto_step(rest, k - 1);
        lemma_len_upto_bound(rest, k - 1);
        lemma_len_upto_bound(rest, k);
        lemma_prefix_len_bound(rest);
        assert(b.skip(w + utf8_len_upto(rest, k - 1)) =~= rest.skip(utf8_len_upto(rest, k - 1)));
        assert(b.skip(w + utf8_len_upto(rest, k)) =~= rest.skip(utf8_len_upto(rest, k)));
        assert(utf8_len_upto(b, k) == w + utf8_len_upto(rest, k - 1));
        assert(utf8_len_upto(b, k + 1) == w + utf8_len_upto(rest, k));
    }
}

/// The length in bytes of the first `nchars` characters of the scanned
/// prefix of `buf`.
#[verifier::loop_isolation(false)]
pub fn utf8_len_of(buf: &[u8], nchars: usize) -> (r: usize)
    requires
        nchars <= utf8_scan_chars(buf@).len(),
    ensures
        r == utf8_len_upto(buf@, nchars as int),
        r <= buf@.len(),
{
    let n = buf.len();
    let mut k: usize = 0;
    let mut pos: usize = 0;
    while k < nchars
        invariant
            k <= nchars,
            pos == utf8_len_upto(buf@, k as int),
            0 <= pos <= n,
        decreases nchars - k,
    {
        proof {
            lemma_len_upto_step(buf@, k as int);
            lemma_len_upto_bound(buf@, k + 1);
            lemma_prefix_len_bound(buf@);
            assert(buf@.skip(pos as int)[0] == buf@[pos as int]);
        }
        let b0 = buf[pos];
        let w: usize = if b0 < 0x80 {
            1
        } else if b0 < 0xe0 {
            2
        } else if b0 < 0xf0 {
            3
        } else {
            4
        };
        proof {
            assert(w == length_of_first_scalar(buf@.skip(pos as int)));
        }
        pos = pos + w;
        k += 1;
    }
    proof {
        lemma_len_upto_bound(buf@, nchars as int);
        lemma_prefix_len_bound(buf@);
    }
    pos
}

/// The characters a buffer suffix scans are the scanned characters from
/// that point on: cutting the bytes at a character boundary cuts the
/// characters at the same place.
pub proof fn lemma_scan_skip(b: Seq<u8>, n: int)
    requires
        0 <= n <= utf8_scan_chars(b).len(),
    ensures
        utf8_scan_chars(b.skip(utf8_len_upto(b, n))) == utf8_scan_chars(b).skip(n),
    decreases n,
{
    if n == 0 {
        assert(b.skip(0) =~= b);
        assert(utf8_scan_chars(b).skip(0) =~= utf8_scan_chars(b));
    } else {
        assert(valid_first_scalar(b));
        let w = length_of_first_scalar(b);
        let rest = pop_first_scalar(b);
        assert(utf8_scan_chars(b).len() == 1 + utf8_scan_chars(rest).len());
        lemma_scan_skip(rest, n - 1);
        lemma_len_upto_bound(rest, n - 1);
        lemma_prefix_len_bound(rest);
        assert(b.skip(w + utf8_len_upto(rest, n - 1)) =~= rest.skip(utf8_len_upto(rest, n - 1)));
        assert(utf8_len_upto(b, n) == w + utf8_len_upto(rest, n - 1));
        assert(utf8_scan_chars(b).skip(n) =~= utf8_scan_chars(rest).skip(n - 1));
    }
}

/// Wrap a parser over characters into a parser over UTF-8 bytes.
///
/// Each feed decodes the complete characters of the byte buffer and offers
/// them to the inner parser; the update mirrors the inner parser’s, with
/// its consumed count expressed in bytes.  The trailing bytes of a
/// character cut off by a chunk boundary are never consumed, so the driver
/// re-offers them and the character is parsed once it is complete.  Bytes
/// that can never complete a character are a [`Utf8Error`], tagged as the
/// right error alternative; the inner parser’s errors surface tagged left.
pub struct IntoUtf8Parser<P> {
    inner: P,
}

impl<P> IntoUtf8Parser<P> {
    /// Adapt `inner`, a parser over characters, to bytes.
    pub fn new(inner: P) -> (r: Self)
        ensures
            r.inner_spec() == inner,
    {
        IntoUtf8Parser { inner }
    }

    /// The parser over characters.
    pub closed spec fn inner_spec(self) -> P {
        self.inner
    }
}

impl<P> ParserBase for IntoUtf8Parser<P> where P: ParserBase {
    type Output = P::Output;

    type Error = Either<P::Error, Utf8Error>;

    /// Resolve through the inner parser: bytes of an unfinished character
    /// are unconsumed input, which only the driver can report.
    fn pending_at_end(self) -> (r: Option<P::Output>)
        ensures
            call_ensures(P::pending_at_end, (self.inner_spec(),), r),
    {
        self.inner.pending_at_end()
    }
}

impl<P> ParserCore<u8> for IntoUtf8Parser<P> where P: ParserCore<char> {
    open spec fn ok_input(&self, b: Seq<u8>) -> bool {
        self.inner_spec().ok_input(utf8_scan_chars(b))
    }

    open spec fn ok_fresh(&self) -> bool {
        self.inner_spec().ok_fresh()
    }

    open spec fn ok_output(x: P::Output, b: Seq<u8>) -> bool {
        true
    }

    proof fn lemma_ok_fresh(&self, b: Seq<u8>) {
        self.inner_spec().lemma_ok_fresh(utf8_scan_chars(b));
    }

    /// Decode the buffer’s complete characters, offer them to the inner
    /// parser, and mirror its update with the consumed count in bytes.
    fn feed(self, buffer: &[u8]) -> (r: ParseResult<
        Update<Self, P::Output>,
        Either<P::Error, Utf8Error>,
    >)
        ensures
            !utf8_straddle(buffer@.skip(utf8_prefix_len(buffer@))) ==> (r matches Err(pe) && (
            pe matches ParseError::Custom(ce) && (ce matches Either::Right(ue)
                && ue.valid_up_to == utf8_prefix_len(buffer@)))),
            utf8_straddle(buffer@.skip(utf8_prefix_len(buffer@))) ==> exists|
                cs: &[char],
                ir: ParseResult<Update<P, P::Output>, P::Error>,
            |
                {
                    &&& cs@ == utf8_scan_chars(buffer@)
                    &&& call_ensures(P::feed, (self.inner_spec(), cs), ir)
                    &&& (ir matches Err(e) ==> r matches Err(pe) && err_tagged_left(e, pe))
                    &&& (ir matches Ok(iu) ==> iu.outcome matches Outcome::Next(p2) ==> (
                    r matches Ok(u) && (u.consumed == utf8_len_upto(buffer@, iu.consumed as int)
                        && (u.outcome matches Outcome::Next(s2) && s2.inner_spec() == p2))))
                    &&& (ir matches Ok(iu) ==> iu.outcome matches Outcome::Parsed(x) ==> (
                    r matches Ok(u) && (u.consumed == utf8_len_upto(buffer@, iu.consumed as int)
                        && (u.outcome matches Outcome::Parsed(x2) && x2 == x))))
                },
    {
        let IntoUtf8Parser { inner } = self;
        match from_utf8_partial(buffer) {
            Err(ue) => Err(ParseError::Custom(Either::Right(ue))),
            Ok((chars, _vlen)) => {
                match inner.feed(chars.as_slice()) {
                    Err(e) => Err(e.map_custom(tag_left)),
                    Ok(u) => {
                        let Update { consumed, outcome } = u;
                        let nbytes = utf8_len_of(buffer, consumed);
                        match outcome {
                            Outcome::Next(p2) => {
                                proof {
                                    let scanb = utf8_scan_chars(buffer@);
                                    lemma_scan_skip(buffer@, consumed as int);
                                    assert forall|b2: Seq<u8>|
                                        retains(buffer@, nbytes as int, b2) implies <IntoUtf8Parser<
                                        P,
                                    > as ParserCore<u8>>::ok_input(
                                        &(IntoUtf8Parser { inner: p2 }),
                                        b2,
                                    ) by {
                                        lemma_scan_mono(buffer@.skip(nbytes as int), b2);
                                        assert(retains(scanb, consumed as int, utf8_scan_chars(b2)));
                                    }
                                }
                                Ok(
                                    Update {
                                        consumed: nbytes,
                                        outcome: Outcome::Next(IntoUtf8Parser { inner: p2 }),
                                    },
                                )
                            },
                            Outcome::Parsed(x) => {
                                proof {
                                    assert forall|b2: Seq<u8>|
                                        retains(buffer@, nbytes as int, b2) implies <IntoUtf8Parser<
                                        P,
                                    > as ParserCore<u8>>::ok_output(x, b2) by {}
                                }
                                Ok(Update { consumed: nbytes, outcome: Outcome::Parsed(x) })
                            },
                        }
                    },
                }
            },
        }
    }

    /// Resolve at the end of input: a dangling, incomplete character in the
    /// remainder is always [`ParseError::ExpectedMoreInput`], never silently
    /// dropped; only a cleanly decodable remainder is handed to the inner
    /// parser to finalize.
    fn finalize(self, buffer: &[u8]) -> (r: ParseResult<
        Option<P::Output>,
        Either<P::Error, Utf8Error>,
    >)
        ensures
            !utf8_straddle(buffer@.skip(utf8_prefix_len(buffer@))) ==> (r matches Err(pe) && (
            pe matches ParseError::Custom(ce) && (ce matches Either::Right(ue)
                && ue.valid_up_to == utf8_prefix_len(buffer@)))),
            utf8_straddle(buffer@.skip(utf8_prefix_len(buffer@))) && utf8_prefix_len(buffer@)
                < buffer@.len() ==> (r matches Err(pe) && pe matches ParseError::ExpectedMoreInput),
            utf8_prefix_len(buffer@) == buffer@.len() ==> exists|
                cs: &[char],
                fr: ParseResult<Option<P::Output>, P::Error>,
            |
                {
                    &&& cs@ == utf8_scan_chars(buffer@)
                    &&& call_ensures(P::finalize, (self.inner_spec(), cs), fr)
                    &&& (fr matches Err(e) ==> r matches Err(pe) && err_tagged_left(e, pe))
                    &&& (fr matches Ok(o) ==> r matches Ok(o2) && o2 == o)
                },
    {
        let IntoUtf8Parser { inner } = self;
        match from_utf8_partial(buffer) {
            Err(ue) => Err(ParseError::Custom(Either::Right(ue))),
            Ok((chars, vlen)) => {
                if vlen < buffer.len() {
                    Err(ParseError::ExpectedMoreInput)
                } else {
                    match inner.finalize(chars.as_slice()) {
                        Err(e) => Err(e.map_custom(tag_left)),
                        Ok(o) => Ok(o),
                    }
                }
            },
        }
    }
}

} // verus!
