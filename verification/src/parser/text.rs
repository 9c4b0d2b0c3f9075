use vstd::prelude::*;

use crate::parser::{IntoUtf8Parser, ParserCore};

verus! {

/// A [`TextParser`] natively parses characters and can be adapted to parse
/// UTF-8 bytes.
pub trait TextParser: ParserCore<char> {
    /// Adapt this parser over characters to one over UTF-8 bytes.
    fn into_utf8_parser(self) -> (r: IntoUtf8Parser<Self>)
        ensures
            r.inner_spec() == self,
    {
        IntoUtf8Parser::new(self)
    }
}

impl<T> TextParser for T where T: ParserCore<char> {

}

} // verus!
