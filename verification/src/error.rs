//! Parse errors and result aliases.

mod perror;
mod resultext;
mod resupext;

pub use self::perror::err_tagged_left;
pub use self::perror::err_tagged_right;
pub use self::perror::ParseError;
pub use self::resultext::ParseResultExt;
pub use self::resupext::ParseResultUpdateExt;

use vstd::prelude::*;

verus! {

/// A type alias to shorten results whose error is a [`ParseError`].
pub type ParseResult<T, E> = Result<T, ParseError<E>>;

} // verus!
