//! Parsers that compose sub-parsers: sequencing, alternation, repetition,
//! speculation, and output conversion.

mod backtrack;
mod mapoutput;
mod optional;
mod or;
mod repeated;
mod then;

pub use self::backtrack::Backtrack;
pub use self::mapoutput::MapOutput;
pub use self::optional::Optional;
pub use self::or::first_failed;
pub use self::or::second_finalized;
pub use self::or::second_resolved;
pub use self::or::second_settled;
pub use self::or::Or;
pub use self::repeated::Repeated;
pub use self::then::Then;
