//! Composable, input-agnostic "push parsers".
//!
//! A push parser is fed successive chunks of input and either reports an
//! updated parser state or a completed value.  The same parser definition can
//! be driven by blocking reads, buffered reads, or fully in-memory data; the
//! engine itself performs no input or output.
//!
//! The fundamental operations come from [`parser::ParserCore`]: `feed` offers
//! a chunk of input to a parser and yields an [`parser::Update`], which tells
//! the driver how many input units were consumed and whether an output was
//! produced; `finalize` signals the end of input together with the final
//! unconsumed remainder.
//!
//! A driver must keep every unconsumed input unit available: whatever `feed`
//! did not consume has to appear again, from position zero, in the next call.
//! [`buffer::BufferManager`] maintains exactly this discipline for byte input.

pub mod buffer;
pub mod combinator;
pub mod either;
pub mod error;
pub mod parser;
pub mod primitive;
pub mod sequence;
