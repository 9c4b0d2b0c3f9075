//! Primitive parsers: the building blocks that match input directly.

mod end;
mod literal;

pub use self::end::end;
pub use self::end::End;
pub use self::literal::lemma_literal_chunk_split;
pub use self::literal::lemma_literal_start;
pub use self::literal::lit_complete;
pub use self::literal::lit_matches;
pub use self::literal::lit_step;
pub use self::literal::literal;
pub use self::literal::Literal;
