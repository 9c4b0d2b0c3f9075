//! Parsing sequences of items and reducing them into one aggregate.

mod collect;
mod foldl;
mod seqparser;

pub use self::collect::collect_drained;
pub use self::collect::Collect;
pub use self::foldl::fold_drained;
pub use self::foldl::folds;
pub use self::foldl::lemma_folds_snoc;
pub use self::foldl::Foldl;
pub use self::seqparser::drain_steps;
pub use self::seqparser::lemma_drain_steps_snoc;
pub use self::seqparser::SequenceParser;
