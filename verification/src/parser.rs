//! The parser traits and the types they exchange with drivers.

mod base;
mod contract;
mod intoutf8;
mod outcome;
mod push;
mod text;
mod update;

pub use self::base::ParserBase;
pub use self::contract::lemma_retains_skip;
pub use self::contract::lemma_skip_skip;
pub use self::contract::retains;
pub use self::contract::ParserCore;
pub use self::intoutf8::from_utf8_partial;
pub use self::intoutf8::lemma_first_scalar_agree;
pub use self::intoutf8::lemma_len_upto_bound;
pub use self::intoutf8::lemma_len_upto_step;
pub use self::intoutf8::lemma_prefix_len_bound;
pub use self::intoutf8::lemma_scan_decode;
pub use self::intoutf8::lemma_scan_mono;
pub use self::intoutf8::IntoUtf8Parser;
pub use self::intoutf8::Utf8Error;
pub use self::intoutf8::utf8_len_upto;
pub use self::intoutf8::utf8_prefix_len;
pub use self::intoutf8::utf8_scan_chars;
pub use self::intoutf8::utf8_straddle;
pub use self::outcome::Outcome;
pub use self::push::PushParser;
pub use self::text::TextParser;
pub use self::update::Update;
