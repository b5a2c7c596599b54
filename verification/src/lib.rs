//! A sentence-to-dialect rewriter: words are run through an ordered chain of
//! substitution rules (dictionary overrides, suffix, prefix and substring
//! rewrites), punctuation is re-rendered from replacement pools, and the
//! result is reassembled in input order.

pub mod casing;
pub mod laws;
pub mod punct;
pub mod random;
pub mod strings;
pub mod table;
pub mod translator;
pub mod word;

pub use casing::capitalize_word;
pub use table::RuleTable;
pub use translator::translate;
