//! The rule table: an immutable, strongly typed record holding every
//! substitution rule.  Rewrite rules are ordered lists of pairs, so that
//! overlapping-rule precedence is deterministic.

use vstd::prelude::*;
use crate::casing::lower_of;

verus! {

/// All substitution data, loaded once and shared read-only by every call.
pub struct RuleTable {
    /// Exact word to its non-empty list of candidate replacements.
    pub dictionary: Vec<(String, Vec<String>)>,
    /// Ordered suffix rewrites, applied when the source word ends with the key.
    pub suffix_rewrites: Vec<(String, String)>,
    /// Ordered substring rewrites, each applied to every occurrence.
    pub substring_twists: Vec<(String, String)>,
    /// Ordered prefix rewrites; only the first matching key ever applies.
    pub prefix_rewrites: Vec<(String, String)>,
    /// Words exempt from every transformation, membership tested on the
    /// lower-cased word.
    pub ignored_words: Vec<String>,
    /// Replacement pool for a full stop.
    pub dot_pool: Vec<String>,
    /// Replacement pool for an exclamation mark.
    pub exclamation_pool: Vec<String>,
    /// Replacement pool for a question mark.
    pub question_pool: Vec<String>,
    /// Replacement for a leading double-quote character.
    pub quotation_mark: String,
    /// Optional decorative fragment appended to about one word in a hundred.
    pub interlude: Option<String>,
}

impl RuleTable {
    /// Every dictionary entry offers at least one candidate.
    pub open spec fn dictionary_wf(self) -> bool {
        forall|i: int|
            0 <= i < self.dictionary@.len() ==> #[trigger] self.dictionary@[i].1@.len() > 0
    }

    /// Each punctuation pool is non-empty.
    pub open spec fn pools_wf(self) -> bool {
        self.dot_pool@.len() > 0 && self.exclamation_pool@.len() > 0
            && self.question_pool@.len() > 0
    }

    /// A validated table: non-empty candidate lists and non-empty pools.
    /// An empty pool or an empty candidate list is a configuration error,
    /// caught when the table is built, never at translation time.
    pub open spec fn wf(self) -> bool {
        self.dictionary_wf() && self.pools_wf()
    }
}

/// Whether the lower-case form of `w` stands in the ignore list.
pub open spec fn is_ignored(t: RuleTable, w: Seq<char>) -> bool {
    exists|i: int|
        0 <= i < t.ignored_words@.len() && #[trigger] t.ignored_words@[i]@ == lower_of(w)
}

/// Index of the first dictionary entry at or after `i` whose key is exactly
/// `w`, or -1 when there is none.
pub open spec fn dict_index_from(dict: Seq<(String, Vec<String>)>, w: Seq<char>, i: int) -> int
    decreases dict.len() - i,
{
    if i < 0 || i >= dict.len() {
        -1
    } else if dict[i].0@ == w {
        i
    } else {
        dict_index_from(dict, w, i + 1)
    }
}

/// Index of the first dictionary entry whose key is exactly `w`, or -1.
pub open spec fn dict_index(dict: Seq<(String, Vec<String>)>, w: Seq<char>) -> int {
    dict_index_from(dict, w, 0)
}

} // verus!
