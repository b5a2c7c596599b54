//! The word transformer: the ordered rule chain applied to one word body.
//! Quotation substitution, ignore-list short-circuit, dictionary override,
//! suffix rewrite, case fold, prefix rewrite, substring twists and
//! capitalization restore.

use vstd::prelude::*;
use crate::casing::{lower_of, upper_of, is_upper, lowercase, char_is_uppercase, capitalize_word};
use crate::random::get_random_index;
use crate::strings::{replace_all, replace_all_spec, starts_with_str, ends_with_str};
use crate::table::{RuleTable, is_ignored, dict_index, dict_index_from};

verus! {

/// The word after the leading double-quote character, if any, is replaced
/// once by the table's quotation replacement.
pub open spec fn quot_spec(t: RuleTable, w: Seq<char>) -> Seq<char> {
    if w.len() > 0 && w[0] == '"' {
        t.quotation_mark@ + w.skip(1)
    } else {
        w
    }
}

/// Replace one leading double-quote character by the table's replacement.
pub fn translate_quotation_marks(word: &str, table: &RuleTable) -> (out: String)
    ensures
        out@ == quot_spec(*table, word@),
{
    let n: usize = word.unicode_len();
    if n > 0 && word.get_char(0) == '"' {
        let mut out = table.quotation_mark.clone();
        out.append(word.substring_char(1, n));
        proof {
            assert(word@.subrange(1, n as int) =~= word@.skip(1));
        }
        out
    } else {
        word.to_owned()
    }
}

/// Whether the lower-case form of the word stands in the ignore list.
pub fn is_ignored_word(word: &str, table: &RuleTable) -> (r: bool)
    ensures
        r == is_ignored(*table, word@),
{
    let lw = lowercase(word);
    let n: usize = table.ignored_words.len();
    let mut i: usize = 0;
    while i < n
        invariant
            n == table.ignored_words@.len(),
            i <= n,
            lw@ == lower_of(word@),
            forall|j: int| 0 <= j < i ==> #[trigger] table.ignored_words@[j]@ != lower_of(word@),
        decreases n - i,
    {
        if table.ignored_words[i] == lw {
            return true;
        }
        i = i + 1;
    }
    false
}

/// One suffix rule: when the source word `w0` ends with the key, the running
/// result loses everything from the key's position onward and gains the
/// replacement; later rules overwrite what earlier ones produced there.
pub open spec fn suffix_step(w0: Seq<char>, t: Seq<char>, k: Seq<char>, v: Seq<char>) -> Seq<
    char,
> {
    if k.len() <= w0.len() && w0.subrange(w0.len() - k.len(), w0.len() as int) == k && w0.len()
        - k.len() <= t.len() {
        t.take(w0.len() - k.len()) + v
    } else {
        t
    }
}

/// The first `n` suffix rules applied in table order to `w0`.
pub open spec fn rewrite_suffixes_upto(
    w0: Seq<char>,
    pairs: Seq<(String, String)>,
    n: int,
) -> Seq<char>
    decreases n,
{
    if n <= 0 {
        w0
    } else {
        suffix_step(
            w0,
            rewrite_suffixes_upto(w0, pairs, n - 1),
            pairs[n - 1].0@,
            pairs[n - 1].1@,
        )
    }
}

/// Every matching suffix rule applied in table order.
pub open spec fn rewrite_suffixes(w0: Seq<char>, pairs: Seq<(String, String)>) -> Seq<char> {
    rewrite_suffixes_upto(w0, pairs, pairs.len() as int)
}

/// Apply every matching suffix rewrite, in table order, against the source
/// word.
pub fn twist_en(word: &str, table: &RuleTable) -> (out: String)
    ensures
        out@ == rewrite_suffixes(word@, table.suffix_rewrites@),
{
    let n: usize = table.suffix_rewrites.len();
    let wlen: usize = word.unicode_len();
    let mut out = word.to_owned();
    let mut i: usize = 0;
    while i < n
        invariant
            n == table.suffix_rewrites@.len(),
            i <= n,
            wlen == word@.len(),
            out@ == rewrite_suffixes_upto(word@, table.suffix_rewrites@, i as int),
        decreases n - i,
    {
        let klen: usize = table.suffix_rewrites[i].0.as_str().unicode_len();
        if ends_with_str(word, table.suffix_rewrites[i].0.as_str()) {
            let pos: usize = wlen - klen;
            let outlen: usize = out.as_str().unicode_len();
            if pos <= outlen {
                let mut rewritten = out.as_str().substring_char(0, pos).to_owned();
                rewritten.append(table.suffix_rewrites[i].1.as_str());
                proof {
                    assert(out@.subrange(0, pos as int) =~= out@.take(pos as int));
                }
                out = rewritten;
            }
        }
        i = i + 1;
    }
    out
}

/// The prefix rules scanned from index `i` onward: the first key the word
/// starts with is replaced once, and no later rule applies.
pub open spec fn rewrite_prefix_from(
    w: Seq<char>,
    pairs: Seq<(String, String)>,
    i: int,
) -> Seq<char>
    decreases pairs.len() - i,
{
    if i < 0 || i >= pairs.len() {
        w
    } else if pairs[i].0@.len() <= w.len() && w.subrange(0, pairs[i].0@.len() as int)
        == pairs[i].0@ {
        pairs[i].1@ + w.skip(pairs[i].0@.len() as int)
    } else {
        rewrite_prefix_from(w, pairs, i + 1)
    }
}

/// The first matching prefix rule applied once.
pub open spec fn rewrite_prefix(w: Seq<char>, pairs: Seq<(String, String)>) -> Seq<char> {
    rewrite_prefix_from(w, pairs, 0)
}

/// Replace the first matching prefix, scanning the rules in table order and
/// stopping at the first hit.
pub fn translate_beginning(word: &str, table: &RuleTable) -> (out: String)
    ensures
        out@ == rewrite_prefix(word@, table.prefix_rewrites@),
{
    let n: usize = table.prefix_rewrites.len();
    let wlen: usize = word.unicode_len();
    let mut i: usize = 0;
    while i < n
        invariant
            n == table.prefix_rewrites@.len(),
            i <= n,
            wlen == word@.len(),
            rewrite_prefix(word@, table.prefix_rewrites@) == rewrite_prefix_from(
                word@,
                table.prefix_rewrites@,
                i as int,
            ),
        decreases n - i,
    {
        if starts_with_str(word, table.prefix_rewrites[i].0.as_str()) {
            let klen: usize = table.prefix_rewrites[i].0.as_str().unicode_len();
            let mut out = table.prefix_rewrites[i].1.clone();
            out.append(word.substring_char(klen, wlen));
            proof {
                assert(word@.subrange(klen as int, wlen as int) =~= word@.skip(klen as int));
            }
            return out;
        }
        i = i + 1;
    }
    word.to_owned()
}

/// The first `n` substring twists applied in table order; each replaces
/// every occurrence of its key by its lower-cased value.
pub open spec fn twists_upto(w: Seq<char>, pairs: Seq<(String, String)>, n: int) -> Seq<char>
    decreases n,
{
    if n <= 0 {
        w
    } else {
        replace_all_spec(
            twists_upto(w, pairs, n - 1),
            pairs[n - 1].0@,
            lower_of(pairs[n - 1].1@),
        )
    }
}

/// Every substring twist applied in table order.
pub open spec fn twists(w: Seq<char>, pairs: Seq<(String, String)>) -> Seq<char> {
    twists_upto(w, pairs, pairs.len() as int)
}

/// Apply every substring twist in table order; later rules see, and may
/// re-twist, what earlier rules produced.
pub fn twist_chars(word: &str, table: &RuleTable) -> (out: String)
    ensures
        out@ == twists(word@, table.substring_twists@),
{
    let n: usize = table.substring_twists.len();
    let mut out = word.to_owned();
    let mut i: usize = 0;
    while i < n
        invariant
            n == table.substring_twists@.len(),
            i <= n,
            out@ == twists_upto(word@, table.substring_twists@, i as int),
        decreases n - i,
    {
        let lv = lowercase(table.substring_twists[i].1.as_str());
        out = replace_all(out.as_str(), table.substring_twists[i].0.as_str(), lv.as_str());
        i = i + 1;
    }
    out
}

/// Append the configured interlude fragment to a transformed word.
pub fn add_interlude(word: &str, table: &RuleTable) -> (out: String)
    requires
        table.interlude is Some,
    ensures
        out@ == word@ + table.interlude->0@,
{
    let mut out = word.to_owned();
    match &table.interlude {
        Some(fragment) => {
            out.append(fragment.as_str());
        },
        None => {
            proof {
                assert(false);
            }
        },
    }
    out
}

/// The middle of the chain: dictionary override (the candidate at `pick`)
/// or suffix rewrite, then case fold, prefix rewrite and substring twists.
pub open spec fn core_result(t: RuleTable, w1: Seq<char>, pick: int) -> Seq<char> {
    let d = dict_index(t.dictionary@, w1);
    let w2 = if d >= 0 {
        t.dictionary@[d].1@[pick]@
    } else {
        rewrite_suffixes(w1, t.suffix_rewrites@)
    };
    twists(rewrite_prefix(lower_of(w2), t.prefix_rewrites@), t.substring_twists@)
}

/// The whole word chain: quotation substitution, ignore short-circuit, the
/// core chain, and capitalization restore when the input word began with an
/// upper-case character.
pub open spec fn word_result(t: RuleTable, w: Seq<char>, pick: int) -> Seq<char> {
    let w1 = quot_spec(t, w);
    if is_ignored(t, w1) {
        w1
    } else {
        let w5 = core_result(t, w1, pick);
        if w.len() > 0 && is_upper(w[0]) && w5.len() > 0 {
            upper_of(w5[0]) + w5.skip(1)
        } else {
            w5
        }
    }
}

/// A valid candidate choice: an index into the matched dictionary entry's
/// candidates, and 0 when no entry decides.
pub open spec fn pick_ok(t: RuleTable, w: Seq<char>, pick: int) -> bool {
    let w1 = quot_spec(t, w);
    let d = dict_index(t.dictionary@, w1);
    if !is_ignored(t, w1) && d >= 0 {
        0 <= pick < t.dictionary@[d].1@.len()
    } else {
        pick == 0
    }
}

/// What a call of the word transformer may return: the chain's result for
/// some valid candidate choice.
pub open spec fn is_word_result(t: RuleTable, w: Seq<char>, out: Seq<char>) -> bool {
    exists|pick: int| #[trigger] pick_ok(t, w, pick) && out == word_result(t, w, pick)
}

/// Index of the first dictionary entry whose key equals `w`, if any.
fn find_dict(table: &RuleTable, w: &String) -> (r: Option<usize>)
    ensures
        match r {
            Some(i) => dict_index(table.dictionary@, w@) == i as int && (i as int)
                < table.dictionary@.len(),
            None => dict_index(table.dictionary@, w@) == -1,
        },
{
    let n: usize = table.dictionary.len();
    let mut i: usize = 0;
    while i < n
        invariant
            n == table.dictionary@.len(),
            i <= n,
            dict_index(table.dictionary@, w@) == dict_index_from(
                table.dictionary@,
                w@,
                i as int,
            ),
        decreases n - i,
    {
        if table.dictionary[i].0 == *w {
            return Some(i);
        }
        i = i + 1;
    }
    None
}

/// Run one non-empty word body through the whole rule chain.
pub fn translate_word(word: &str, table: &RuleTable) -> (out: String)
    requires
        word@.len() > 0,
        table.dictionary_wf(),
    ensures
        is_word_result(*table, word@, out@),
{
    let cap = char_is_uppercase(word.get_char(0));
    let w1 = translate_quotation_marks(word, table);
    if is_ignored_word(w1.as_str(), table) {
        proof {
            assert(pick_ok(*table, word@, 0));
            assert(w1@ == word_result(*table, word@, 0));
        }
        return w1;
    }
    let w2: String;
    let ghost mut pick: int = 0;
    match find_dict(table, &w1) {
        Some(i) => {
            let r = get_random_index(&table.dictionary[i].1);
            w2 = table.dictionary[i].1[r].clone();
            proof {
                pick = r as int;
            }
        },
        None => {
            w2 = twist_en(w1.as_str(), table);
        },
    }
    let w3 = lowercase(w2.as_str());
    let w4 = translate_beginning(w3.as_str(), table);
    let w5 = twist_chars(w4.as_str(), table);
    let out = if cap && w5.as_str().unicode_len() > 0 {
        capitalize_word(w5.as_str())
    } else {
        w5
    };
    proof {
        assert(pick_ok(*table, word@, pick));
        assert(out@ == word_result(*table, word@, pick));
    }
    out
}

} // verus!
