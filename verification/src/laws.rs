//! Laws of the pipeline, stated over the same spec functions the contracts
//! use: the ignore list short-circuits the whole chain, capitalization is
//! restored exactly for capitalized inputs, only the first matching prefix
//! rule applies, and token structure survives translation.

use vstd::prelude::*;
use crate::casing::upper_of;
use crate::punct::{first_punct, lemma_first_punct, split_token_spec};
use crate::strings::{is_punct_char, is_ws_char, joined, split_spaces, trim_back, trim_front, trim_spec};
use crate::table::{RuleTable, is_ignored};
use crate::translator::{is_token_result, is_translation};
use crate::word::{
    core_result, pick_ok, quot_spec, rewrite_prefix, rewrite_prefix_from, word_result,
};

verus! {

/// A sentence without space characters splits into exactly one token.
proof fn lemma_split_spaces_no_space(s: Seq<char>)
    requires
        forall|i: int| 0 <= i < s.len() ==> s[i] != ' ',
    ensures
        split_spaces(s) == seq![s],
    decreases s.len(),
{
    if s.len() == 0 {
        assert(split_spaces(s) =~~= seq![s]);
    } else {
        lemma_split_spaces_no_space(s.drop_last());
        assert(s.drop_last().push(s.last()) =~= s);
        assert(split_spaces(s) =~~= seq![s]);
    }
}

/// Idempotence of the ignore list: a word on the ignore list comes back from
/// a whole translation exactly as it went in, whatever the dictionary and
/// twist rules would have done to it.  The word must be one token (no
/// whitespace), carry no punctuation character and no leading double quote,
/// and the table must have no interlude fragment configured, since that
/// fragment may decorate any word.
pub proof fn lemma_ignored_word_unchanged(t: RuleTable, w: Seq<char>, out: Seq<char>)
    requires
        t.interlude is None,
        w.len() > 0,
        forall|i: int|
            0 <= i < w.len() ==> !is_ws_char(#[trigger] w[i]) && !is_punct_char(w[i]),
        w[0] != '"',
        is_ignored(t, w),
        is_translation(t, w, out),
    ensures
        out == w,
{
    assert(forall|i: int| 0 <= i < w.len() ==> w[i] != ' ');
    lemma_split_spaces_no_space(w);
    let pieces = choose|pieces: Seq<Seq<char>>|
        #![trigger joined(pieces)]
        {
            &&& pieces.len() == split_spaces(w).len()
            &&& (forall|i: int|
                0 <= i < pieces.len() ==> is_token_result(t, split_spaces(w)[i], #[trigger] pieces[i]))
            &&& out == trim_spec(joined(pieces))
        };
    assert(pieces.len() == 1);
    assert(split_spaces(w)[0] == w);
    let piece = pieces[0];
    assert(is_token_result(t, w, piece));
    lemma_first_punct(w);
    if first_punct(w) != -1 {
        assert(is_punct_char(w[first_punct(w)]));
        assert(false);
    }
    assert(split_token_spec(w).0 == w);
    assert(split_token_spec(w).1 == Seq::<char>::empty());
    let (wr, pr) = choose|wr: Seq<char>, pr: Seq<char>|
        #![trigger crate::word::is_word_result(t, split_token_spec(w).0, wr), crate::punct::is_punct_result(t, split_token_spec(w).1, pr)]
        {
            &&& crate::word::is_word_result(t, split_token_spec(w).0, wr)
            &&& crate::punct::is_punct_result(t, split_token_spec(w).1, pr)
            &&& (piece == wr + pr || (t.interlude is Some && piece == wr + t.interlude->0@ + pr))
        };
    assert(crate::word::is_word_result(t, w, wr));
    let pick = choose|pick: int|
        #[trigger] pick_ok(t, w, pick) && wr == word_result(t, w, pick);
    assert(quot_spec(t, w) == w);
    assert(wr == w);
    assert(pr == Seq::<char>::empty());
    assert(piece == wr + pr);
    assert(piece =~= w);
    assert(pieces.drop_last() =~~= Seq::<Seq<char>>::empty());
    assert(joined(Seq::<Seq<char>>::empty()) == Seq::<char>::empty());
    assert(pieces.last() == piece);
    assert(joined(pieces) == joined(pieces.drop_last()) + pieces.last() + seq![' ']);
    assert(joined(pieces) =~= w + seq![' ']);
    assert((w + seq![' '])[0] == w[0]);
    assert(trim_front(w + seq![' ']) == w + seq![' ']);
    assert((w + seq![' ']).last() == ' ');
    assert((w + seq![' ']).drop_last() =~= w);
    assert(trim_back(w + seq![' ']) == trim_back(w));
    assert(w.last() != ' ' && !is_ws_char(w.last()));
    assert(trim_back(w) == w);
    assert(out == w);
}

/// Capitalization invariant, in its structural form: for a word that is not
/// on the ignore list, the capitalization-restore step runs exactly when the
/// first input character is upper-case — the result is the core chain's
/// output with its first character mapped through the uppercase mapping when
/// the input began upper-case, and the core chain's output untouched when it
/// did not.
pub proof fn lemma_capitalization_restore(t: RuleTable, w: Seq<char>, pick: int)
    requires
        w.len() > 0,
        !is_ignored(t, quot_spec(t, w)),
    ensures
        crate::casing::is_upper(w[0]) && core_result(t, quot_spec(t, w), pick).len() > 0
            ==> word_result(t, w, pick) == upper_of(core_result(t, quot_spec(t, w), pick)[0])
            + core_result(t, quot_spec(t, w), pick).skip(1),
        !crate::casing::is_upper(w[0]) ==> word_result(t, w, pick) == core_result(
            t,
            quot_spec(t, w),
            pick,
        ),
{
}

/// Helper for prefix exclusivity: scanning from `k`, with no match strictly
/// before `i`, the rule at `i` is the one applied.
proof fn lemma_prefix_from(w: Seq<char>, pairs: Seq<(String, String)>, i: int, k: int)
    requires
        0 <= k <= i < pairs.len(),
        pairs[i].0@.len() <= w.len() && w.subrange(0, pairs[i].0@.len() as int) == pairs[i].0@,
        forall|j: int|
            k <= j < i ==> !(pairs[j].0@.len() <= w.len() && w.subrange(
                0,
                #[trigger] pairs[j].0@.len() as int,
            ) == pairs[j].0@),
    ensures
        rewrite_prefix_from(w, pairs, k) == pairs[i].1@ + w.skip(pairs[i].0@.len() as int),
    decreases i - k,
{
    if k < i {
        lemma_prefix_from(w, pairs, i, k + 1);
    }
}

/// Prefix rule exclusivity: when several prefix rules match a word, exactly
/// one — the first in table order — is applied, and the rules after it do
/// not matter: the result equals the result under the table cut just past
/// the first matching rule.
pub proof fn lemma_prefix_first_match_wins(w: Seq<char>, pairs: Seq<(String, String)>, i: int)
    requires
        0 <= i < pairs.len(),
        pairs[i].0@.len() <= w.len() && w.subrange(0, pairs[i].0@.len() as int) == pairs[i].0@,
        forall|j: int|
            0 <= j < i ==> !(pairs[j].0@.len() <= w.len() && w.subrange(
                0,
                #[trigger] pairs[j].0@.len() as int,
            ) == pairs[j].0@),
    ensures
        rewrite_prefix(w, pairs) == pairs[i].1@ + w.skip(pairs[i].0@.len() as int),
        rewrite_prefix(w, pairs) == rewrite_prefix(w, pairs.take(i + 1)),
{
    lemma_prefix_from(w, pairs, i, 0);
    let cut = pairs.take(i + 1);
    assert(cut[i].0@ == pairs[i].0@ && cut[i].1@ == pairs[i].1@);
    lemma_prefix_from(w, cut, i, 0);
}

/// Appending a space-free tail to a sentence extends its last token.
proof fn lemma_split_append_nospace(b: Seq<char>, s: Seq<char>)
    requires
        forall|i: int| 0 <= i < s.len() ==> s[i] != ' ',
    ensures
        split_spaces(b + s) == split_spaces(b).update(
            split_spaces(b).len() - 1,
            split_spaces(b).last() + s,
        ),
    decreases s.len(),
{
    crate::strings::lemma_split_spaces_len(b);
    if s.len() == 0 {
        assert(b + s =~= b);
        assert(split_spaces(b).last() + s =~= split_spaces(b).last());
        assert(split_spaces(b).update(
            split_spaces(b).len() - 1,
            split_spaces(b).last() + s,
        ) =~~= split_spaces(b));
    } else {
        lemma_split_append_nospace(b, s.drop_last());
        let u = b + s.drop_last();
        assert(b + s =~= u.push(s.last()));
        assert((b + s).last() == s.last());
        assert((b + s).drop_last() =~= u);
        crate::strings::lemma_split_spaces_len(u);
        assert(split_spaces(b).last() + s.drop_last() + seq![s.last()] =~= split_spaces(b).last()
            + s);
        assert(split_spaces(b + s) =~~= split_spaces(b).update(
            split_spaces(b).len() - 1,
            split_spaces(b).last() + s,
        ));
    }
}

/// A sentence followed by one space gains one empty token.
proof fn lemma_split_append_space(b: Seq<char>)
    ensures
        split_spaces(b + seq![' ']) == split_spaces(b).push(Seq::<char>::empty()),
{
    assert((b + seq![' ']).last() == ' ');
    assert((b + seq![' ']).drop_last() =~= b);
    assert(split_spaces(b + seq![' ']) =~~= split_spaces(b).push(Seq::<char>::empty()));
}

/// The join of space-free renderings, without its trailing separator, splits
/// back into exactly those renderings.
proof fn lemma_split_joined(pieces: Seq<Seq<char>>)
    requires
        pieces.len() > 0,
        forall|i: int, j: int|
            0 <= i < pieces.len() && 0 <= j < pieces[i].len() ==> #[trigger] pieces[i][j] != ' ',
    ensures
        split_spaces(joined(pieces.drop_last()) + pieces.last()) == pieces,
    decreases pieces.len(),
{
    let dl = pieces.drop_last();
    let plast = pieces.last();
    if pieces.len() == 1 {
        assert(joined(dl) =~= Seq::<char>::empty());
        assert(joined(dl) + plast =~= plast);
        assert(Seq::<char>::empty() + plast =~= plast);
        lemma_split_append_nospace(Seq::<char>::empty(), plast);
        assert(split_spaces(Seq::<char>::empty()) =~~= seq![Seq::<char>::empty()]);
        assert(Seq::<char>::empty() + plast =~= plast);
        assert(split_spaces(plast) =~~= seq![plast]);
        assert(pieces =~~= seq![plast]);
    } else {
        lemma_split_joined(dl);
        let t = joined(dl.drop_last()) + dl.last();
        assert(joined(dl) =~= t + seq![' ']);
        lemma_split_append_space(t);
        assert(split_spaces(t + seq![' ']) =~~= dl.push(Seq::<char>::empty()));
        lemma_split_append_nospace(t + seq![' '], plast);
        crate::strings::lemma_split_spaces_len(t + seq![' ']);
        assert(joined(dl) + plast =~= (t + seq![' ']) + plast);
        assert(Seq::<char>::empty() + plast =~= plast);
        assert(split_spaces(joined(dl) + plast) =~~= pieces);
    }
}

/// The join of renderings begins with the first rendering's first character.
proof fn lemma_joined_head(pieces: Seq<Seq<char>>)
    requires
        pieces.len() > 0,
        pieces[0].len() > 0,
    ensures
        joined(pieces).len() > 0,
        joined(pieces)[0] == pieces[0][0],
    decreases pieces.len(),
{
    let dl = pieces.drop_last();
    if pieces.len() == 1 {
        assert(joined(dl) =~= Seq::<char>::empty());
        assert(joined(pieces)[0] == pieces.last()[0]);
    } else {
        lemma_joined_head(dl);
    }
}

/// Round-trip determinism of structure: when every rendering is free of
/// whitespace and the first and last renderings are non-empty, the trimmed,
/// space-joined output splits back into exactly one rendering per token, in
/// the original order — token count and relative order are preserved.
pub proof fn lemma_token_structure(pieces: Seq<Seq<char>>)
    requires
        pieces.len() > 0,
        forall|i: int, j: int|
            0 <= i < pieces.len() && 0 <= j < pieces[i].len() ==> !is_ws_char(
                #[trigger] pieces[i][j],
            ),
        pieces[0].len() > 0,
        pieces[pieces.len() - 1].len() > 0,
    ensures
        split_spaces(trim_spec(joined(pieces))) == pieces,
{
    let dl = pieces.drop_last();
    let plast = pieces.last();
    let m = joined(dl) + plast;
    let full = joined(pieces);
    assert(full =~= m + seq![' ']);
    lemma_joined_head(pieces);
    assert(full[0] == pieces[0][0]);
    assert(!is_ws_char(full[0]));
    assert(trim_front(full) == full);
    assert(full.last() == ' ');
    assert(full.drop_last() =~= m);
    assert(trim_back(full) == trim_back(m));
    assert(m.len() > 0 && m.last() == plast.last());
    assert(!is_ws_char(m.last()));
    assert(trim_back(m) == m);
    assert(trim_spec(full) == m);
    assert(forall|i: int, j: int|
        0 <= i < pieces.len() && 0 <= j < pieces[i].len() ==> #[trigger] pieces[i][j] != ' ');
    lemma_split_joined(pieces);
}

} // verus!
