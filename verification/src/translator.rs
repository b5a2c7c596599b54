//! The orchestrator: split the sentence into tokens, run each token's word
//! body and punctuation mark through their transformers, optionally append
//! the interlude fragment, and reassemble with single-space separators.

use vstd::prelude::*;
use crate::punct::{
    is_punct_result, lemma_split_body_nonempty, split_token, split_token_spec,
    translate_punctuation,
};
use crate::random::is_one_percent_chance;
use crate::strings::{joined, split_spaces, split_spaces_str, trim_spec, trim_str};
use crate::table::RuleTable;
use crate::word::{add_interlude, is_word_result, translate_word};

verus! {

/// What one token may become: nothing for an empty token; otherwise a word
/// rendering for its split body, the interlude fragment perhaps in between,
/// followed by a punctuation rendering for its split mark.
pub open spec fn is_token_result(t: RuleTable, tok: Seq<char>, piece: Seq<char>) -> bool {
    if tok.len() == 0 {
        piece == Seq::<char>::empty()
    } else {
        exists|w: Seq<char>, p: Seq<char>|
            #![trigger is_word_result(t, split_token_spec(tok).0, w), is_punct_result(t, split_token_spec(tok).1, p)]
            {
                &&& is_word_result(t, split_token_spec(tok).0, w)
                &&& is_punct_result(t, split_token_spec(tok).1, p)
                &&& (piece == w + p || (t.interlude is Some && piece == w + t.interlude->0@
                    + p))
            }
    }
}

/// What a whole translation may be: the empty string for empty input, and
/// otherwise the trimmed join of one rendering per input token, in input
/// order, separated by single spaces.
pub open spec fn is_translation(t: RuleTable, input: Seq<char>, out: Seq<char>) -> bool {
    if input.len() == 0 {
        out == Seq::<char>::empty()
    } else {
        exists|pieces: Seq<Seq<char>>|
            #![trigger joined(pieces)]
            {
                &&& pieces.len() == split_spaces(input).len()
                &&& (forall|i: int|
                    0 <= i < pieces.len() ==> is_token_result(
                        t,
                        split_spaces(input)[i],
                        #[trigger] pieces[i],
                    ))
                &&& out == trim_spec(joined(pieces))
            }
    }
}

/// Translate one sentence under a validated rule table.
pub fn translate(original: &str, table: &RuleTable) -> (out: String)
    requires
        table.wf(),
    ensures
        is_translation(*table, original@, out@),
        original@.len() == 0 ==> out@ == Seq::<char>::empty(),
{
    if original.unicode_len() == 0 {
        return String::new();
    }
    let toks = split_spaces_str(original);
    let tn: usize = toks.len();
    let mut meddl = String::new();
    let ghost mut pieces: Seq<Seq<char>> = Seq::empty();
    let mut idx: usize = 0;
    while idx < tn
        invariant
            table.wf(),
            tn == toks@.len(),
            toks.deep_view() == split_spaces(original@),
            idx <= tn,
            pieces.len() == idx as int,
            forall|i: int|
                0 <= i < idx ==> is_token_result(*table, toks.deep_view()[i], #[trigger] pieces[i]),
            meddl@ == joined(pieces),
        decreases tn - idx,
    {
        let tok: &String = &toks[idx];
        let piece: String;
        if tok.as_str().unicode_len() == 0 {
            piece = String::new();
        } else {
            let bp = split_token(tok.as_str());
            proof {
                lemma_split_body_nonempty(tok@);
            }
            let tw = translate_word(bp.0.as_str(), table);
            let tp = translate_punctuation(bp.1.as_str(), table);
            let mut decorated = tw;
            let fire = match &table.interlude {
                Some(_) => is_one_percent_chance(),
                None => false,
            };
            if fire {
                decorated = add_interlude(decorated.as_str(), table);
            }
            decorated.append(tp.as_str());
            piece = decorated;
            proof {
                assert(is_token_result(*table, tok@, piece@));
            }
        }
        meddl.append(piece.as_str());
        meddl.append(" ");
        proof {
            let ghost prev = pieces;
            pieces = pieces.push(piece@);
            assert(pieces.drop_last() =~~= prev);
            assert(pieces.last() == piece@);
            reveal_strlit(" ");
            assert(" "@ =~= seq![' ']);
            assert(meddl@ == joined(pieces));
        }
        idx = idx + 1;
    }
    let out = trim_str(meddl.as_str());
    proof {
        assert(is_translation(*table, original@, out@));
    }
    out
}

} // verus!
