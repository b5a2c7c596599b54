//! The punctuation side: splitting one token into word body and punctuation
//! mark, and re-rendering a recognized mark from its replacement pool.

use vstd::prelude::*;
use crate::random::get_random_index;
use crate::strings::{is_punct_char, punct_char, remove_char, remove_char_str};
use crate::table::RuleTable;

verus! {

/// Index of the first punctuation character in `s`, or -1 if there is none.
pub open spec fn first_punct(s: Seq<char>) -> int
    decreases s.len(),
{
    if s.len() == 0 {
        -1
    } else if is_punct_char(s[0]) {
        0
    } else {
        let r = first_punct(s.skip(1));
        if r == -1 {
            -1
        } else {
            r + 1
        }
    }
}

/// `first_punct` returns -1 exactly when no character is punctuation, and
/// otherwise the least punctuation index.
pub proof fn lemma_first_punct(s: Seq<char>)
    ensures
        first_punct(s) == -1 ==> forall|i: int| 0 <= i < s.len() ==> !is_punct_char(s[i]),
        first_punct(s) != -1 ==> {
            let r = first_punct(s);
            &&& 0 <= r < s.len()
            &&& is_punct_char(s[r])
            &&& forall|i: int| 0 <= i < r ==> !is_punct_char(s[i])
        },
    decreases s.len(),
{
    if s.len() > 0 && !is_punct_char(s[0]) {
        lemma_first_punct(s.skip(1));
        assert forall|i: int| 1 <= i < s.len() implies s[i] == s.skip(1)[i - 1] by {}
    }
}

/// How one token splits: the first punctuation character found is the mark,
/// and every occurrence of that exact character leaves the body.  If the
/// stripped body would be empty, the whole token is kept as the body and no
/// mark is reported.
pub open spec fn split_token_spec(tok: Seq<char>) -> (Seq<char>, Seq<char>) {
    let r = first_punct(tok);
    if r == -1 {
        (tok, Seq::<char>::empty())
    } else {
        let b = remove_char(tok, tok[r]);
        if b.len() == 0 {
            (tok, Seq::<char>::empty())
        } else {
            (b, seq![tok[r]])
        }
    }
}

/// A non-empty token always yields a non-empty word body.
pub proof fn lemma_split_body_nonempty(tok: Seq<char>)
    requires
        tok.len() > 0,
    ensures
        split_token_spec(tok).0.len() > 0,
{
}

/// Separate one token into its word body and punctuation mark.
pub fn split_token(tok: &str) -> (res: (String, String))
    ensures
        res.0@ == split_token_spec(tok@).0,
        res.1@ == split_token_spec(tok@).1,
{
    let n: usize = tok.unicode_len();
    let mut i: usize = 0;
    while i < n
        invariant
            n == tok@.len(),
            i <= n,
            forall|j: int| 0 <= j < i ==> !is_punct_char(#[trigger] tok@[j]),
        decreases n - i,
    {
        let c = tok.get_char(i);
        if punct_char(c) {
            proof {
                lemma_first_punct(tok@);
                assert(first_punct(tok@) == i as int);
            }
            let body = remove_char_str(tok, c);
            if body.as_str().unicode_len() == 0 {
                return (tok.to_owned(), String::new());
            } else {
                let mark = tok.substring_char(i, i + 1).to_owned();
                proof {
                    assert(tok@.subrange(i as int, i as int + 1) =~= seq![tok@[i as int]]);
                }
                return (body, mark);
            }
        }
        i = i + 1;
    }
    proof {
        lemma_first_punct(tok@);
    }
    (tok.to_owned(), String::new())
}

/// What the punctuation transformer may return: some pool entry for a
/// recognized mark, and the mark itself unchanged for anything else.
pub open spec fn is_punct_result(t: RuleTable, p: Seq<char>, out: Seq<char>) -> bool {
    if p == seq!['.'] {
        exists|i: int| 0 <= i < t.dot_pool@.len() && out == #[trigger] t.dot_pool@[i]@
    } else if p == seq!['!'] {
        exists|i: int| 0 <= i < t.exclamation_pool@.len() && out == #[trigger] t.exclamation_pool@[i]@
    } else if p == seq!['?'] {
        exists|i: int| 0 <= i < t.question_pool@.len() && out == #[trigger] t.question_pool@[i]@
    } else {
        out == p
    }
}

/// Re-render a punctuation mark: a random entry of the matching pool for
/// `.`, `!` and `?`, and the mark unchanged for every other mark, the empty
/// one included.
pub fn translate_punctuation(punctuation: &str, table: &RuleTable) -> (out: String)
    requires
        punctuation@ == seq!['.'] ==> table.dot_pool@.len() > 0,
        punctuation@ == seq!['!'] ==> table.exclamation_pool@.len() > 0,
        punctuation@ == seq!['?'] ==> table.question_pool@.len() > 0,
    ensures
        is_punct_result(*table, punctuation@, out@),
{
    if punctuation.unicode_len() == 1 {
        let c = punctuation.get_char(0);
        proof {
            assert(punctuation@ =~= seq![punctuation@[0]]);
        }
        if c == '.' {
            let i = get_random_index(&table.dot_pool);
            return table.dot_pool[i].clone();
        } else if c == '!' {
            let i = get_random_index(&table.exclamation_pool);
            return table.exclamation_pool[i].clone();
        } else if c == '?' {
            let i = get_random_index(&table.question_pool);
            return table.question_pool[i].clone();
        }
    }
    punctuation.to_owned()
}

} // verus!
