//! Case folding and capitalization.  The Unicode case mappings live in the
//! standard library; they are functions of their argument alone and are given
//! names here, so that contracts can speak about them exactly.

use vstd::prelude::*;

verus! {

/// The Unicode lowercase mapping of a string, character by character.
pub uninterp spec fn lower_of(s: Seq<char>) -> Seq<char>;

/// Relies on str::to_lowercase: the lowercase mapping of the input, a
/// function of its characters alone.
#[verifier::external_body]
pub fn lowercase(s: &str) -> (r: String)
    ensures
        r@ == lower_of(s@),
{
    s.to_lowercase()
}

/// The Unicode uppercase mapping of one character, possibly several
/// characters long.
pub uninterp spec fn upper_of(c: char) -> Seq<char>;

/// Relies on char::to_uppercase: the uppercase mapping of the character, a
/// function of that character alone.
#[verifier::external_body]
pub fn char_to_uppercase(c: char) -> (r: String)
    ensures
        r@ == upper_of(c),
{
    c.to_uppercase().collect()
}

/// Whether a character counts as upper-case.
pub uninterp spec fn is_upper(c: char) -> bool;

/// Relies on char::is_uppercase: whether the character has the Unicode
/// uppercase property, a function of that character alone.
#[verifier::external_body]
pub fn char_is_uppercase(c: char) -> (r: bool)
    ensures
        r == is_upper(c),
{
    c.is_uppercase()
}

/// Upper-case exactly the first character of a non-empty word (one character
/// may expand to several) and keep the remainder unchanged.
pub fn capitalize_word(word: &str) -> (out: String)
    requires
        word@.len() > 0,
    ensures
        out@ == upper_of(word@[0]) + word@.skip(1),
{
    let n: usize = word.unicode_len();
    let mut out = char_to_uppercase(word.get_char(0));
    out.append(word.substring_char(1, n));
    proof {
        assert(word@.subrange(1, n as int) =~= word@.skip(1));
    }
    out
}

} // verus!
