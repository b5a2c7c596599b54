//! Character-level string machinery: finding and removing characters,
//! prefix/suffix tests, substring replacement, splitting on spaces,
//! joining token renderings, and trimming whitespace at the ends.

use vstd::prelude::*;

verus! {

/// A character that the token splitter treats as punctuation.
pub open spec fn is_punct_char(c: char) -> bool {
    c == '.' || c == ',' || c == '\\' || c == '/' || c == '#' || c == '!' || c == '?'
        || c == '$' || c == '%' || c == '^' || c == '&' || c == '*' || c == ';' || c == ':'
        || c == '{' || c == '}' || c == '=' || c == '-' || c == '_' || c == '`' || c == '~'
        || c == '(' || c == ')'
}

/// Runtime membership test for the fixed punctuation set.
pub fn punct_char(c: char) -> (r: bool)
    ensures
        r == is_punct_char(c),
{
    c == '.' || c == ',' || c == '\\' || c == '/' || c == '#' || c == '!' || c == '?'
        || c == '$' || c == '%' || c == '^' || c == '&' || c == '*' || c == ';' || c == ':'
        || c == '{' || c == '}' || c == '=' || c == '-' || c == '_' || c == '`' || c == '~'
        || c == '(' || c == ')'
}

/// A whitespace character as the final trimming step understands it.
pub open spec fn is_ws_char(c: char) -> bool {
    c == ' ' || c == '\t' || c == '\n' || c == '\r'
}

/// Runtime membership test for the whitespace set.
pub fn ws_char(c: char) -> (r: bool)
    ensures
        r == is_ws_char(c),
{
    c == ' ' || c == '\t' || c == '\n' || c == '\r'
}

/// `s` with every occurrence of `c` removed.
pub open spec fn remove_char(s: Seq<char>, c: char) -> Seq<char>
    decreases s.len(),
{
    if s.len() == 0 {
        Seq::<char>::empty()
    } else if s.last() == c {
        remove_char(s.drop_last(), c)
    } else {
        remove_char(s.drop_last(), c).push(s.last())
    }
}

/// Runtime removal of every occurrence of one character.
pub fn remove_char_str(s: &str, c: char) -> (out: String)
    ensures
        out@ == remove_char(s@, c),
{
    let n: usize = s.unicode_len();
    let mut out = String::new();
    let mut i: usize = 0;
    while i < n
        invariant
            n == s@.len(),
            i <= n,
            out@ == remove_char(s@.take(i as int), c),
        decreases n - i,
    {
        proof {
            assert(s@.take(i as int + 1).drop_last() =~= s@.take(i as int));
            assert(s@.take(i as int + 1).last() == s@[i as int]);
        }
        if s.get_char(i) != c {
            out.append(s.substring_char(i, i + 1));
            proof {
                assert(s@.subrange(i as int, i as int + 1) =~= seq![s@[i as int]]);
            }
        }
        i = i + 1;
    }
    proof {
        assert(s@.take(n as int) =~= s@);
    }
    out
}

/// Whether the characters of `pat` stand in `s` beginning at index `i`.
pub fn matches_at(s: &str, i: usize, pat: &str) -> (r: bool)
    requires
        i + pat@.len() <= s@.len(),
    ensures
        r == (s@.subrange(i as int, i as int + pat@.len() as int) == pat@),
{
    let n: usize = s.unicode_len();
    let m: usize = pat.unicode_len();
    let mut j: usize = 0;
    while j < m
        invariant
            n == s@.len(),
            m == pat@.len(),
            i + m <= n,
            j <= m,
            forall|k: int| 0 <= k < j ==> s@[i + k] == pat@[k],
        decreases m - j,
    {
        if s.get_char(i + j) != pat.get_char(j) {
            proof {
                assert(s@.subrange(i as int, i as int + m as int)[j as int] == s@[i + j as int]);
            }
            return false;
        }
        j = j + 1;
    }
    proof {
        assert(s@.subrange(i as int, i as int + m as int) =~= pat@);
    }
    true
}

/// Whether `p` is a prefix of `s`.
pub fn starts_with_str(s: &str, p: &str) -> (r: bool)
    ensures
        r == (p@.len() <= s@.len() && s@.subrange(0, p@.len() as int) == p@),
{
    let n: usize = s.unicode_len();
    let m: usize = p.unicode_len();
    if m > n {
        return false;
    }
    matches_at(s, 0, p)
}

/// Whether `p` is a suffix of `s`.
pub fn ends_with_str(s: &str, p: &str) -> (r: bool)
    ensures
        r == (p@.len() <= s@.len() && s@.subrange(s@.len() - p@.len(), s@.len() as int) == p@),
{
    let n: usize = s.unicode_len();
    let m: usize = p.unicode_len();
    if m > n {
        return false;
    }
    matches_at(s, n - m, p)
}

/// `s` with every non-overlapping occurrence of `pat` replaced by `rep`,
/// scanning left to right.  An empty pattern replaces nothing.
pub open spec fn replace_all_spec(s: Seq<char>, pat: Seq<char>, rep: Seq<char>) -> Seq<char>
    decreases s.len(),
{
    if pat.len() == 0 || s.len() < pat.len() {
        s
    } else if s.subrange(0, pat.len() as int) == pat {
        rep + replace_all_spec(s.skip(pat.len() as int), pat, rep)
    } else {
        seq![s[0]] + replace_all_spec(s.skip(1), pat, rep)
    }
}

/// Runtime left-to-right replacement of every occurrence of `pat` by `rep`.
pub fn replace_all(s: &str, pat: &str, rep: &str) -> (out: String)
    ensures
        out@ == replace_all_spec(s@, pat@, rep@),
{
    let n: usize = s.unicode_len();
    let m: usize = pat.unicode_len();
    if m == 0 {
        return String::from_str(s);
    }
    let mut out = String::new();
    let mut i: usize = 0;
    proof {
        assert(s@.skip(0) =~= s@);
    }
    while m <= n - i && i <= n
        invariant
            1 <= m == pat@.len(),
            n == s@.len(),
            i <= n,
            replace_all_spec(s@, pat@, rep@) == out@ + replace_all_spec(
                s@.skip(i as int),
                pat@,
                rep@,
            ),
        decreases n - i,
    {
        proof {
            assert(s@.skip(i as int).subrange(0, m as int) =~= s@.subrange(
                i as int,
                i as int + m,
            ));
        }
        if matches_at(s, i, pat) {
            out.append(rep);
            proof {
                assert(s@.skip(i as int).skip(m as int) =~= s@.skip(i as int + m));
            }
            i = i + m;
        } else {
            out.append(s.substring_char(i, i + 1));
            proof {
                assert(s@.skip(i as int).skip(1) =~= s@.skip(i as int + 1));
                assert(s@.subrange(i as int, i as int + 1) =~= seq![s@.skip(i as int)[0]]);
            }
            i = i + 1;
        }
    }
    out.append(s.substring_char(i, n));
    proof {
        assert(s@.skip(i as int) =~= s@.subrange(i as int, n as int));
    }
    out
}

/// The sentence split at every single space character; consecutive spaces
/// produce empty tokens and the ends are not trimmed.
pub open spec fn split_spaces(s: Seq<char>) -> Seq<Seq<char>>
    decreases s.len(),
{
    if s.len() == 0 {
        seq![Seq::<char>::empty()]
    } else if s.last() == ' ' {
        split_spaces(s.drop_last()).push(Seq::<char>::empty())
    } else {
        let r = split_spaces(s.drop_last());
        r.update(r.len() - 1, r.last().push(s.last()))
    }
}

/// Splitting always yields at least one token.
pub proof fn lemma_split_spaces_len(s: Seq<char>)
    ensures
        split_spaces(s).len() >= 1,
    decreases s.len(),
{
    if s.len() > 0 {
        lemma_split_spaces_len(s.drop_last());
    }
}

/// Runtime splitting of a sentence on the space character.
pub fn split_spaces_str(s: &str) -> (toks: Vec<String>)
    ensures
        toks.deep_view() == split_spaces(s@),
{
    let n: usize = s.unicode_len();
    let mut toks: Vec<String> = Vec::new();
    let mut cur = String::new();
    let mut i: usize = 0;
    proof {
        assert(s@.take(0) =~= Seq::<char>::empty());
        assert(toks.deep_view().push(cur@) =~~= split_spaces(s@.take(0)));
    }
    while i < n
        invariant
            n == s@.len(),
            i <= n,
            split_spaces(s@.take(i as int)) == toks.deep_view().push(cur@),
        decreases n - i,
    {
        proof {
            assert(s@.take(i as int + 1).drop_last() =~= s@.take(i as int));
            assert(s@.take(i as int + 1).last() == s@[i as int]);
            lemma_split_spaces_len(s@.take(i as int));
        }
        let ch = s.get_char(i);
        if ch == ' ' {
            let ghost old_toks = toks.deep_view();
            let ghost old_cur = cur@;
            toks.push(cur);
            cur = String::new();
            proof {
                assert(toks.deep_view() =~~= old_toks.push(old_cur));
                assert(split_spaces(s@.take(i as int + 1)) =~~= toks.deep_view().push(cur@));
            }
        } else {
            let ghost old_cur = cur@;
            cur.append(s.substring_char(i, i + 1));
            proof {
                assert(s@.subrange(i as int, i as int + 1) =~= seq![s@[i as int]]);
                assert(cur@ == old_cur.push(s@[i as int]));
                let r = split_spaces(s@.take(i as int));
                assert(r.last() == old_cur);
                assert(split_spaces(s@.take(i as int + 1)) =~~= toks.deep_view().push(cur@));
            }
        }
        i = i + 1;
    }
    let ghost old_toks = toks.deep_view();
    toks.push(cur);
    proof {
        assert(s@.take(n as int) =~= s@);
        assert(toks.deep_view() =~~= old_toks.push(cur@));
    }
    toks
}

/// The token renderings concatenated in order, each followed by one space.
pub open spec fn joined(pieces: Seq<Seq<char>>) -> Seq<char>
    decreases pieces.len(),
{
    if pieces.len() == 0 {
        Seq::<char>::empty()
    } else {
        joined(pieces.drop_last()) + pieces.last() + seq![' ']
    }
}

/// `s` with its leading run of whitespace removed.
pub open spec fn trim_front(s: Seq<char>) -> Seq<char>
    decreases s.len(),
{
    if s.len() > 0 && is_ws_char(s[0]) {
        trim_front(s.skip(1))
    } else {
        s
    }
}

/// `s` with its trailing run of whitespace removed.
pub open spec fn trim_back(s: Seq<char>) -> Seq<char>
    decreases s.len(),
{
    if s.len() > 0 && is_ws_char(s.last()) {
        trim_back(s.drop_last())
    } else {
        s
    }
}

/// `s` with one leading and one trailing run of whitespace removed.
pub open spec fn trim_spec(s: Seq<char>) -> Seq<char> {
    trim_back(trim_front(s))
}

/// Runtime trimming of leading and trailing whitespace.
pub fn trim_str(s: &str) -> (out: String)
    ensures
        out@ == trim_spec(s@),
{
    let n: usize = s.unicode_len();
    let mut a: usize = 0;
    proof {
        assert(s@.skip(0) =~= s@);
    }
    while a < n && ws_char(s.get_char(a))
        invariant
            n == s@.len(),
            a <= n,
            trim_front(s@) == trim_front(s@.skip(a as int)),
        decreases n - a,
    {
        proof {
            assert(s@.skip(a as int)[0] == s@[a as int]);
            assert(s@.skip(a as int).skip(1) =~= s@.skip(a as int + 1));
        }
        a = a + 1;
    }
    proof {
        if a < n {
            assert(trim_front(s@.skip(a as int)) == s@.skip(a as int));
        } else {
            assert(s@.skip(a as int) =~= Seq::<char>::empty());
        }
        assert(trim_front(s@) == s@.skip(a as int));
    }
    let mut b: usize = n;
    while b > a && ws_char(s.get_char(b - 1))
        invariant
            n == s@.len(),
            a <= b <= n,
            trim_front(s@) == s@.skip(a as int),
            trim_back(s@.skip(a as int)) == trim_back(s@.subrange(a as int, b as int)),
        decreases b,
    {
        proof {
            let t = s@.subrange(a as int, b as int);
            assert(t.last() == s@[b as int - 1]);
            assert(t.drop_last() =~= s@.subrange(a as int, b as int - 1));
        }
        b = b - 1;
    }
    proof {
        let t = s@.subrange(a as int, b as int);
        if b > a {
            assert(t.last() == s@[b as int - 1]);
            assert(trim_back(t) == t);
        } else {
            assert(t =~= Seq::<char>::empty());
        }
        assert(s@.skip(a as int) =~= s@.subrange(a as int, n as int));
    }
    s.substring_char(a, b).to_owned()
}

} // verus!
