//! Verified text utilities for the line protocol: whitespace tokenization,
//! joining expression tokens, string equality and substring search.

use vstd::prelude::*;

verus! {

/// The whitespace characters that separate protocol tokens: the set that
/// carries the Unicode White_Space property, as `char::is_whitespace` has it.
pub open spec fn is_space(c: char) -> bool {
    ||| ('\u{0009}' <= c && c <= '\u{000d}')
    ||| c == ' '
    ||| c == '\u{0085}'
    ||| c == '\u{00a0}'
    ||| c == '\u{1680}'
    ||| ('\u{2000}' <= c && c <= '\u{200a}')
    ||| c == '\u{2028}'
    ||| c == '\u{2029}'
    ||| c == '\u{202f}'
    ||| c == '\u{205f}'
    ||| c == '\u{3000}'
}

/// Length of the leading run of non-space characters.
pub open spec fn run_len(s: Seq<char>) -> int
    decreases s.len(),
{
    if s.len() == 0 || is_space(s[0]) {
        0
    } else {
        1 + run_len(s.drop_first())
    }
}

pub proof fn lemma_run_len_bounds(s: Seq<char>)
    ensures
        0 <= run_len(s) <= s.len(),
        s.len() > 0 && !is_space(s[0]) ==> run_len(s) >= 1,
    decreases s.len(),
{
    if s.len() > 0 && !is_space(s[0]) {
        lemma_run_len_bounds(s.drop_first());
    }
}

/// The whitespace-separated tokens of a message, in order. Tokens are
/// maximal runs of non-space characters and are never empty.
pub open spec fn split_ws(s: Seq<char>) -> Seq<Seq<char>>
    decreases s.len(),
{
    if s.len() == 0 {
        Seq::empty()
    } else if is_space(s[0]) {
        split_ws(s.drop_first())
    } else {
        proof {
            lemma_run_len_bounds(s);
        }
        seq![s.take(run_len(s))] + split_ws(s.skip(run_len(s)))
    }
}

fn is_space_char(c: char) -> (r: bool)
    ensures
        r == is_space(c),
{
    ('\u{0009}' <= c && c <= '\u{000d}') || c == ' ' || c == '\u{0085}' || c == '\u{00a0}'
        || c == '\u{1680}' || ('\u{2000}' <= c && c <= '\u{200a}') || c == '\u{2028}'
        || c == '\u{2029}' || c == '\u{202f}' || c == '\u{205f}' || c == '\u{3000}'
}

/// Finds the end of the token that starts at `start`.
fn scan_token(s: &str, start: usize) -> (j: usize)
    requires
        start < s@.len(),
        !is_space(s@[start as int]),
    ensures
        start < j <= s@.len(),
        j - start == run_len(s@.skip(start as int)),
        forall|k: int| start <= k < j ==> !is_space(s@[k]),
        j < s@.len() ==> is_space(s@[j as int]),
{
    let n = s.unicode_len();
    let mut j = start;
    while j < n && !is_space_char(s.get_char(j))
        invariant
            start <= j <= n,
            n == s@.len(),
            start < s@.len(),
            !is_space(s@[start as int]),
            run_len(s@.skip(start as int)) == j - start + run_len(s@.skip(j as int)),
            forall|k: int| start <= k < j ==> !is_space(s@[k]),
        decreases n - j,
    {
        proof {
            assert(s@.skip(j as int).drop_first() =~= s@.skip(j + 1));
        }
        j += 1;
    }
    proof {
        if j == n {
            assert(s@.skip(j as int).len() == 0);
        }
    }
    j
}

/// Splits a message into its whitespace-separated tokens.
pub fn tokenize(s: &str) -> (toks: Vec<String>)
    ensures
        toks.deep_view() == split_ws(s@),
{
    let n = s.unicode_len();
    let mut toks: Vec<String> = Vec::new();
    let mut i: usize = 0;
    proof {
        assert(s@.skip(0) =~= s@);
        assert(toks.deep_view() =~= Seq::<Seq<char>>::empty());
        assert(toks.deep_view() + split_ws(s@) =~= split_ws(s@));
    }
    while i < n
        invariant
            i <= n,
            n == s@.len(),
            toks.deep_view() + split_ws(s@.skip(i as int)) == split_ws(s@),
        decreases n - i,
    {
        let c = s.get_char(i);
        if is_space_char(c) {
            proof {
                assert(s@.skip(i as int).drop_first() =~= s@.skip(i + 1));
            }
            i += 1;
        } else {
            let j = scan_token(s, i);
            let tok = s.substring_char(i, j).to_owned();
            proof {
                let rest = s@.skip(i as int);
                lemma_run_len_bounds(rest);
                assert(rest.take(run_len(rest)) =~= s@.subrange(i as int, j as int));
                assert(rest.skip(run_len(rest)) =~= s@.skip(j as int));
                assert((toks.deep_view().push(tok@)) =~= toks.deep_view() + seq![tok@]);
            }
            let ghost old_toks = toks.deep_view();
            toks.push(tok);
            proof {
                assert(toks.deep_view() =~= old_toks.push(tok@));
                assert(toks.deep_view() + split_ws(s@.skip(j as int)) =~= split_ws(s@));
            }
            i = j;
        }
    }
    proof {
        assert(s@.skip(n as int).len() == 0);
        assert(toks.deep_view() + split_ws(s@.skip(n as int)) =~= toks.deep_view());
    }
    toks
}

/// The tokens joined back into one expression string with single spaces.
pub open spec fn join_sp(parts: Seq<Seq<char>>) -> Seq<char>
    decreases parts.len(),
{
    if parts.len() == 0 {
        Seq::empty()
    } else if parts.len() == 1 {
        parts[0]
    } else {
        join_sp(parts.drop_last()) + seq![' '] + parts.last()
    }
}

/// Joins `toks[from..]` with single spaces.
pub fn join_from(toks: &Vec<String>, from: usize) -> (r: String)
    requires
        from < toks.len(),
    ensures
        r@ == join_sp(toks.deep_view().skip(from as int)),
{
    let mut s: String = toks[from].clone();
    let mut i = from + 1;
    proof {
        assert(toks.deep_view().subrange(from as int, from + 1) =~= seq![toks[from as int]@]);
    }
    while i < toks.len()
        invariant
            from < i <= toks.len(),
            s@ == join_sp(toks.deep_view().subrange(from as int, i as int)),
        decreases toks.len() - i,
    {
        s.append(" ");
        s.append(toks[i].as_str());
        proof {
            reveal_strlit(" ");
            let parts = toks.deep_view().subrange(from as int, i + 1);
            assert(parts.drop_last() =~= toks.deep_view().subrange(from as int, i as int));
            assert(" "@ =~= seq![' ']);
            assert(s@ == join_sp(parts));
        }
        i += 1;
    }
    proof {
        assert(toks.deep_view().subrange(from as int, toks.len() as int) =~= toks.deep_view().skip(
            from as int,
        ));
    }
    s
}

/// Character-for-character string equality.
pub fn str_eq(a: &str, b: &str) -> (r: bool)
    ensures
        r == (a@ == b@),
{
    let na = a.unicode_len();
    let nb = b.unicode_len();
    if na != nb {
        return false;
    }
    let mut i: usize = 0;
    while i < na
        invariant
            i <= na,
            na == a@.len() && na == b@.len(),
            forall|k: int| 0 <= k < i ==> a@[k] == b@[k],
        decreases na - i,
    {
        if a.get_char(i) != b.get_char(i) {
            return false;
        }
        i += 1;
    }
    proof {
        assert(a@ =~= b@);
    }
    true
}

/// `needle` occurs in `hay` starting at position `i`.
pub open spec fn matches_at(hay: Seq<char>, needle: Seq<char>, i: int) -> bool {
    0 <= i && i + needle.len() <= hay.len() && hay.subrange(i, i + needle.len()) == needle
}

/// `needle` occurs somewhere in `hay`.
pub open spec fn contains_sub(hay: Seq<char>, needle: Seq<char>) -> bool {
    exists|i: int| matches_at(hay, needle, i)
}

fn match_at(hay: &str, needle: &str, i: usize) -> (r: bool)
    requires
        i + needle@.len() <= hay@.len(),
    ensures
        r == matches_at(hay@, needle@, i as int),
{
    let hl = hay.unicode_len();
    let nl = needle.unicode_len();
    let mut j: usize = 0;
    while j < nl
        invariant
            j <= nl,
            nl == needle@.len(),
            hl == hay@.len(),
            i + nl <= hl,
            forall|k: int| 0 <= k < j ==> hay@[i + k] == needle@[k],
        decreases nl - j,
    {
        if hay.get_char(i + j) != needle.get_char(j) {
            proof {
                assert(hay@.subrange(i as int, i + nl)[j as int] != needle@[j as int]);
            }
            return false;
        }
        j += 1;
    }
    proof {
        assert(hay@.subrange(i as int, i + nl) =~= needle@);
    }
    true
}

/// Substring search: does `needle` occur anywhere in `hay`?
pub fn contains_str(hay: &str, needle: &str) -> (r: bool)
    ensures
        r == contains_sub(hay@, needle@),
{
    let hl = hay.unicode_len();
    let nl = needle.unicode_len();
    if nl > hl {
        proof {
            assert(forall|i: int| !matches_at(hay@, needle@, i));
        }
        return false;
    }
    if nl == 0 {
        proof {
            assert(hay@.subrange(0, 0) =~= needle@);
            assert(matches_at(hay@, needle@, 0));
        }
        return true;
    }
    let mut i: usize = 0;
    while i < hl - nl + 1
        invariant
            1 <= nl <= hl,
            hl == hay@.len() && nl == needle@.len(),
            i <= hl - nl + 1,
            forall|k: int| 0 <= k < i ==> !matches_at(hay@, needle@, k),
        decreases hl - nl + 1 - i,
    {
        if match_at(hay, needle, i) {
            return true;
        }
        i += 1;
    }
    proof {
        assert(forall|k: int| !matches_at(hay@, needle@, k));
    }
    false
}

/// Position of the first underscore, if any.
pub open spec fn has_underscore(s: Seq<char>) -> bool {
    exists|i: int| 0 <= i < s.len() && s[i] == '_'
}

/// Tests whether `s` holds an underscore.
pub fn has_underscore_str(s: &str) -> (r: bool)
    ensures
        r == has_underscore(s@),
{
    match find_underscore(s) {
        Some(i) => {
            proof {
                assert(0 <= i < s@.len() && s@[i as int] == '_');
            }
            true
        },
        None => false,
    }
}

/// Finds the first underscore in `s`.
pub fn find_underscore(s: &str) -> (r: Option<usize>)
    ensures
        match r {
            Some(i) => i < s@.len() && s@[i as int] == '_' && forall|k: int|
                0 <= k < i ==> s@[k] != '_',
            None => !has_underscore(s@),
        },
{
    let n = s.unicode_len();
    let mut i: usize = 0;
    while i < n
        invariant
            i <= n,
            n == s@.len(),
            forall|k: int| 0 <= k < i ==> s@[k] != '_',
        decreases n - i,
    {
        if s.get_char(i) == '_' {
            return Some(i);
        }
        i += 1;
    }
    None
}

} // verus!
