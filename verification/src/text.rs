//! Character-level text utilities: whitespace trimming, substring search,
//! and splitting a script into lines.
//!
//! Every executable function here carries a contract tying it to a spec
//! function over `Seq<char>`; the parser's state machine is stated over
//! those spec functions.

use vstd::prelude::*;

verus! {

/// Characters with the Unicode `White_Space` property: the set removed by
/// trimming a line at either end.
pub open spec fn is_space(c: char) -> bool {
    ||| c == '\t'
    ||| c == '\n'
    ||| c == '\u{b}'
    ||| c == '\u{c}'
    ||| c == '\r'
    ||| c == ' '
    ||| c == '\u{85}'
    ||| c == '\u{a0}'
    ||| c == '\u{1680}'
    ||| c == '\u{2000}'
    ||| c == '\u{2001}'
    ||| c == '\u{2002}'
    ||| c == '\u{2003}'
    ||| c == '\u{2004}'
    ||| c == '\u{2005}'
    ||| c == '\u{2006}'
    ||| c == '\u{2007}'
    ||| c == '\u{2008}'
    ||| c == '\u{2009}'
    ||| c == '\u{200a}'
    ||| c == '\u{2028}'
    ||| c == '\u{2029}'
    ||| c == '\u{202f}'
    ||| c == '\u{205f}'
    ||| c == '\u{3000}'
}

/// Executable test for [`is_space`].
pub fn space_char(c: char) -> (b: bool)
    ensures
        b == is_space(c),
{
    c == '\t' || c == '\n' || c == '\u{b}' || c == '\u{c}' || c == '\r' || c == ' '
        || c == '\u{85}' || c == '\u{a0}' || c == '\u{1680}' || c == '\u{2000}'
        || c == '\u{2001}' || c == '\u{2002}' || c == '\u{2003}' || c == '\u{2004}'
        || c == '\u{2005}' || c == '\u{2006}' || c == '\u{2007}' || c == '\u{2008}'
        || c == '\u{2009}' || c == '\u{200a}' || c == '\u{2028}' || c == '\u{2029}'
        || c == '\u{202f}' || c == '\u{205f}' || c == '\u{3000}'
}

/// The given sequence with leading whitespace removed.
pub open spec fn trim_front(s: Seq<char>) -> Seq<char>
    decreases s.len(),
{
    if s.len() > 0 && is_space(s[0]) {
        trim_front(s.drop_first())
    } else {
        s
    }
}

/// The given sequence with trailing whitespace removed.
pub open spec fn trim_back(s: Seq<char>) -> Seq<char>
    decreases s.len(),
{
    if s.len() > 0 && is_space(s.last()) {
        trim_back(s.drop_last())
    } else {
        s
    }
}

/// The given sequence with whitespace removed from both ends.
pub open spec fn trimmed(s: Seq<char>) -> Seq<char> {
    trim_back(trim_front(s))
}

/// Trims whitespace from both ends of a string slice.
pub fn trim_str(s: &str) -> (r: &str)
    ensures
        r@ == trimmed(s@),
{
    let n: usize = s.unicode_len();
    let mut a: usize = 0;
    proof {
        assert(s@.skip(0) =~= s@);
    }
    while a < n && space_char(s.get_char(a))
        invariant
            n == s@.len(),
            a <= n,
            trim_front(s@.skip(a as int)) == trim_front(s@),
        decreases n - a,
    {
        proof {
            assert(s@.skip(a as int).drop_first() =~= s@.skip(a + 1));
        }
        a = a + 1;
    }
    proof {
        if a == n {
            assert(s@.skip(a as int) =~= Seq::<char>::empty());
        }
        assert(trim_front(s@) =~= s@.subrange(a as int, n as int));
    }
    let mut b: usize = n;
    while b > a && space_char(s.get_char(b - 1))
        invariant
            n == s@.len(),
            a <= b <= n,
            trim_back(s@.subrange(a as int, b as int)) == trim_back(s@.subrange(
                a as int,
                n as int,
            )),
        decreases b,
    {
        proof {
            assert(s@.subrange(a as int, b as int).drop_last() =~= s@.subrange(a as int, b - 1));
        }
        b = b - 1;
    }
    proof {
        assert(trim_back(s@.subrange(a as int, b as int)) == s@.subrange(a as int, b as int));
    }
    s.substring_char(a, b)
}

/// `p` occurs in `s` starting at position `i`.
pub open spec fn match_at(s: Seq<char>, p: Seq<char>, i: int) -> bool {
    &&& 0 <= i
    &&& i + p.len() <= s.len()
    &&& forall|k: int| 0 <= k < p.len() ==> s[i + k] == p[k]
}

/// The first position at or after `i` where `p` occurs in `s`, if any.
pub open spec fn find_from(s: Seq<char>, p: Seq<char>, i: int) -> Option<int>
    decreases s.len() - i,
{
    if i < 0 || i + p.len() > s.len() {
        None
    } else if match_at(s, p, i) {
        Some(i)
    } else {
        find_from(s, p, i + 1)
    }
}

/// [`find_from`] returns the first match at or after `i`, or reports that
/// there is none.
pub proof fn lemma_find_from(s: Seq<char>, p: Seq<char>, i: int)
    requires
        0 <= i,
    ensures
        match find_from(s, p, i) {
            Some(j) => i <= j && match_at(s, p, j) && (forall|k: int|
                i <= k < j ==> !match_at(s, p, k)),
            None => forall|k: int| i <= k ==> !match_at(s, p, k),
        },
    decreases s.len() - i,
{
    if i + p.len() > s.len() {
    } else if match_at(s, p, i) {
    } else {
        lemma_find_from(s, p, i + 1);
    }
}

/// Whether `p` occurs in `s` at exactly position `i`.
pub fn match_here(s: &str, p: &str, i: usize) -> (b: bool)
    requires
        i + p@.len() <= s@.len(),
        s@.len() <= usize::MAX,
    ensures
        b == match_at(s@, p@, i as int),
{
    let m: usize = p.unicode_len();
    let mut k: usize = 0;
    while k < m
        invariant
            m == p@.len(),
            i + m <= s@.len() <= usize::MAX,
            k <= m,
            forall|q: int| 0 <= q < k ==> s@[i + q] == p@[q],
        decreases m - k,
    {
        if s.get_char(i + k) != p.get_char(k) {
            return false;
        }
        k = k + 1;
    }
    true
}

/// The first occurrence of `p` in `s` at or after position `from`.
pub fn find_sub(s: &str, p: &str, from: usize) -> (r: Option<usize>)
    requires
        from <= s@.len(),
        1 <= p@.len(),
    ensures
        match r {
            Some(j) => find_from(s@, p@, from as int) == Some(j as int),
            None => find_from(s@, p@, from as int) is None,
        },
{
    let n: usize = s.unicode_len();
    let m: usize = p.unicode_len();
    if m > n || from > n - m {
        return None;
    }
    let mut i: usize = from;
    while i <= n - m
        invariant
            n == s@.len(),
            m == p@.len(),
            1 <= m <= n,
            from <= i,
            i <= n - m + 1,
            find_from(s@, p@, from as int) == find_from(s@, p@, i as int),
        decreases n - i,
    {
        if match_here(s, p, i) {
            return Some(i);
        }
        i = i + 1;
    }
    None
}

/// Whether two string slices hold the same characters.
pub fn str_eq(a: &str, b: &str) -> (r: bool)
    ensures
        r == (a@ == b@),
{
    let n: usize = a.unicode_len();
    let m: usize = b.unicode_len();
    if n != m {
        return false;
    }
    let mut k: usize = 0;
    while k < n
        invariant
            n == a@.len(),
            n == b@.len(),
            k <= n,
            forall|q: int| 0 <= q < k ==> a@[q] == b@[q],
        decreases n - k,
    {
        if a.get_char(k) != b.get_char(k) {
            return false;
        }
        k = k + 1;
    }
    proof {
        assert(a@ =~= b@);
    }
    true
}

/// The one-character pattern that separates lines.
pub open spec fn nl_pat() -> Seq<char> {
    seq!['\n']
}

/// Removes a single trailing carriage return, as part of recognising a
/// `\r\n` line ending.
pub open spec fn strip_cr(l: Seq<char>) -> Seq<char> {
    if l.len() > 0 && l.last() == '\r' {
        l.drop_last()
    } else {
        l
    }
}

/// The lines of a script: pieces separated by `\n`, each with a trailing
/// `\r` removed when it stood before the `\n`.  A final piece without a
/// terminator is kept as it stands; a trailing terminator adds no empty
/// final line.
pub open spec fn lines_of(s: Seq<char>) -> Seq<Seq<char>>
    decreases s.len() via lines_of_decreases
{
    if s.len() == 0 {
        Seq::empty()
    } else {
        match find_from(s, nl_pat(), 0) {
            Some(i) => seq![strip_cr(s.subrange(0, i))] + lines_of(
                s.subrange(i + 1, s.len() as int),
            ),
            None => seq![s],
        }
    }
}

#[via_fn]
proof fn lines_of_decreases(s: Seq<char>) {
    if s.len() != 0 {
        lemma_find_from(s, nl_pat(), 0);
    }
}

/// Unfolds [`lines_of`] at the first line terminator of the suffix that
/// begins at `start`.
pub proof fn lemma_lines_of_step(s: Seq<char>, start: int, i: int)
    requires
        0 <= start <= i < s.len(),
        s[i] == '\n',
        forall|k: int| start <= k < i ==> s[k] != '\n',
    ensures
        lines_of(s.subrange(start, s.len() as int)) == seq![strip_cr(s.subrange(start, i))]
            + lines_of(s.subrange(i + 1, s.len() as int)),
{
    let t = s.subrange(start, s.len() as int);
    lemma_find_from(t, nl_pat(), 0);
    assert(match_at(t, nl_pat(), i - start));
    match find_from(t, nl_pat(), 0) {
        Some(j) => {
            assert(t[j] == nl_pat()[0]);
            assert(j == i - start);
            assert(t.subrange(0, j) =~= s.subrange(start, i));
            assert(t.subrange(j + 1, t.len() as int) =~= s.subrange(i + 1, s.len() as int));
        },
        None => {
            assert(false);
        },
    }
}

/// A suffix without line terminators is a single final line, or no line at
/// all when it is empty.
pub proof fn lemma_lines_of_tail(s: Seq<char>, start: int)
    requires
        0 <= start <= s.len(),
        forall|k: int| start <= k < s.len() ==> s[k] != '\n',
    ensures
        lines_of(s.subrange(start, s.len() as int)) == if start < s.len() {
            seq![s.subrange(start, s.len() as int)]
        } else {
            Seq::<Seq<char>>::empty()
        },
{
    let t = s.subrange(start, s.len() as int);
    lemma_find_from(t, nl_pat(), 0);
    match find_from(t, nl_pat(), 0) {
        Some(j) => {
            assert(t[j] == nl_pat()[0]);
            assert(false);
        },
        None => {
        },
    }
}

/// Splits a script into its lines, as [`lines_of`] describes.
pub fn split_lines(s: &str) -> (r: Vec<String>)
    ensures
        r.deep_view() == lines_of(s@),
{
    let n: usize = s.unicode_len();
    let mut out: Vec<String> = Vec::new();
    let mut start: usize = 0;
    let mut i: usize = 0;
    proof {
        assert(s@.subrange(0, n as int) =~= s@);
        assert(out.deep_view() + lines_of(s@) =~~= lines_of(s@));
    }
    while i < n
        invariant
            n == s@.len(),
            start <= i <= n,
            forall|k: int| start <= k < i ==> s@[k] != '\n',
            out.deep_view() + lines_of(s@.subrange(start as int, n as int)) == lines_of(s@),
        decreases n - i,
    {
        let c = s.get_char(i);
        if c == '\n' {
            let mut endx: usize = i;
            if endx > start && s.get_char(endx - 1) == '\r' {
                endx = endx - 1;
            }
            let piece = s.substring_char(start, endx);
            let ghost prev = out.deep_view();
            proof {
                lemma_lines_of_step(s@, start as int, i as int);
                if endx < i {
                    assert(s@.subrange(start as int, i as int).drop_last() =~= s@.subrange(
                        start as int,
                        endx as int,
                    ));
                }
                assert(strip_cr(s@.subrange(start as int, i as int)) == piece@);
            }
            out.push(String::from_str(piece));
            proof {
                assert(out.deep_view() =~~= prev.push(piece@));
                assert(out.deep_view() + lines_of(s@.subrange(i + 1, n as int)) =~~= prev + (seq![
                    piece@,
                ] + lines_of(s@.subrange(i + 1, n as int))));
            }
            start = i + 1;
        }
        i = i + 1;
    }
    proof {
        lemma_lines_of_tail(s@, start as int);
    }
    if start < n {
        let piece = s.substring_char(start, n);
        let ghost prev = out.deep_view();
        out.push(String::from_str(piece));
        proof {
            assert(out.deep_view() =~~= prev.push(piece@));
            assert(out.deep_view() =~~= prev + seq![piece@]);
        }
    }
    out
}

} // verus!
