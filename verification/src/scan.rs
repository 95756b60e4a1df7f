//! Small verified text-scanning helpers: trimming, prefix tests, and finding
//! a character, used by the freshness policies and the runtime parser.

use vstd::prelude::*;

use crate::text::str_chars;

verus! {

pub open spec fn is_space(c: char) -> bool {
    c == ' ' || c == '\t' || c == '\r' || c == '\n'
}

/// The string without its leading whitespace.
pub open spec fn spec_trim_front(s: Seq<char>) -> Seq<char>
    decreases s.len(),
{
    if s.len() > 0 && is_space(s.first()) {
        spec_trim_front(s.drop_first())
    } else {
        s
    }
}

/// The string without its trailing whitespace.
pub open spec fn spec_trim_back(s: Seq<char>) -> Seq<char>
    decreases s.len(),
{
    if s.len() > 0 && is_space(s.last()) {
        spec_trim_back(s.drop_last())
    } else {
        s
    }
}

/// The string without leading and trailing whitespace.
pub open spec fn spec_trim(s: Seq<char>) -> Seq<char> {
    spec_trim_back(spec_trim_front(s))
}

/// A whitespace-free prefix leaves `spec_trim_front` working on the suffix.
proof fn lemma_trim_front_skip(s: Seq<char>, k: int)
    requires
        0 <= k <= s.len(),
        forall|j: int| 0 <= j < k ==> is_space(#[trigger] s[j]),
    ensures
        spec_trim_front(s) == spec_trim_front(s.skip(k)),
    decreases k,
{
    if k > 0 {
        assert(s.first() == s[0]);
        assert(s.drop_first() =~= s.skip(1));
        lemma_trim_front_skip(s.skip(1), k - 1);
        assert(s.skip(1).skip(k - 1) =~= s.skip(k));
    } else {
        assert(s.skip(0) =~= s);
    }
}

/// A whitespace-free suffix leaves `spec_trim_back` working on the prefix.
proof fn lemma_trim_back_take(s: Seq<char>, k: int)
    requires
        0 <= k <= s.len(),
        forall|j: int| k <= j < s.len() ==> is_space(#[trigger] s[j]),
    ensures
        spec_trim_back(s) == spec_trim_back(s.take(k)),
    decreases s.len() - k,
{
    if k < s.len() {
        assert(is_space(s.last()));
        assert(s.drop_last() =~= s.take(s.len() - 1));
        lemma_trim_back_take(s.take(s.len() - 1), k);
        assert(s.take(s.len() - 1).take(k) =~= s.take(k));
    } else {
        assert(s.take(k) =~= s);
    }
}

fn space_test(c: char) -> (r: bool)
    ensures
        r == is_space(c),
{
    c == ' ' || c == '\t' || c == '\r' || c == '\n'
}

/// The characters of `s` without leading and trailing whitespace.
pub fn trim_chars(s: &Vec<char>) -> (r: Vec<char>)
    ensures
        r@ == spec_trim(s@),
{
    let n = s.len();
    let mut lo: usize = 0;
    while lo < n && space_test(s[lo])
        invariant
            lo <= n,
            n == s@.len(),
            forall|j: int| 0 <= j < lo as int ==> is_space(#[trigger] s@[j]),
        decreases n - lo,
    {
        lo += 1;
    }
    proof {
        lemma_trim_front_skip(s@, lo as int);
        if lo < n {
            assert(s@.skip(lo as int).first() == s@[lo as int]);
        }
        assert(spec_trim_front(s@.skip(lo as int)) == s@.skip(lo as int));
    }
    let mut hi: usize = n;
    while hi > lo && space_test(s[hi - 1])
        invariant
            lo <= hi <= n,
            n == s@.len(),
            forall|j: int| 0 <= j < lo as int ==> is_space(#[trigger] s@[j]),
            forall|j: int| hi as int <= j < n as int ==> is_space(#[trigger] s@[j]),
        decreases hi,
    {
        hi -= 1;
    }
    proof {
        let t = s@.skip(lo as int);
        assert(forall|j: int|
            hi - lo <= j < t.len() ==> is_space(#[trigger] t[j]) && t[j] == s@[j + lo]);
        lemma_trim_back_take(t, hi - lo);
        let u = t.take(hi - lo);
        if hi > lo {
            assert(u.last() == s@[hi - 1]);
            assert(!is_space(u.last()));
        }
        assert(spec_trim_back(u) == u);
        assert(u =~= s@.subrange(lo as int, hi as int));
    }
    let mut out: Vec<char> = Vec::new();
    let mut i: usize = lo;
    while i < hi
        invariant
            lo <= i <= hi <= n,
            n == s@.len(),
            out@ == s@.subrange(lo as int, i as int),
        decreases hi - i,
    {
        out.push(s[i]);
        proof {
            assert(s@.subrange(lo as int, i + 1 as int) =~= s@.subrange(lo as int, i as int).push(
                s@[i as int],
            ));
        }
        i += 1;
    }
    out
}

/// Whether `p` is a prefix of `s`.
pub fn chars_have_prefix(s: &Vec<char>, p: &Vec<char>) -> (r: bool)
    ensures
        r == p@.is_prefix_of(s@),
{
    let m = p.len();
    if m > s.len() {
        proof {
            assert(!p@.is_prefix_of(s@));
        }
        return false;
    }
    let mut i: usize = 0;
    while i < m
        invariant
            i <= m,
            m == p@.len(),
            m <= s@.len(),
            forall|j: int| 0 <= j < i as int ==> s@[j] == p@[j],
        decreases m - i,
    {
        if s[i] != p[i] {
            proof {
                assert(s@.subrange(0, m as int)[i as int] == s@[i as int]);
                assert(!p@.is_prefix_of(s@));
            }
            return false;
        }
        i += 1;
    }
    proof {
        assert(p@ =~= s@.subrange(0, m as int));
    }
    true
}

/// The index of the first occurrence of `c` in `s`, or the length if absent.
pub open spec fn spec_char_index(s: Seq<char>, c: char) -> int
    decreases s.len(),
{
    if s.len() == 0 {
        0
    } else if s.first() == c {
        0
    } else {
        1 + spec_char_index(s.drop_first(), c)
    }
}

/// The first occurrence of `c` is exactly after its `c`-free prefix.
pub proof fn lemma_char_index_at(s: Seq<char>, c: char, k: int)
    requires
        0 <= k <= s.len(),
        forall|j: int| 0 <= j < k ==> s[j] != c,
        k == s.len() || s[k] == c,
    ensures
        spec_char_index(s, c) == k,
    decreases k,
{
    if s.len() == 0 {
    } else if k == 0 {
        assert(s.first() == s[0]);
    } else {
        assert(s.first() == s[0]);
        assert(s[0] != c);
        assert(s.drop_first() =~= s.skip(1));
        lemma_char_index_at(s.skip(1), c, k - 1);
    }
}

/// Finds the first occurrence of `c` in `s`, returning its index, or the
/// length of `s` if it does not occur.
pub fn find_char(s: &Vec<char>, c: char) -> (r: usize)
    ensures
        r as int == spec_char_index(s@, c),
        r <= s@.len(),
        r < s@.len() ==> s@[r as int] == c,
        forall|j: int| 0 <= j < r as int ==> s@[j] != c,
{
    let n = s.len();
    let mut i: usize = 0;
    while i < n && s[i] != c
        invariant
            i <= n,
            n == s@.len(),
            forall|j: int| 0 <= j < i as int ==> s@[j] != c,
        decreases n - i,
    {
        i += 1;
    }
    proof {
        lemma_char_index_at(s@, c, i as int);
    }
    i
}

/// Joins a directory and an entry name with the path separator.
pub fn path_join(a: &str, b: &str) -> (r: String)
    ensures
        r@ == a@ + "/"@ + b@,
{
    let mut s = a.to_owned();
    s.append("/");
    s.append(b);
    s
}

/// A single quote escaped for a shell-facing string; other characters stand
/// as themselves.
pub open spec fn esc_quote_char(c: char) -> Seq<char> {
    if c == '\'' {
        seq!['\\', '\'']
    } else {
        seq![c]
    }
}

/// The string with every single quote escaped.
pub open spec fn spec_escape_quotes(s: Seq<char>) -> Seq<char>
    decreases s.len(),
{
    if s.len() == 0 {
        Seq::empty()
    } else {
        spec_escape_quotes(s.drop_last()) + esc_quote_char(s.last())
    }
}

/// Escapes every single quote in the characters.
pub fn escape_quotes_chars(s: &Vec<char>) -> (r: Vec<char>)
    ensures
        r@ == spec_escape_quotes(s@),
{
    let n = s.len();
    let mut out: Vec<char> = Vec::new();
    let mut i: usize = 0;
    proof {
        assert(s@.take(0) =~= Seq::<char>::empty());
        assert(out@ =~= spec_escape_quotes(s@.take(0)));
    }
    while i < n
        invariant
            i <= n,
            n == s@.len(),
            out@ == spec_escape_quotes(s@.take(i as int)),
        decreases n - i,
    {
        let c = s[i];
        if c == '\'' {
            out.push('\\');
            out.push('\'');
        } else {
            out.push(c);
        }
        proof {
            assert(s@.take(i + 1 as int).drop_last() =~= s@.take(i as int));
            assert(s@.take(i + 1 as int).last() == s@[i as int]);
            assert(out@ =~= spec_escape_quotes(s@.take(i as int)) + esc_quote_char(s@[i as int]));
        }
        i += 1;
    }
    proof {
        assert(s@.take(n as int) =~= s@);
    }
    out
}

/// Pieces joined with a single separator character, without a trailing
/// separator.
pub open spec fn spec_join_sep(ls: Seq<Seq<char>>, sep: char) -> Seq<char>
    decreases ls.len(),
{
    if ls.len() == 0 {
        Seq::empty()
    } else if ls.len() == 1 {
        ls[0]
    } else {
        spec_join_sep(ls.drop_last(), sep) + seq![sep] + ls.last()
    }
}

/// Whether two character vectors hold the same characters.
pub fn chars_equal(a: &Vec<char>, b: &Vec<char>) -> (r: bool)
    ensures
        r == (a@ == b@),
{
    if a.len() != b.len() {
        return false;
    }
    let n = a.len();
    let mut i: usize = 0;
    while i < n
        invariant
            i <= n,
            n == a@.len() && n == b@.len(),
            forall|j: int| 0 <= j < i as int ==> a@[j] == b@[j],
        decreases n - i,
    {
        if a[i] != b[i] {
            return false;
        }
        i += 1;
    }
    proof {
        assert(a@ =~= b@);
    }
    true
}

/// Whether two strings hold the same characters.
pub fn str_eq(a: &str, b: &str) -> (r: bool)
    ensures
        r == (a@ == b@),
{
    let ca = str_chars(a);
    let cb = str_chars(b);
    chars_equal(&ca, &cb)
}

} // verus!
