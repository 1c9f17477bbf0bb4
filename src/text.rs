//! Character classes and the scans over them that the signature parser uses.

use vstd::prelude::*;

verus! {

/// A class of characters that a scan runs over.
#[derive(Clone, Copy, Debug, PartialEq, Eq)]
pub enum CharClass {
    /// Characters with the Unicode `White_Space` property.
    Space,
    /// Every character without the `White_Space` property.
    NonSpace,
    /// Every character but the given one.
    Except(char),
}

/// The Unicode `White_Space` property, as `char::is_whitespace` tests it.
pub open spec fn is_space(c: char) -> bool {
    let x = c as u32;
    (0x09 <= x && x <= 0x0d) || x == 0x20 || x == 0x85 || x == 0xa0 || x == 0x1680 || (0x2000
        <= x && x <= 0x200a) || x == 0x2028 || x == 0x2029 || x == 0x202f || x == 0x205f || x
        == 0x3000
}

pub open spec fn in_class(c: char, k: CharClass) -> bool {
    match k {
        CharClass::Space => is_space(c),
        CharClass::NonSpace => !is_space(c),
        CharClass::Except(d) => c != d,
    }
}

/// Length of the longest prefix of `s` whose characters are all in `k`.
pub open spec fn prefix_len(s: Seq<char>, k: CharClass) -> nat
    decreases s.len(),
{
    if s.len() > 0 && in_class(s[0], k) {
        1 + prefix_len(s.drop_first(), k)
    } else {
        0
    }
}

/// Length of the longest suffix of `s` whose characters are all in `k`.
pub open spec fn suffix_len(s: Seq<char>, k: CharClass) -> nat
    decreases s.len(),
{
    if s.len() > 0 && in_class(s.last(), k) {
        1 + suffix_len(s.drop_last(), k)
    } else {
        0
    }
}

/// `s` without its leading and trailing white space.
pub open spec fn trim(s: Seq<char>) -> Seq<char> {
    let t = s.subrange(prefix_len(s, CharClass::Space) as int, s.len() as int);
    t.subrange(0, t.len() - suffix_len(t, CharClass::Space))
}

/// The first white-space-delimited token of `s`, empty where there is none.
pub open spec fn first_token(s: Seq<char>) -> Seq<char> {
    let t = s.subrange(prefix_len(s, CharClass::Space) as int, s.len() as int);
    t.subrange(0, prefix_len(t, CharClass::NonSpace) as int)
}

/// The last white-space-delimited token of `s`, empty where there is none.
pub open spec fn last_token(s: Seq<char>) -> Seq<char> {
    let t = s.subrange(0, s.len() - suffix_len(s, CharClass::Space));
    t.subrange(t.len() - suffix_len(t, CharClass::NonSpace), t.len() as int)
}

/// A prefix of length `n` is the longest one in `k` when all of it is in `k`
/// and the character after it, if any, is not.
pub proof fn lemma_prefix_len(s: Seq<char>, k: CharClass, n: int)
    requires
        0 <= n <= s.len(),
        forall|j: int| 0 <= j < n ==> in_class(#[trigger] s[j], k),
        n == s.len() || !in_class(s[n], k),
    ensures
        prefix_len(s, k) == n,
    decreases n,
{
    if n > 0 {
        let t = s.drop_first();
        assert forall|j: int| 0 <= j < n - 1 implies in_class(#[trigger] t[j], k) by {
            assert(t[j] == s[j + 1]);
        }
        if n < s.len() {
            assert(t[n - 1] == s[n]);
        }
        lemma_prefix_len(t, k, n - 1);
    }
}

/// A suffix of length `n` is the longest one in `k` when all of it is in `k`
/// and the character before it, if any, is not.
pub proof fn lemma_suffix_len(s: Seq<char>, k: CharClass, n: int)
    requires
        0 <= n <= s.len(),
        forall|j: int| s.len() - n <= j < s.len() ==> in_class(#[trigger] s[j], k),
        n == s.len() || !in_class(s[s.len() - n - 1], k),
    ensures
        suffix_len(s, k) == n,
    decreases n,
{
    if n > 0 {
        let t = s.drop_last();
        assert forall|j: int| t.len() - (n - 1) <= j < t.len() implies in_class(
            #[trigger] t[j],
            k,
        ) by {
            assert(t[j] == s[j]);
        }
        lemma_suffix_len(t, k, n - 1);
    }
}

/// The prefix that `prefix_len` measures lies in `k`; the character after it does not.
pub proof fn lemma_prefix_len_facts(s: Seq<char>, k: CharClass)
    ensures
        prefix_len(s, k) <= s.len(),
        forall|j: int| 0 <= j < prefix_len(s, k) ==> in_class(#[trigger] s[j], k),
        prefix_len(s, k) < s.len() ==> !in_class(s[prefix_len(s, k) as int], k),
    decreases s.len(),
{
    if s.len() > 0 && in_class(s[0], k) {
        let t = s.drop_first();
        lemma_prefix_len_facts(t, k);
        assert forall|j: int| 0 <= j < prefix_len(s, k) implies in_class(#[trigger] s[j], k) by {
            if j > 0 {
                assert(s[j] == t[j - 1]);
            }
        }
        if prefix_len(s, k) < s.len() {
            assert(s[prefix_len(s, k) as int] == t[prefix_len(t, k) as int]);
        }
    }
}

/// The suffix that `suffix_len` measures lies in `k`; the character before it does not.
pub proof fn lemma_suffix_len_facts(s: Seq<char>, k: CharClass)
    ensures
        suffix_len(s, k) <= s.len(),
        forall|j: int| s.len() - suffix_len(s, k) <= j < s.len() ==> in_class(#[trigger] s[j], k),
        suffix_len(s, k) < s.len() ==> !in_class(s[s.len() - suffix_len(s, k) - 1], k),
    decreases s.len(),
{
    if s.len() > 0 && in_class(s.last(), k) {
        let t = s.drop_last();
        lemma_suffix_len_facts(t, k);
        assert forall|j: int| s.len() - suffix_len(s, k) <= j < s.len() implies in_class(
            #[trigger] s[j],
            k,
        ) by {
            if j < s.len() - 1 {
                assert(s[j] == t[j]);
            }
        }
        if suffix_len(s, k) < s.len() {
            assert(s[s.len() - suffix_len(s, k) - 1] == t[t.len() - suffix_len(t, k) - 1]);
        }
    }
}

/// Whether `c` does not occur in `s`.
pub open spec fn free_of(s: Seq<char>, c: char) -> bool {
    forall|i: int| 0 <= i < s.len() ==> s[i] != c
}

/// Whether no character of `s` is white space.
pub open spec fn is_word(s: Seq<char>) -> bool {
    forall|i: int| 0 <= i < s.len() ==> !is_space(#[trigger] s[i])
}

/// The first token is a word made of characters of `s`.
pub proof fn lemma_first_token_facts(s: Seq<char>)
    ensures
        is_word(first_token(s)),
        forall|c: char| free_of(s, c) ==> free_of(first_token(s), c),
{
    let a = prefix_len(s, CharClass::Space);
    lemma_prefix_len_facts(s, CharClass::Space);
    let t = s.subrange(a as int, s.len() as int);
    lemma_prefix_len_facts(t, CharClass::NonSpace);
    let f = first_token(s);
    assert forall|i: int| 0 <= i < f.len() implies f[i] == s[a + i] && !is_space(
        #[trigger] f[i],
    ) by {
        assert(f[i] == t[i]);
        assert(in_class(t[i], CharClass::NonSpace));
    }
    assert forall|c: char| free_of(s, c) implies free_of(first_token(s), c) by {
        assert forall|i: int| 0 <= i < f.len() implies f[i] != c by {
            assert(f[i] == s[a + i]);
        }
    }
}

/// The last token is a word made of characters of `s`.
pub proof fn lemma_last_token_facts(s: Seq<char>)
    ensures
        is_word(last_token(s)),
        forall|c: char| free_of(s, c) ==> free_of(last_token(s), c),
{
    lemma_suffix_len_facts(s, CharClass::Space);
    let t = s.subrange(0, s.len() - suffix_len(s, CharClass::Space));
    lemma_suffix_len_facts(t, CharClass::NonSpace);
    let b = t.len() - suffix_len(t, CharClass::NonSpace);
    let l = last_token(s);
    assert forall|i: int| 0 <= i < l.len() implies l[i] == s[b + i] && !is_space(
        #[trigger] l[i],
    ) by {
        assert(l[i] == t[b + i]);
        assert(in_class(t[b + i], CharClass::NonSpace));
    }
    assert forall|c: char| free_of(s, c) implies free_of(last_token(s), c) by {
        assert forall|i: int| 0 <= i < l.len() implies l[i] != c by {
            assert(l[i] == s[b + i]);
        }
    }
}

/// A non-empty word is its own first token.
pub proof fn lemma_first_token_of_word(w: Seq<char>)
    requires
        w.len() > 0,
        is_word(w),
    ensures
        first_token(w) == w,
{
    lemma_prefix_len(w, CharClass::Space, 0);
    assert(w.subrange(0, w.len() as int) =~= w);
    assert forall|j: int| 0 <= j < w.len() implies in_class(#[trigger] w[j], CharClass::NonSpace) by {}
    lemma_prefix_len(w, CharClass::NonSpace, w.len() as int);
    assert(first_token(w) =~= w);
}

/// A word is its own last token.
pub proof fn lemma_last_token_of_word(w: Seq<char>)
    requires
        is_word(w),
    ensures
        last_token(w) == w,
{
    lemma_suffix_len(w, CharClass::Space, 0);
    assert(w.subrange(0, w.len() as int) =~= w);
    assert forall|j: int| 0 <= j < w.len() implies in_class(#[trigger] w[j], CharClass::NonSpace) by {}
    lemma_suffix_len(w, CharClass::NonSpace, w.len() as int);
    assert(last_token(w) =~= w);
}

/// Whether `c` is in `k`.
pub fn is_in_class(c: char, k: CharClass) -> (r: bool)
    ensures
        r == in_class(c, k),
{
    match k {
        CharClass::Space => is_space_char(c),
        CharClass::NonSpace => !is_space_char(c),
        CharClass::Except(d) => c != d,
    }
}

/// Whether `c` has the Unicode `White_Space` property.
pub fn is_space_char(c: char) -> (r: bool)
    ensures
        r == is_space(c),
{
    let x = c as u32;
    (0x09 <= x && x <= 0x0d) || x == 0x20 || x == 0x85 || x == 0xa0 || x == 0x1680 || (0x2000
        <= x && x <= 0x200a) || x == 0x2028 || x == 0x2029 || x == 0x202f || x == 0x205f || x
        == 0x3000
}

/// The first index at or after `lo` where the run of characters in `k` that
/// starts at `lo` ends, scanning no further than `hi`.
pub fn scan_forward(v: &Vec<char>, lo: usize, hi: usize, k: CharClass) -> (i: usize)
    requires
        lo <= hi <= v@.len(),
    ensures
        i == lo + prefix_len(v@.subrange(lo as int, hi as int), k),
        lo <= i <= hi,
{
    let mut i: usize = lo;
    while i < hi && is_in_class(v[i], k)
        invariant
            lo <= i <= hi,
            hi <= v@.len(),
            forall|j: int| lo <= j < i ==> in_class(#[trigger] v@[j], k),
        decreases hi - i,
    {
        i = i + 1;
    }
    proof {
        let s = v@.subrange(lo as int, hi as int);
        assert forall|j: int| 0 <= j < i - lo implies in_class(#[trigger] s[j], k) by {
            assert(s[j] == v@[lo + j]);
        }
        lemma_prefix_len(s, k, i - lo);
    }
    i
}

/// The index after which the run of characters in `k` that ends at `hi`
/// starts, scanning no further back than `lo`.
pub fn scan_backward(v: &Vec<char>, lo: usize, hi: usize, k: CharClass) -> (i: usize)
    requires
        lo <= hi <= v@.len(),
    ensures
        hi - i == suffix_len(v@.subrange(lo as int, hi as int), k),
        lo <= i <= hi,
{
    let mut i: usize = hi;
    while i > lo && is_in_class(v[i - 1], k)
        invariant
            lo <= i <= hi,
            hi <= v@.len(),
            forall|j: int| i <= j < hi ==> in_class(#[trigger] v@[j], k),
        decreases i - lo,
    {
        i = i - 1;
    }
    proof {
        let s = v@.subrange(lo as int, hi as int);
        assert forall|j: int| s.len() - (hi - i) <= j < s.len() implies in_class(
            #[trigger] s[j],
            k,
        ) by {
            assert(s[j] == v@[lo + j]);
        }
        if i > lo {
            assert(s[s.len() - (hi - i) - 1] == v@[i - 1]);
        }
        lemma_suffix_len(s, k, hi - i);
    }
    i
}

/// The characters of `s`, one element each.
pub fn chars_of(s: &str) -> (v: Vec<char>)
    ensures
        v@ == s@,
{
    let n = s.unicode_len();
    let mut v: Vec<char> = Vec::new();
    let mut i: usize = 0;
    while i < n
        invariant
            n == s@.len(),
            i <= n,
            v@ == s@.subrange(0, i as int),
        decreases n - i,
    {
        v.push(s.get_char(i));
        i = i + 1;
        assert(v@ =~= s@.subrange(0, i as int));
    }
    assert(v@ =~= s@);
    v
}

} // verus!
