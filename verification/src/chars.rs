//! Character-level helpers: Unicode white space, words, trimming.

use vstd::prelude::*;
use vstd::string::*;

verus! {

/// Unicode `White_Space` (what `char::is_whitespace` tests).
pub open spec fn is_ws(c: char) -> bool {
    ||| ('\u{9}' <= c && c <= '\u{d}')
    ||| c == ' '
    ||| c == '\u{85}'
    ||| c == '\u{a0}'
    ||| c == '\u{1680}'
    ||| ('\u{2000}' <= c && c <= '\u{200a}')
    ||| c == '\u{2028}'
    ||| c == '\u{2029}'
    ||| c == '\u{202f}'
    ||| c == '\u{205f}'
    ||| c == '\u{3000}'
}

/// Whether `c` is white space.
pub fn is_whitespace(c: char) -> (r: bool)
    ensures
        r == is_ws(c),
{
    ('\u{9}' <= c && c <= '\u{d}') || c == ' ' || c == '\u{85}' || c == '\u{a0}' || c == '\u{1680}'
        || ('\u{2000}' <= c && c <= '\u{200a}') || c == '\u{2028}' || c == '\u{2029}' || c
        == '\u{202f}' || c == '\u{205f}' || c == '\u{3000}'
}

/// The first index at or after `i` of a character that is not white space
/// (the length if there is none).
pub open spec fn skip_ws(s: Seq<char>, i: int) -> int
    decreases s.len() - i,
{
    if 0 <= i < s.len() && is_ws(s[i]) {
        skip_ws(s, i + 1)
    } else {
        i
    }
}

/// The first index at or after `i` of a white-space character (the length
/// if there is none).
pub open spec fn skip_word(s: Seq<char>, i: int) -> int
    decreases s.len() - i,
{
    if 0 <= i < s.len() && !is_ws(s[i]) {
        skip_word(s, i + 1)
    } else {
        i
    }
}

/// The first white-space separated word of `s`.
pub open spec fn first_word(s: Seq<char>) -> Option<Seq<char>> {
    let a = skip_ws(s, 0);
    if a >= s.len() {
        None
    } else {
        Some(s.subrange(a, skip_word(s, a)))
    }
}

/// The length of `s[..k]` without its trailing white space.
pub open spec fn trim_end_from(s: Seq<char>, k: int) -> int
    decreases k,
{
    if 0 < k <= s.len() && is_ws(s[k - 1]) {
        trim_end_from(s, k - 1)
    } else {
        k
    }
}

/// `s` without its trailing white space.
pub open spec fn trim_end(s: Seq<char>) -> Seq<char> {
    s.subrange(0, trim_end_from(s, s.len() as int))
}

/// `s` without its leading and trailing white space.
pub open spec fn trim(s: Seq<char>) -> Seq<char> {
    let t = trim_end(s);
    t.subrange(skip_ws(t, 0), t.len() as int)
}

pub proof fn lemma_skip_ws_bounds(s: Seq<char>, i: int)
    requires
        0 <= i <= s.len(),
    ensures
        i <= skip_ws(s, i) <= s.len(),
        forall|k: int| i <= k < skip_ws(s, i) ==> is_ws(s[k]),
        skip_ws(s, i) < s.len() ==> !is_ws(s[skip_ws(s, i)]),
    decreases s.len() - i,
{
    if i < s.len() && is_ws(s[i]) {
        lemma_skip_ws_bounds(s, i + 1);
    }
}

pub proof fn lemma_skip_word_bounds(s: Seq<char>, i: int)
    requires
        0 <= i <= s.len(),
    ensures
        i <= skip_word(s, i) <= s.len(),
        forall|k: int| i <= k < skip_word(s, i) ==> !is_ws(s[k]),
        skip_word(s, i) < s.len() ==> is_ws(s[skip_word(s, i)]),
    decreases s.len() - i,
{
    if i < s.len() && !is_ws(s[i]) {
        lemma_skip_word_bounds(s, i + 1);
    }
}

pub proof fn lemma_trim_end_bounds(s: Seq<char>, k: int)
    requires
        0 <= k <= s.len(),
    ensures
        0 <= trim_end_from(s, k) <= k,
        trim_end_from(s, k) > 0 ==> !is_ws(s[trim_end_from(s, k) - 1]),
        forall|j: int| trim_end_from(s, k) <= j < k ==> is_ws(s[j]),
    decreases k,
{
    if 0 < k && is_ws(s[k - 1]) {
        lemma_trim_end_bounds(s, k - 1);
    }
}

/// The characters of a text.
pub fn str_chars(s: &str) -> (v: Vec<char>)
    ensures
        v@ == s@,
{
    let n = s.unicode_len();
    let mut v: Vec<char> = Vec::new();
    let mut i: usize = 0;
    while i < n
        invariant
            n == s@.len(),
            i <= n,
            v@ == s@.subrange(0, i as int),
        decreases n - i,
    {
        let c = s.get_char(i);
        v.push(c);
        proof {
            assert(v@ =~= s@.subrange(0, i + 1));
        }
        i = i + 1;
    }
    proof {
        assert(v@ =~= s@);
    }
    v
}

/// `skip_ws` on characters.
pub fn find_non_ws(s: &Vec<char>, i: usize) -> (r: usize)
    requires
        i <= s@.len(),
    ensures
        r == skip_ws(s@, i as int),
{
    let mut k = i;
    while k < s.len() && is_whitespace(s[k])
        invariant
            i <= k <= s@.len(),
            skip_ws(s@, i as int) == skip_ws(s@, k as int),
        decreases s@.len() - k,
    {
        k = k + 1;
    }
    k
}

/// `skip_word` on characters.
pub fn find_ws(s: &Vec<char>, i: usize) -> (r: usize)
    requires
        i <= s@.len(),
    ensures
        r == skip_word(s@, i as int),
{
    let mut k = i;
    while k < s.len() && !is_whitespace(s[k])
        invariant
            i <= k <= s@.len(),
            skip_word(s@, i as int) == skip_word(s@, k as int),
        decreases s@.len() - k,
    {
        k = k + 1;
    }
    k
}

/// `trim_end_from` on characters.
pub fn trimmed_len(s: &Vec<char>, k: usize) -> (r: usize)
    requires
        k <= s@.len(),
    ensures
        r == trim_end_from(s@, k as int),
{
    let mut e = k;
    while e > 0 && is_whitespace(s[e - 1])
        invariant
            e <= k <= s@.len(),
            trim_end_from(s@, k as int) == trim_end_from(s@, e as int),
        decreases e,
    {
        e = e - 1;
    }
    e
}

/// The characters `s[a..b]` as a string.
pub fn chars_to_string(s: &Vec<char>, a: usize, b: usize) -> (r: String)
    requires
        a <= b <= s@.len(),
    ensures
        r@ == s@.subrange(a as int, b as int),
{
    let mut r = String::new();
    let mut i = a;
    while i < b
        invariant
            a <= i <= b <= s@.len(),
            r@ == s@.subrange(a as int, i as int),
        decreases b - i,
    {
        crate::text::push_char(&mut r, s[i]);
        proof {
            assert(r@ =~= s@.subrange(a as int, i + 1));
        }
        i = i + 1;
    }
    r
}

/// Whether `s[a1..b1]` and `t[a2..b2]` are the same characters.
pub fn chars_eq(s: &Vec<char>, a1: usize, b1: usize, t: &Vec<char>, a2: usize, b2: usize) -> (r: bool)
    requires
        a1 <= b1 <= s@.len(),
        a2 <= b2 <= t@.len(),
    ensures
        r == (s@.subrange(a1 as int, b1 as int) == t@.subrange(a2 as int, b2 as int)),
{
    if b1 - a1 != b2 - a2 {
        proof {
            assert(s@.subrange(a1 as int, b1 as int).len() != t@.subrange(a2 as int, b2 as int).len());
        }
        return false;
    }
    let mut i: usize = 0;
    while i < b1 - a1
        invariant
            a1 <= b1 <= s@.len(),
            a2 <= b2 <= t@.len(),
            b1 - a1 == b2 - a2,
            i <= b1 - a1,
            forall|k: int| 0 <= k < i ==> s@.subrange(a1 as int, b1 as int)[k] == #[trigger] t@.subrange(a2 as int, b2 as int)[k],
        decreases b1 - a1 - i,
    {
        if s[a1 + i] != t[a2 + i] {
            proof {
                assert(s@.subrange(a1 as int, b1 as int)[i as int] != t@.subrange(a2 as int, b2 as int)[i as int]);
            }
            return false;
        }
        i = i + 1;
    }
    proof {
        assert(s@.subrange(a1 as int, b1 as int) =~= t@.subrange(a2 as int, b2 as int));
    }
    true
}

/// Whether two texts are the same characters.
pub fn str_eq(v: &str, w: &str) -> (r: bool)
    ensures
        r == (v@ == w@),
{
    let a = str_chars(v);
    let b = str_chars(w);
    let r = chars_eq(&a, 0, a.len(), &b, 0, b.len());
    proof {
        assert(a@.subrange(0, a@.len() as int) =~= a@);
        assert(b@.subrange(0, b@.len() as int) =~= b@);
    }
    r
}

} // verus!
