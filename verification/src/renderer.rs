//! The renderer: turns a page tree into HTML and collects its table of
//! contents.

use vstd::prelude::*;
use vstd::string::*;
use crate::chars::{is_whitespace, skip_ws, skip_word, trim_end_from, trim, str_chars, find_non_ws, find_ws, trimmed_len, chars_to_string, chars_eq, lemma_skip_ws_bounds, lemma_skip_word_bounds, lemma_trim_end_bounds};
use crate::parser::{is_self_closing, detail_or_empty, lemma_node_view_children, nodes_view, Node, NodeType, SpecNode};
use crate::token::opt_str_view;
use crate::text::{byte_range_chars, cut_point, decimal, is_cut_point, push_char, push_decimal, push_str, slice_str};

verus! {

/// The HTML form of one character: `&`, `<`, `>`, `"` and `'` become
/// entities.
pub open spec fn escape_char(c: char) -> Seq<char> {
    if c == '&' {
        "&amp;"@
    } else if c == '<' {
        "&lt;"@
    } else if c == '>' {
        "&gt;"@
    } else if c == '"' {
        "&quot;"@
    } else if c == '\'' {
        "&#39;"@
    } else {
        seq![c]
    }
}

/// The HTML-escaped form of a text.
pub open spec fn escape(s: Seq<char>) -> Seq<char>
    decreases s.len(),
{
    if s.len() == 0 {
        seq![]
    } else {
        escape(s.drop_last()) + escape_char(s.last())
    }
}

/// Appends the escaped form of one character.
fn push_escaped_char(out: &mut String, c: char)
    ensures
        final(out)@ == old(out)@ + escape_char(c),
{
    if c == '&' {
        push_str(out, "&amp;");
    } else if c == '<' {
        push_str(out, "&lt;");
    } else if c == '>' {
        push_str(out, "&gt;");
    } else if c == '"' {
        push_str(out, "&quot;");
    } else if c == '\'' {
        push_str(out, "&#39;");
    } else {
        push_char(out, c);
    }
}

/// Appends the escaped form of `cs`.
fn push_escaped(out: &mut String, cs: &Vec<char>)
    ensures
        final(out)@ == old(out)@ + escape(cs@),
{
    let ghost start = out@;
    let mut i: usize = 0;
    while i < cs.len()
        invariant
            i <= cs@.len(),
            out@ == start + escape(cs@.subrange(0, i as int)),
        decreases cs@.len() - i,
    {
        proof {
            assert(cs@.subrange(0, i + 1).drop_last() =~= cs@.subrange(0, i as int));
        }
        push_escaped_char(out, cs[i]);
        proof {
            assert(out@ =~= start + escape(cs@.subrange(0, i + 1)));
        }
        i = i + 1;
    }
    proof {
        assert(cs@.subrange(0, i as int) =~= cs@);
    }
}

/// `s` with `&`, `<`, `>`, `"` and `'` replaced by HTML entities.
pub fn escape_html(s: &str) -> (r: String)
    ensures
        r@ == escape(s@),
{
    let cs = str_chars(s);
    let mut r = String::new();
    push_escaped(&mut r, &cs);
    proof {
        assert(r@ =~= escape(s@));
    }
    r
}

/// The tag name and the attribute text of a tag payload: the payload is
/// trimmed, the name runs to the first white space, the rest is trimmed.
pub open spec fn spec_split_tag_attrs(detail: Seq<char>) -> (Seq<char>, Seq<char>) {
    let d = trim(detail);
    let p = skip_word(d, 0);
    if p < d.len() {
        (d.subrange(0, p), trim(d.subrange(p, d.len() as int)))
    } else {
        (d, seq![])
    }
}

/// The bounds `a..b` of `trim(s[lo..hi])` within `s`.
pub fn trim_bounds(s: &Vec<char>, lo: usize, hi: usize) -> (r: (usize, usize))
    requires
        lo <= hi <= s@.len(),
    ensures
        lo <= r.0 <= r.1 <= hi,
        s@.subrange(r.0 as int, r.1 as int) == trim(s@.subrange(lo as int, hi as int)),
{
    let ghost sub = s@.subrange(lo as int, hi as int);
    let mut e = hi;
    while e > lo && is_whitespace(s[e - 1])
        invariant
            lo <= e <= hi <= s@.len(),
            sub == s@.subrange(lo as int, hi as int),
            trim_end_from(sub, sub.len() as int) == trim_end_from(sub, e - lo),
        decreases e,
    {
        proof {
            assert(sub[e - lo - 1] == s@[e - 1]);
        }
        e = e - 1;
    }
    proof {
        if e > lo {
            assert(sub[e - lo - 1] == s@[e - 1]);
        }
        assert(trim_end_from(sub, e - lo) == e - lo);
    }
    let ghost t = sub.subrange(0, e - lo);
    let mut a = lo;
    while a < e && is_whitespace(s[a])
        invariant
            lo <= a <= e <= hi <= s@.len(),
            t == s@.subrange(lo as int, e as int),
            skip_ws(t, 0) == skip_ws(t, a - lo),
        decreases e - a,
    {
        proof {
            assert(t[a - lo] == s@[a as int]);
        }
        a = a + 1;
    }
    proof {
        if a < e {
            assert(t[a - lo] == s@[a as int]);
        }
        assert(skip_ws(t, a - lo) == a - lo);
        assert(t =~= s@.subrange(lo as int, hi as int).subrange(0, e - lo));
        assert(s@.subrange(a as int, e as int) =~= t.subrange(a - lo, t.len() as int));
    }
    (a, e)
}

/// The tag name and the attribute text of a tag payload.
fn split_tag_attrs(detail: &Vec<char>) -> (r: (Vec<char>, Vec<char>))
    ensures
        (r.0@, r.1@) == spec_split_tag_attrs(detail@),
{
    let (a, b) = trim_bounds(detail, 0, detail.len());
    let ghost d = trim(detail@);
    proof {
        assert(detail@.subrange(0, detail@.len() as int) =~= detail@);
    }
    let mut p = a;
    while p < b && !is_whitespace(detail[p])
        invariant
            a <= p <= b <= detail@.len(),
            d == detail@.subrange(a as int, b as int),
            skip_word(d, 0) == skip_word(d, p - a),
        decreases b - p,
    {
        proof {
            assert(d[p - a] == detail@[p as int]);
        }
        p = p + 1;
    }
    proof {
        if p < b {
            assert(d[p - a] == detail@[p as int]);
        }
        assert(skip_word(d, p - a) == p - a);
    }
    let name = copy_range(detail, a, p);
    if p < b {
        let (a2, b2) = trim_bounds(detail, p, b);
        let attrs = copy_range(detail, a2, b2);
        proof {
            assert(name@ =~= d.subrange(0, p - a));
            assert(detail@.subrange(p as int, b as int) =~= d.subrange(p - a, d.len() as int));
        }
        (name, attrs)
    } else {
        proof {
            assert(name@ =~= d);
        }
        (name, Vec::new())
    }
}

/// The characters `s[a..b]`.
fn copy_range(s: &Vec<char>, a: usize, b: usize) -> (r: Vec<char>)
    requires
        a <= b <= s@.len(),
    ensures
        r@ == s@.subrange(a as int, b as int),
{
    let mut r: Vec<char> = Vec::new();
    let mut i = a;
    while i < b
        invariant
            a <= i <= b <= s@.len(),
            r@ == s@.subrange(a as int, i as int),
        decreases b - i,
    {
        r.push(s[i]);
        proof {
            assert(r@ =~= s@.subrange(a as int, i + 1));
        }
        i = i + 1;
    }
    r
}

/// The first index at or after `k` where `p` occurs in `s`.
pub open spec fn find_from(s: Seq<char>, p: Seq<char>, k: int) -> Option<int>
    decreases s.len() + 1 - k,
{
    if k < 0 || k + p.len() > s.len() {
        None
    } else if s.subrange(k, k + p.len()) == p {
        Some(k)
    } else {
        find_from(s, p, k + 1)
    }
}

pub proof fn lemma_find_from_bounds(s: Seq<char>, p: Seq<char>, k: int)
    ensures
        find_from(s, p, k) matches Some(i) ==> 0 <= k <= i && i + p.len() <= s.len() && s.subrange(i, i + p.len()) == p,
    decreases s.len() + 1 - k,
{
    if !(k < 0 || k + p.len() > s.len()) && s.subrange(k, k + p.len()) != p {
        lemma_find_from_bounds(s, p, k + 1);
    }
}

/// The value of attribute `name` in the attribute text `attrs`: the text
/// between the first `name="` and the next `"`.
pub open spec fn spec_extract_attr(attrs: Seq<char>, name: Seq<char>) -> Option<Seq<char>> {
    let pat = name + seq!['=', '"'];
    match find_from(attrs, pat, 0) {
        None => None,
        Some(st) => {
            let vs = st + pat.len();
            match find_from(attrs, seq!['"'], vs) {
                None => None,
                Some(ve) => Some(attrs.subrange(vs, ve)),
            }
        },
    }
}

/// The first index at or after `k` where `p[..]` occurs in `s`.
pub fn find_chars(s: &Vec<char>, p: &Vec<char>, k: usize) -> (r: Option<usize>)
    requires
        k <= s@.len(),
    ensures
        r matches Some(i) ==> find_from(s@, p@, k as int) == Some(i as int),
        r is None ==> find_from(s@, p@, k as int) is None,
{
    let mut i = k;
    while i < s.len() && p.len() <= s.len() - i
        invariant
            k <= i <= s@.len(),
            find_from(s@, p@, k as int) == find_from(s@, p@, i as int),
        decreases s@.len() - i,
    {
        if chars_eq(s, i, i + p.len(), p, 0, p.len()) {
            proof {
                assert(p@.subrange(0, p@.len() as int) =~= p@);
            }
            return Some(i);
        }
        proof {
            assert(p@.subrange(0, p@.len() as int) =~= p@);
        }
        i = i + 1;
    }
    proof {
        if i < s@.len() {
            assert(i + p@.len() > s@.len());
        } else {
            if p@.len() > 0 {
                assert(i + p@.len() > s@.len());
            } else {
                assert(s@.subrange(i as int, i as int) =~= p@);
            }
        }
    }
    if i == s.len() && p.len() == 0 {
        return Some(i);
    }
    None
}

/// The value of attribute `name` in `attrs`.
fn extract_attr(attrs: &Vec<char>, name: &str) -> (r: Option<Vec<char>>)
    ensures
        match spec_extract_attr(attrs@, name@) {
            Some(v) => r matches Some(x) && x@ == v,
            None => r is None,
        },
{
    let alen = attrs.len();
    let mut pat = str_chars(name);
    pat.push('=');
    pat.push('"');
    proof {
        assert(pat@ =~= name@ + seq!['=', '"']);
    }
    match find_chars(attrs, &pat, 0) {
        None => None,
        Some(st) => {
            proof {
                lemma_find_from_bounds(attrs@, pat@, 0);
            }
            let vs = st + pat.len();
            let mut q: Vec<char> = Vec::new();
            q.push('"');
            proof {
                assert(q@ =~= seq!['"']);
            }
            match find_chars(attrs, &q, vs) {
                None => None,
                Some(ve) => {
                    proof {
                        lemma_find_from_bounds(attrs@, q@, vs as int);
                    }
                    Some(copy_range(attrs, vs, ve))
                },
            }
        },
    }
}

/// What std's `str::to_lowercase` returns for a text (Unicode lowercase
/// mapping, with the final-sigma rule).
pub uninterp spec fn lowercase(s: Seq<char>) -> Seq<char>;

/// What std's `char::is_alphanumeric` returns (Unicode `Alphabetic` or
/// `Numeric`).
pub uninterp spec fn alphanumeric(c: char) -> bool;

pub open spec fn is_ascii_letter(c: char) -> bool {
    ('a' <= c && c <= 'z') || ('A' <= c && c <= 'Z')
}

pub open spec fn is_ascii_digit(c: char) -> bool {
    '0' <= c && c <= '9'
}

/// The ASCII lowercase of a character.
pub open spec fn ascii_lower(c: char) -> char {
    if 'A' <= c && c <= 'Z' { ((c as u32) + 32) as char } else { c }
}

/// std's `str::to_lowercase`: the result is `lowercase(s@)`; on ASCII text
/// it lowercases the letters A to Z and keeps every other character.
#[verifier::external_body]
pub(crate) fn to_lowercase(s: &str) -> (r: String)
    ensures
        r@ == lowercase(s@),
        (forall|i: int| 0 <= i < s@.len() ==> (s@[i] as u32) < 128) ==> r@ == s@.map_values(|c: char| ascii_lower(c)),
{
    s.to_lowercase()
}

/// std's `char::is_alphanumeric`: the result is `alphanumeric(c)`; on ASCII
/// it holds exactly of letters and digits.
#[verifier::external_body]
fn is_alphanumeric(c: char) -> (r: bool)
    ensures
        r == alphanumeric(c),
        (c as u32) < 128 ==> (r <==> (is_ascii_letter(c) || is_ascii_digit(c))),
{
    c.is_alphanumeric()
}

/// The character kept in a slug: letters, digits, `-` and space stay,
/// everything else becomes a space.
pub open spec fn slug_char(c: char) -> char {
    if alphanumeric(c) || c == '-' || c == ' ' { c } else { ' ' }
}

/// The white-space separated words of `s` from index `i` on.
pub open spec fn words_from(s: Seq<char>, i: int) -> Seq<Seq<char>>
    decreases s.len() - i,
{
    if i < 0 {
        seq![]
    } else {
        let a = skip_ws(s, i);
        if a >= s.len() {
            seq![]
        } else {
            let b = skip_word(s, a);
            proof {
                if i <= s.len() {
                    lemma_skip_ws_bounds(s, i);
                }
                lemma_skip_word_bounds(s, a);
            }
            seq![s.subrange(a, b)] + words_from(s, b)
        }
    }
}

/// Each word preceded by `sep`, concatenated.
pub open spec fn prefixed(ws: Seq<Seq<char>>, sep: Seq<char>) -> Seq<char>
    decreases ws.len(),
{
    if ws.len() == 0 {
        seq![]
    } else {
        sep + ws[0] + prefixed(ws.drop_first(), sep)
    }
}

/// The words joined by `sep`.
pub open spec fn join(ws: Seq<Seq<char>>, sep: Seq<char>) -> Seq<char> {
    if ws.len() == 0 {
        seq![]
    } else {
        ws[0] + prefixed(ws.drop_first(), sep)
    }
}

/// The anchor of a heading text: lowercased, every character other than a
/// letter, digit or `-` taken as a space, and the words joined by `-`.
pub open spec fn slug(text: Seq<char>) -> Seq<char> {
    let m = lowercase(text).map_values(|c: char| slug_char(c));
    join(words_from(m, 0), seq!['-'])
}

/// The anchor of a heading text.
fn slugify(text: &str) -> (r: String)
    ensures
        r@ == slug(text@),
{
    let lower = to_lowercase(text);
    let lc = str_chars(lower.as_str());
    let mut m: Vec<char> = Vec::new();
    let mut i: usize = 0;
    while i < lc.len()
        invariant
            i <= lc@.len(),
            m@ == lc@.subrange(0, i as int).map_values(|c: char| slug_char(c)),
        decreases lc@.len() - i,
    {
        let c = lc[i];
        let k = if is_alphanumeric(c) || c == '-' || c == ' ' { c } else { ' ' };
        m.push(k);
        proof {
            assert(m@ =~= lc@.subrange(0, i + 1).map_values(|c: char| slug_char(c)));
        }
        i = i + 1;
    }
    proof {
        assert(lc@.subrange(0, i as int) =~= lc@);
    }
    let ghost full = words_from(m@, 0);
    let mut out = String::new();
    let mut first = true;
    let mut j: usize = 0;
    proof {
        assert(out@ + join(words_from(m@, 0), seq!['-']) =~= join(full, seq!['-']));
    }
    while j < m.len()
        invariant
            j <= m@.len(),
            full == words_from(m@, 0),
            out@ + (if first { join(words_from(m@, j as int), seq!['-']) } else { prefixed(words_from(m@, j as int), seq!['-']) }) == join(full, seq!['-']),
        decreases m@.len() - j,
    {
        let a = find_non_ws(&m, j);
        proof {
            lemma_skip_ws_bounds(m@, j as int);
        }
        if a >= m.len() {
            proof {
                assert(words_from(m@, j as int) =~= Seq::<Seq<char>>::empty());
                assert(words_from(m@, a as int) =~= Seq::<Seq<char>>::empty());
            }
            j = a;
        } else {
            let b = find_ws(&m, a);
            proof {
                lemma_skip_word_bounds(m@, a as int);
                let w = m@.subrange(a as int, b as int);
                assert(words_from(m@, j as int) == seq![w] + words_from(m@, b as int));
                let rest = words_from(m@, b as int);
                assert((seq![w] + rest)[0] == w);
                assert((seq![w] + rest).drop_first() =~= rest);
            }
            let ghost old_out = out@;
            if !first {
                push_char(&mut out, '-');
            }
            let word = chars_to_string(&m, a, b);
            out.append(word.as_str());
            proof {
                let w = m@.subrange(a as int, b as int);
                let rest = words_from(m@, b as int);
                if first {
                    assert(out@ + prefixed(rest, seq!['-']) =~= old_out + join(seq![w] + rest, seq!['-']));
                } else {
                    assert(out@ + prefixed(rest, seq!['-']) =~= old_out + prefixed(seq![w] + rest, seq!['-']));
                }
            }
            first = false;
            j = b;
        }
    }
    proof {
        assert(words_from(m@, j as int) =~= Seq::<Seq<char>>::empty());
        assert(out@ =~= join(full, seq!['-']));
    }
    out
}

/// The number a text spells: an optional `+` and at least one decimal
/// digit, at most 255 (std's `u8` parsing).
pub open spec fn digits_value(d: Seq<char>) -> int
    decreases d.len(),
{
    if d.len() == 0 {
        0
    } else {
        digits_value(d.drop_last()) * 10 + (d.last() as int - '0' as int)
    }
}

pub open spec fn sign_stripped(s: Seq<char>) -> Seq<char> {
    if s.len() > 0 && s[0] == '+' { s.drop_first() } else { s }
}

pub open spec fn all_ascii_digits(d: Seq<char>) -> bool {
    forall|i: int| 0 <= i < d.len() ==> is_ascii_digit(#[trigger] d[i])
}

pub open spec fn parse_u8(s: Seq<char>) -> Option<u8> {
    let d = sign_stripped(s);
    if d.len() == 0 || !all_ascii_digits(d) {
        None
    } else if digits_value(d) > 255 {
        None
    } else {
        Some(digits_value(d) as u8)
    }
}

proof fn lemma_digits_value_nonneg(d: Seq<char>)
    requires
        forall|i: int| 0 <= i < d.len() ==> is_ascii_digit(#[trigger] d[i]),
    ensures
        digits_value(d) >= 0,
        d.len() > 0 ==> digits_value(d) >= digits_value(d.drop_last()),
    decreases d.len(),
{
    if d.len() > 0 {
        assert(forall|i: int| 0 <= i < d.drop_last().len() ==> d.drop_last()[i] == d[i]);
        lemma_digits_value_nonneg(d.drop_last());
    }
}

/// std's `str::parse::<u8>`.
fn parse_u8_str(s: &str) -> (r: Option<u8>)
    ensures
        r == parse_u8(s@),
{
    let cs = str_chars(s);
    let start: usize = if cs.len() > 0 && cs[0] == '+' { 1 } else { 0 };
    let ghost d = sign_stripped(s@);
    proof {
        assert(d =~= cs@.subrange(start as int, cs@.len() as int));
    }
    if start >= cs.len() {
        proof {
            assert(d.len() == 0);
            assert(parse_u8(s@) is None);
        }
        return None;
    }
    if !all_digits(&cs, start) {
        proof {
            let k = choose|k: int| start <= k < cs@.len() && !is_ascii_digit(#[trigger] cs@[k]);
            assert(d[k - start] == cs@[k]);
            assert(!is_ascii_digit(d[k - start]));
            assert(parse_u8(s@) is None);
        }
        return None;
    }
    proof {
        assert forall|k: int| 0 <= k < d.len() implies is_ascii_digit(#[trigger] d[k]) by {
            assert(d[k] == cs@[k + start]);
        }
    }
    let mut v: u32 = 0;
    let mut i = start;
    while i < cs.len()
        invariant
            start <= i <= cs@.len(),
            d == cs@.subrange(start as int, cs@.len() as int),
            forall|k: int| 0 <= k < d.len() ==> is_ascii_digit(#[trigger] d[k]),
            v == (if digits_value(d.subrange(0, i - start)) >= 256 { 256 } else { digits_value(d.subrange(0, i - start)) }),
        decreases cs@.len() - i,
    {
        let c = cs[i];
        let ghost p = d.subrange(0, i - start);
        let ghost dp = d.subrange(0, i - start + 1);
        proof {
            assert(d[i - start] == c);
            assert(dp.drop_last() =~= p);
            assert(dp.last() == c);
            assert(forall|k: int| 0 <= k < p.len() ==> p[k] == d[k]);
            lemma_digits_value_nonneg(p);
            let pv = digits_value(p);
            if pv >= 256 {
                assert(pv * 10 >= 2560) by (nonlinear_arith)
                    requires
                        pv >= 256,
                ;
            }
        }
        let digit = (c as u32) - ('0' as u32);
        if v >= 256 {
            v = 256;
        } else {
            let nv = v * 10 + digit;
            v = if nv >= 256 { 256 } else { nv };
        }
        i = i + 1;
    }
    proof {
        assert(d.subrange(0, i - start) =~= d);
    }
    if v > 255 {
        None
    } else {
        Some(v as u8)
    }
}

/// Whether all of `cs[i..]` are digits.
fn all_digits(cs: &Vec<char>, i: usize) -> (r: bool)
    requires
        i <= cs@.len(),
    ensures
        r == (forall|k: int| i <= k < cs@.len() ==> is_ascii_digit(#[trigger] cs@[k])),
{
    let mut k = i;
    while k < cs.len()
        invariant
            i <= k <= cs@.len(),
            forall|j: int| i <= j < k ==> is_ascii_digit(#[trigger] cs@[j]),
        decreases cs@.len() - k,
    {
        if !('0' <= cs[k] && cs[k] <= '9') {
            return false;
        }
        k = k + 1;
    }
    true
}

/// The bytes `n.start..n.end` of the source, as characters.
pub open spec fn source_text(src: Seq<u8>, n: SpecNode) -> Seq<char> {
    byte_range_chars(src, n.start, n.end)
}

/// The text of the nodes without markup: escaped source text, white
/// space (its payload, or one space), and the same for nested nodes.
pub open spec fn flat_text(src: Seq<u8>, ns: Seq<SpecNode>) -> Seq<char>
    decreases ns,
{
    if ns.len() == 0 {
        seq![]
    } else {
        let c = ns[ns.len() - 1];
        proof {
            assert(decreases_to!(ns => ns.subrange(0, ns.len() - 1)));
            assert(decreases_to!(ns => ns[ns.len() - 1]));
            assert(decreases_to!(ns[ns.len() - 1] => ns[ns.len() - 1].children));
        }
        flat_text(src, ns.subrange(0, ns.len() - 1)) + if c.n_type == NodeType::Text {
            escape(source_text(src, c))
        } else if c.n_type == NodeType::Whitespace {
            match c.n_detail {
                Some(d) => d,
                None => seq![' '],
            }
        } else {
            flat_text(src, c.children)
        }
    }
}

/// Every text and white-space node lies within the source, cut at
/// character boundaries.
pub open spec fn fits(src: Seq<u8>, n: SpecNode) -> bool
    decreases n,
{
    &&& (n.n_type == NodeType::Text || n.n_type == NodeType::Whitespace) ==> (0 <= n.start <= n.end
        <= src.len() && cut_point(src, n.start) && cut_point(src, n.end))
    &&& fits_all(src, n.children)
}

pub open spec fn fits_all(src: Seq<u8>, ns: Seq<SpecNode>) -> bool
    decreases ns,
{
    if ns.len() == 0 {
        true
    } else {
        proof {
            assert(decreases_to!(ns => ns.subrange(0, ns.len() - 1)));
            assert(decreases_to!(ns => ns[ns.len() - 1]));
        }
        fits_all(src, ns.subrange(0, ns.len() - 1)) && fits(src, ns[ns.len() - 1])
    }
}

/// The renderer's state: the headings seen (level, text, anchor), whether
/// the table of contents is suppressed, and a custom one.
pub struct RState {
    pub headings: Seq<(u8, Seq<char>, Seq<char>)>,
    pub suppress_toc: bool,
    pub custom_toc: Option<Seq<char>>,
}

/// The level of a heading: its payload read as a number, 6 by default.
pub open spec fn heading_level(d: Option<Seq<char>>) -> u8 {
    let s = match d {
        Some(x) => x,
        None => "6"@,
    };
    match parse_u8(s) {
        Some(v) => v,
        None => 6,
    }
}

pub open spec fn wrap(open: Seq<char>, r: (Seq<char>, RState), close: Seq<char>) -> (Seq<char>, RState) {
    (open + r.0 + close, r.1)
}

pub open spec fn heading_open(level: u8, anchor: Seq<char>) -> Seq<char> {
    "<h"@ + decimal(level as nat) + " id=\""@ + anchor + "\" class=\"mast-heading-"@ + decimal(level as nat) + "\">"@
}

pub open spec fn heading_close(level: u8) -> Seq<char> {
    "</h"@ + decimal(level as nat) + ">"@
}

/// `s[..k]` without its trailing slashes.
pub open spec fn strip_slashes_from(s: Seq<char>, k: int) -> int
    decreases k,
{
    if 0 < k <= s.len() && s[k - 1] == '/' {
        strip_slashes_from(s, k - 1)
    } else {
        k
    }
}

/// The body of a self-closing tag: trailing white space, slashes and white
/// space removed.
pub open spec fn tag_body(d: Seq<char>) -> Seq<char> {
    let t = d.subrange(0, trim_end_from(d, d.len() as int));
    let u = t.subrange(0, strip_slashes_from(t, t.len() as int));
    u.subrange(0, trim_end_from(u, u.len() as int))
}

/// The HTML of a tag `tag` with attribute text `attrs`; `flat` is the flat
/// text of its content and `rendered` the rendering of its content.
pub open spec fn pseudo_html(
    tag: Seq<char>,
    attrs: Seq<char>,
    sc: bool,
    flat: Seq<char>,
    st: RState,
    rendered: (Seq<char>, RState),
) -> (Seq<char>, RState) {
    if tag == "br"@ {
        ("<br class=\"wiki-br\" />"@, st)
    } else if tag == "nowiki"@ {
        if sc { (seq![], st) } else { (flat, st) }
    } else if tag == "callout"@ {
        let tc = match spec_extract_attr(attrs, "type"@) {
            Some(t) => " wiki-callout-"@ + t,
            None => seq![],
        };
        let ta = match spec_extract_attr(attrs, "title"@) {
            Some(t) => " data-title=\""@ + escape(t) + "\""@,
            None => seq![],
        };
        if sc {
            ("<div class=\"wiki-callout"@ + tc + "\""@ + ta + "></div>"@, st)
        } else {
            ("<div class=\"wiki-callout"@ + tc + "\""@ + ta + ">"@ + rendered.0 + "</div>"@, rendered.1)
        }
    } else if tag == "accordion"@ {
        if sc { (seq![], st) } else { wrap("<details class=\"wiki-accordion\">"@, rendered, "</details>"@) }
    } else {
        let cls = "wiki-"@ + tag;
        if sc {
            ("<"@ + tag + " class=\""@ + cls + "\" />"@, st)
        } else {
            wrap("<"@ + tag + " class=\""@ + cls + "\">"@, rendered, "</"@ + tag + ">"@)
        }
    }
}

/// The HTML of a node and the renderer's state after it.
pub open spec fn rnode(src: Seq<u8>, st: RState, n: SpecNode) -> (Seq<char>, RState)
    decreases n, 1int,
{
    match n.n_type {
        NodeType::Text => (escape(source_text(src, n)), st),
        NodeType::Bold => wrap("<strong class=\"mast-bold\">"@, rchildren(src, st, n.children), "</strong>"@),
        NodeType::Italic => wrap("<em class=\"mast-italic\">"@, rchildren(src, st, n.children), "</em>"@),
        NodeType::Underline => wrap("<u class=\"mast-underline\">"@, rchildren(src, st, n.children), "</u>"@),
        NodeType::Heading => {
            let level = heading_level(n.n_detail);
            let text = flat_text(src, n.children);
            let anchor = slug(text);
            let st1 = RState { headings: st.headings.push((level, text, anchor)), ..st };
            wrap(heading_open(level, anchor), rchildren(src, st1, n.children), heading_close(level))
        },
        NodeType::Macro => {
            let d = detail_or_empty(n.n_detail);
            if d == "NOTOC"@ {
                (seq![], RState { suppress_toc: true, ..st })
            } else if d == "CUSTOMTOC"@ {
                let r = rchildren(src, st, n.children);
                (seq![], RState { custom_toc: Some(r.0), ..r.1 })
            } else {
                (seq![], st)
            }
        },
        NodeType::Quote => wrap("<blockquote class=\"mast-blockquote\">"@, rchildren(src, st, n.children), "</blockquote>"@),
        NodeType::Link => wrap(
            "<a href=\""@ + escape(detail_or_empty(n.n_detail)) + "\" class=\"mast-link\">"@,
            rchildren(src, st, n.children),
            "</a>"@,
        ),
        NodeType::Image => (
            "<img src=\""@ + escape(detail_or_empty(n.n_detail)) + "\" class=\"mast-image\" alt=\""@
                + flat_text(src, n.children) + "\" />"@,
            st,
        ),
        NodeType::Footnote => wrap("<sup class=\"mast-footnote\">"@, rchildren(src, st, n.children), "</sup>"@),
        NodeType::Hr => ("<hr class=\"mast-hr\" />"@, st),
        NodeType::PseudoHtml => {
            let d = detail_or_empty(n.n_detail);
            let sc = is_self_closing(d);
            let raw = if sc { tag_body(d) } else { d };
            let parts = spec_split_tag_attrs(raw);
            pseudo_html(parts.0, parts.1, sc, flat_text(src, n.children), st, rchildren(src, st, n.children))
        },
        NodeType::Linebreak => ("<br class=\"wiki-linebreak\" />"@, st),
        NodeType::Whitespace => (source_text(src, n), st),
        NodeType::Paragraph => wrap("<p class=\"wiki-paragraph\">"@, rchildren(src, st, n.children), "</p>"@),
        _ => (seq![], st),
    }
}

/// The HTML of a node sequence, rendered in order, and the state after it.
pub open spec fn rchildren(src: Seq<u8>, st: RState, ns: Seq<SpecNode>) -> (Seq<char>, RState)
    decreases ns, 0int,
{
    if ns.len() == 0 {
        (seq![], st)
    } else {
        proof {
            assert(decreases_to!(ns => ns.subrange(0, ns.len() - 1)));
            assert(decreases_to!(ns => ns[ns.len() - 1]));
        }
        let r1 = rchildren(src, st, ns.subrange(0, ns.len() - 1));
        let r2 = rnode(src, r1.1, ns[ns.len() - 1]);
        (r1.0 + r2.0, r2.1)
    }
}

/// `s` repeated `n` times.
pub open spec fn repeat(s: Seq<char>, n: nat) -> Seq<char>
    decreases n,
{
    if n == 0 {
        seq![]
    } else {
        repeat(s, (n - 1) as nat) + s
    }
}

/// The entry of one heading in the table of contents, indented two spaces
/// per level below the first.
pub open spec fn toc_line(h: (u8, Seq<char>, Seq<char>)) -> Seq<char> {
    repeat("  "@, (h.0 - 1) as nat) + "<li><a href=\"#"@ + h.2 + "\">"@ + h.1 + "</a></li>\n"@
}

pub open spec fn toc_lines(hs: Seq<(u8, Seq<char>, Seq<char>)>) -> Seq<char>
    decreases hs.len(),
{
    if hs.len() == 0 {
        seq![]
    } else {
        toc_lines(hs.drop_last()) + toc_line(hs.last())
    }
}

/// The table of contents: empty when suppressed or without headings, the
/// custom one when set, otherwise a list of the headings.
pub open spec fn spec_build_toc(st: RState) -> Seq<char> {
    if st.suppress_toc || st.headings.len() == 0 {
        seq![]
    } else {
        match st.custom_toc {
            Some(c) => c,
            None => "<ul class=\"menu menu-sm\">"@ + toc_lines(st.headings) + "</ul>"@,
        }
    }
}

/// Building the list needs every heading level to be at least 1.
pub open spec fn toc_ok(st: RState) -> bool {
    ||| st.suppress_toc
    ||| st.headings.len() == 0
    ||| st.custom_toc is Some
    ||| forall|i: int| 0 <= i < st.headings.len() ==> #[trigger] st.headings[i].0 >= 1
}

pub open spec fn empty_state() -> RState {
    RState { headings: seq![], suppress_toc: false, custom_toc: None }
}

pub open spec fn headings_view(hs: Seq<(u8, String, String)>) -> Seq<(u8, Seq<char>, Seq<char>)> {
    hs.map_values(|h: (u8, String, String)| (h.0, h.1@, h.2@))
}

pub proof fn lemma_fits_all_elem(src: Seq<u8>, ns: Seq<SpecNode>, i: int)
    requires
        fits_all(src, ns),
        0 <= i < ns.len(),
    ensures
        fits(src, ns[i]),
    decreases ns.len(),
{
    if i < ns.len() - 1 {
        lemma_fits_all_elem(src, ns.subrange(0, ns.len() - 1), i);
    }
}

proof fn lemma_trim_end_prefix(d: Seq<char>, m: int, k: int)
    requires
        0 <= k <= m <= d.len(),
    ensures
        trim_end_from(d.subrange(0, m), k) == trim_end_from(d, k),
    decreases k,
{
    if k > 0 {
        assert(d.subrange(0, m)[k - 1] == d[k - 1]);
        lemma_trim_end_prefix(d, m, k - 1);
    }
}

proof fn lemma_strip_prefix(d: Seq<char>, m: int, k: int)
    requires
        0 <= k <= m <= d.len(),
    ensures
        strip_slashes_from(d.subrange(0, m), k) == strip_slashes_from(d, k),
    decreases k,
{
    if k > 0 {
        assert(d.subrange(0, m)[k - 1] == d[k - 1]);
        lemma_strip_prefix(d, m, k - 1);
    }
}

proof fn lemma_strip_bounds(s: Seq<char>, k: int)
    requires
        0 <= k <= s.len(),
    ensures
        0 <= strip_slashes_from(s, k) <= k,
    decreases k,
{
    if k > 0 && s[k - 1] == '/' {
        lemma_strip_bounds(s, k - 1);
    }
}

/// Whether the characters `v` spell `lit`.
fn eq_lit(v: &Vec<char>, lit: &str) -> (r: bool)
    ensures
        r == (v@ == lit@),
{
    let l = str_chars(lit);
    let r = chars_eq(v, 0, v.len(), &l, 0, l.len());
    proof {
        assert(v@.subrange(0, v@.len() as int) =~= v@);
        assert(l@.subrange(0, l@.len() as int) =~= l@);
    }
    r
}

fn wrap_str(open: &str, body: String, close: &str) -> (r: String)
    ensures
        r@ == open@ + body@ + close@,
{
    let mut out = String::new();
    push_str(&mut out, open);
    out.append(body.as_str());
    push_str(&mut out, close);
    proof {
        assert(out@ =~= open@ + body@ + close@);
    }
    out
}

fn chars_of(d: &Option<String>) -> (r: Vec<char>)
    ensures
        r@ == detail_or_empty(opt_str_view(*d)),
{
    match d {
        Some(s) => str_chars(s.as_str()),
        None => Vec::new(),
    }
}

/// The HTML renderer of a page tree over its source text.
pub struct Renderer<'a> {
    source: &'a str,
    headings: Vec<(u8, String, String)>,
    suppress_toc: bool,
    custom_toc: Option<String>,
}

impl<'a> Renderer<'a> {
    /// The renderer's state.
    pub closed spec fn state(&self) -> RState {
        RState {
            headings: headings_view(self.headings@),
            suppress_toc: self.suppress_toc,
            custom_toc: opt_str_view(self.custom_toc),
        }
    }

    /// The bytes of the source text.
    pub closed spec fn source_bytes(&self) -> Seq<u8> {
        self.source.spec_bytes()
    }

    pub fn new(source: &'a str) -> (r: Self)
        ensures
            r.source_bytes() == source.spec_bytes(),
            r.state() == empty_state(),
    {
        let r = Renderer { source, headings: Vec::new(), suppress_toc: false, custom_toc: None };
        proof {
            assert(headings_view(r.headings@) =~= seq![]);
        }
        r
    }

    /// The HTML of `nodes`; the headings met are recorded for the table of
    /// contents.
    pub fn render(&mut self, nodes: &[Node]) -> (html: String)
        requires
            fits_all(old(self).source_bytes(), nodes_view(nodes@)),
        ensures
            final(self).source_bytes() == old(self).source_bytes(),
            (html@, final(self).state()) == rchildren(old(self).source_bytes(), old(self).state(), nodes_view(nodes@)),
    {
        self.render_children(nodes)
    }

    /// Whether the table of contents can be built (`toc_ok`): suppressed,
    /// empty, custom, or every heading of level one or more.
    pub fn toc_ready(&self) -> (r: bool)
        ensures
            r == toc_ok(self.state()),
    {
        if self.suppress_toc || self.headings.len() == 0 {
            return true;
        }
        if self.custom_toc.is_some() {
            return true;
        }
        let ghost hs = headings_view(self.headings@);
        let mut i: usize = 0;
        while i < self.headings.len()
            invariant
                i <= self.headings@.len(),
                hs == headings_view(self.headings@),
                !self.suppress_toc,
                self.custom_toc is None,
                self.headings@.len() > 0,
                forall|j: int| 0 <= j < i ==> #[trigger] hs[j].0 >= 1,
            decreases self.headings@.len() - i,
        {
            if self.headings[i].0 < 1 {
                proof {
                    assert(hs[i as int].0 < 1);
                }
                return false;
            }
            i = i + 1;
        }
        true
    }

    /// The table of contents of the headings rendered so far.
    pub fn build_toc(&self) -> (toc: String)
        requires
            toc_ok(self.state()),
        ensures
            toc@ == spec_build_toc(self.state()),
    {
        if self.suppress_toc || self.headings.len() == 0 {
            return String::new();
        }
        match &self.custom_toc {
            Some(custom) => {
                return custom.clone();
            },
            None => {},
        }
        let ghost hs = headings_view(self.headings@);
        let mut html = String::new();
        push_str(&mut html, "<ul class=\"menu menu-sm\">");
        let ghost start = html@;
        let mut i: usize = 0;
        while i < self.headings.len()
            invariant
                i <= self.headings@.len(),
                hs == headings_view(self.headings@),
                toc_ok(self.state()),
                !self.suppress_toc,
                self.custom_toc is None,
                self.headings@.len() > 0,
                html@ == start + toc_lines(hs.subrange(0, i as int)),
            decreases self.headings@.len() - i,
        {
            let level = self.headings[i].0;
            proof {
                assert(hs[i as int].0 == level);
                assert(self.state().headings[i as int].0 >= 1);
                assert(hs.subrange(0, i + 1).drop_last() =~= hs.subrange(0, i as int));
                assert(hs.subrange(0, i + 1).last() == hs[i as int]);
            }
            let ghost before = html@;
            let mut k: u8 = 0;
            while k < level - 1
                invariant
                    k <= level - 1,
                    level >= 1,
                    html@ == before + repeat("  "@, k as nat),
                decreases level - 1 - k,
            {
                push_str(&mut html, "  ");
                proof {
                    assert(html@ =~= before + repeat("  "@, (k + 1) as nat));
                }
                k = k + 1;
            }
            push_str(&mut html, "<li><a href=\"#");
            html.append(self.headings[i].2.as_str());
            push_str(&mut html, "\">");
            html.append(self.headings[i].1.as_str());
            push_str(&mut html, "</a></li>\n");
            proof {
                assert(html@ =~= start + toc_lines(hs.subrange(0, i + 1)));
            }
            i = i + 1;
        }
        push_str(&mut html, "</ul>");
        proof {
            assert(hs.subrange(0, i as int) =~= hs);
        }
        html
    }

    fn render_children(&mut self, children: &[Node]) -> (html: String)
        requires
            fits_all(old(self).source_bytes(), nodes_view(children@)),
        ensures
            final(self).source_bytes() == old(self).source_bytes(),
            (html@, final(self).state()) == rchildren(old(self).source_bytes(), old(self).state(), nodes_view(children@)),
        decreases nodes_view(children@), 0int,
    {
        let ghost ns = nodes_view(children@);
        let ghost src = self.source_bytes();
        let ghost st0 = self.state();
        let mut out = String::new();
        let mut i: usize = 0;
        while i < children.len()
            invariant
                i <= children@.len(),
                ns == nodes_view(children@),
                src == self.source_bytes(),
                fits_all(src, ns),
                (out@, self.state()) == rchildren(src, st0, ns.subrange(0, i as int)),
            decreases children@.len() - i,
        {
            proof {
                lemma_fits_all_elem(src, ns, i as int);
                assert(ns[i as int] == children@[i as int]@);
                assert(decreases_to!(ns => ns[i as int]));
                let sub = ns.subrange(0, i + 1);
                assert(sub.subrange(0, sub.len() - 1) =~= ns.subrange(0, i as int));
                assert(sub[sub.len() - 1] == ns[i as int]);
            }
            let piece = self.render_node(&children[i]);
            out.append(piece.as_str());
            i = i + 1;
        }
        proof {
            assert(ns.subrange(0, i as int) =~= ns);
        }
        out
    }

    fn render_node(&mut self, node: &Node) -> (html: String)
        requires
            fits(old(self).source_bytes(), node@),
        ensures
            final(self).source_bytes() == old(self).source_bytes(),
            (html@, final(self).state()) == rnode(old(self).source_bytes(), old(self).state(), node@),
        decreases node@, 0int,
    {
        proof {
            lemma_node_view_children(*node);
            assert(decreases_to!(node@ => node@.children));
        }
        let ghost src = self.source_bytes();
        let ghost st0 = self.state();
        match node.n_type {
            NodeType::Text => {
                let t = slice_str(self.source, node.start, node.end);
                escape_html(t)
            },
            NodeType::Bold => {
                let c = self.render_children(&node.children);
                wrap_str("<strong class=\"mast-bold\">", c, "</strong>")
            },
            NodeType::Italic => {
                let c = self.render_children(&node.children);
                wrap_str("<em class=\"mast-italic\">", c, "</em>")
            },
            NodeType::Underline => {
                let c = self.render_children(&node.children);
                wrap_str("<u class=\"mast-underline\">", c, "</u>")
            },
            NodeType::Heading => {
                let parsed = match &node.n_detail {
                    Some(d) => parse_u8_str(d.as_str()),
                    None => parse_u8_str("6"),
                };
                let level: u8 = match parsed {
                    Some(v) => v,
                    None => 6,
                };
                let text = self.render_flat_text(&node.children);
                let anchor = slugify(text.as_str());
                let ghost old_hs = self.headings@;
                self.headings.push((level, text.clone(), anchor.clone()));
                proof {
                    assert(headings_view(self.headings@) =~= headings_view(old_hs).push((level, text@, anchor@)));
                }
                let c = self.render_children(&node.children);
                let mut out = String::new();
                push_str(&mut out, "<h");
                push_decimal(&mut out, level as usize);
                push_str(&mut out, " id=\"");
                out.append(anchor.as_str());
                push_str(&mut out, "\" class=\"mast-heading-");
                push_decimal(&mut out, level as usize);
                push_str(&mut out, "\">");
                out.append(c.as_str());
                push_str(&mut out, "</h");
                push_decimal(&mut out, level as usize);
                push_str(&mut out, ">");
                proof {
                    assert(out@ =~= heading_open(level, anchor@) + c@ + heading_close(level));
                }
                out
            },
            NodeType::Macro => {
                let d = chars_of(&node.n_detail);
                if eq_lit(&d, "NOTOC") {
                    self.suppress_toc = true;
                } else if eq_lit(&d, "CUSTOMTOC") {
                    let c = self.render_children(&node.children);
                    self.custom_toc = Some(c);
                }
                String::new()
            },
            NodeType::Quote => {
                let c = self.render_children(&node.children);
                wrap_str("<blockquote class=\"mast-blockquote\">", c, "</blockquote>")
            },
            NodeType::Link => {
                let d = chars_of(&node.n_detail);
                let mut open = String::new();
                push_str(&mut open, "<a href=\"");
                push_escaped(&mut open, &d);
                push_str(&mut open, "\" class=\"mast-link\">");
                let c = self.render_children(&node.children);
                let r = wrap_str(open.as_str(), c, "</a>");
                r
            },
            NodeType::Image => {
                let d = chars_of(&node.n_detail);
                let alt = self.render_flat_text(&node.children);
                let mut out = String::new();
                push_str(&mut out, "<img src=\"");
                push_escaped(&mut out, &d);
                push_str(&mut out, "\" class=\"mast-image\" alt=\"");
                out.append(alt.as_str());
                push_str(&mut out, "\" />");
                proof {
                    assert(out@ =~= "<img src=\""@ + escape(d@) + "\" class=\"mast-image\" alt=\""@ + alt@ + "\" />"@);
                }
                out
            },
            NodeType::Footnote => {
                let c = self.render_children(&node.children);
                wrap_str("<sup class=\"mast-footnote\">", c, "</sup>")
            },
            NodeType::Hr => {
                let mut out = String::new();
                push_str(&mut out, "<hr class=\"mast-hr\" />");
                out
            },
            NodeType::PseudoHtml => {
                let d = chars_of(&node.n_detail);
                let k = trimmed_len(&d, d.len());
                proof {
                    lemma_trim_end_bounds(d@, d@.len() as int);
                }
                let self_closing = k > 0 && d[k - 1] == '/';
                let raw = if self_closing {
                    let mut s_len = k;
                    while s_len > 0 && d[s_len - 1] == '/'
                        invariant
                            s_len <= k <= d@.len(),
                            strip_slashes_from(d@, k as int) == strip_slashes_from(d@, s_len as int),
                        decreases s_len,
                    {
                        s_len = s_len - 1;
                    }
                    let u_len = trimmed_len(&d, s_len);
                    proof {
                        lemma_trim_end_bounds(d@, s_len as int);
                        let t = d@.subrange(0, k as int);
                        lemma_strip_prefix(d@, k as int, k as int);
                        lemma_strip_bounds(t, t.len() as int);
                        let u = t.subrange(0, strip_slashes_from(t, t.len() as int));
                        assert(u =~= d@.subrange(0, s_len as int));
                        lemma_trim_end_prefix(d@, s_len as int, s_len as int);
                        assert(tag_body(d@) =~= d@.subrange(0, u_len as int));
                    }
                    copy_range(&d, 0, u_len)
                } else {
                    copy_range(&d, 0, d.len())
                };
                proof {
                    if !self_closing {
                        assert(raw@ =~= d@);
                    }
                }
                let (tag, attrs) = split_tag_attrs(&raw);
                self.render_pseudohtml(&tag, &attrs, self_closing, &node.children)
            },
            NodeType::Linebreak => {
                let mut out = String::new();
                push_str(&mut out, "<br class=\"wiki-linebreak\" />");
                out
            },
            NodeType::Whitespace => {
                let t = slice_str(self.source, node.start, node.end);
                String::from_str(t)
            },
            NodeType::Paragraph => {
                let c = self.render_children(&node.children);
                wrap_str("<p class=\"wiki-paragraph\">", c, "</p>")
            },
            _ => {
                String::new()
            },
        }
    }

    fn render_pseudohtml(&mut self, tag: &Vec<char>, attrs: &Vec<char>, self_closing: bool, children: &[Node]) -> (html: String)
        requires
            fits_all(old(self).source_bytes(), nodes_view(children@)),
        ensures
            final(self).source_bytes() == old(self).source_bytes(),
            (html@, final(self).state()) == pseudo_html(
                tag@,
                attrs@,
                self_closing,
                flat_text(old(self).source_bytes(), nodes_view(children@)),
                old(self).state(),
                rchildren(old(self).source_bytes(), old(self).state(), nodes_view(children@)),
            ),
        decreases nodes_view(children@), 1int,
    {
        if eq_lit(tag, "br") {
            let mut out = String::new();
            push_str(&mut out, "<br class=\"wiki-br\" />");
            out
        } else if eq_lit(tag, "nowiki") {
            if self_closing {
                String::new()
            } else {
                self.render_flat_text(children)
            }
        } else if eq_lit(tag, "callout") {
            let mut head = String::new();
            push_str(&mut head, "<div class=\"wiki-callout");
            match extract_attr(attrs, "type") {
                Some(t) => {
                    push_str(&mut head, " wiki-callout-");
                    let ts = chars_to_string(&t, 0, t.len());
                    head.append(ts.as_str());
                    proof {
                        assert(t@.subrange(0, t@.len() as int) =~= t@);
                    }
                },
                None => {},
            }
            push_str(&mut head, "\"");
            match extract_attr(attrs, "title") {
                Some(t) => {
                    push_str(&mut head, " data-title=\"");
                    push_escaped(&mut head, &t);
                    push_str(&mut head, "\"");
                },
                None => {},
            }
            let ghost h = head@;
            proof {
                let tc = match spec_extract_attr(attrs@, "type"@) {
                    Some(t) => " wiki-callout-"@ + t,
                    None => seq![],
                };
                let ta = match spec_extract_attr(attrs@, "title"@) {
                    Some(t) => " data-title=\""@ + escape(t) + "\""@,
                    None => seq![],
                };
                assert(h =~= "<div class=\"wiki-callout"@ + tc + "\""@ + ta);
            }
            if self_closing {
                push_str(&mut head, "></div>");
                proof {
                    assert(head@ =~= h + "></div>"@);
                }
                head
            } else {
                push_str(&mut head, ">");
                let c = self.render_children(children);
                head.append(c.as_str());
                push_str(&mut head, "</div>");
                proof {
                    assert(head@ =~= h + ">"@ + c@ + "</div>"@);
                }
                head
            }
        } else if eq_lit(tag, "accordion") {
            if self_closing {
                String::new()
            } else {
                let c = self.render_children(children);
                wrap_str("<details class=\"wiki-accordion\">", c, "</details>")
            }
        } else {
            let name = chars_to_string(tag, 0, tag.len());
            proof {
                assert(tag@.subrange(0, tag@.len() as int) =~= tag@);
            }
            let mut open = String::new();
            push_str(&mut open, "<");
            open.append(name.as_str());
            push_str(&mut open, " class=\"");
            push_str(&mut open, "wiki-");
            open.append(name.as_str());
            if self_closing {
                push_str(&mut open, "\" />");
                proof {
                    assert(open@ =~= "<"@ + tag@ + " class=\""@ + ("wiki-"@ + tag@) + "\" />"@);
                }
                open
            } else {
                push_str(&mut open, "\">");
                let c = self.render_children(children);
                let mut close = String::new();
                push_str(&mut close, "</");
                close.append(name.as_str());
                push_str(&mut close, ">");
                let r = wrap_str(open.as_str(), c, close.as_str());
                proof {
                    assert(open@ =~= "<"@ + tag@ + " class=\""@ + ("wiki-"@ + tag@) + "\">"@);
                    assert(close@ =~= "</"@ + tag@ + ">"@);
                }
                r
            }
        }
    }

    fn render_flat_text(&self, children: &[Node]) -> (r: String)
        requires
            fits_all(self.source_bytes(), nodes_view(children@)),
        ensures
            r@ == flat_text(self.source_bytes(), nodes_view(children@)),
        decreases nodes_view(children@),
    {
        let ghost ns = nodes_view(children@);
        let ghost src = self.source_bytes();
        let mut out = String::new();
        let mut i: usize = 0;
        while i < children.len()
            invariant
                i <= children@.len(),
                ns == nodes_view(children@),
                src == self.source_bytes(),
                fits_all(src, ns),
                out@ == flat_text(src, ns.subrange(0, i as int)),
            decreases children@.len() - i,
        {
            let c = &children[i];
            proof {
                lemma_fits_all_elem(src, ns, i as int);
                assert(ns[i as int] == c@);
                lemma_node_view_children(*c);
                let sub = ns.subrange(0, i + 1);
                assert(sub.subrange(0, sub.len() - 1) =~= ns.subrange(0, i as int));
                assert(sub[sub.len() - 1] == ns[i as int]);
                assert(decreases_to!(ns => ns[i as int]));
                assert(decreases_to!(ns[i as int] => ns[i as int].children));
            }
            match c.n_type {
                NodeType::Text => {
                    let t = slice_str(self.source, c.start, c.end);
                    let e = escape_html(t);
                    out.append(e.as_str());
                },
                NodeType::Whitespace => {
                    match &c.n_detail {
                        Some(d) => {
                            out.append(d.as_str());
                        },
                        None => {
                            push_char(&mut out, ' ');
                        },
                    }
                },
                _ => {
                    let inner = self.render_flat_text(&c.children);
                    out.append(inner.as_str());
                },
            }
            i = i + 1;
        }
        proof {
            assert(ns.subrange(0, i as int) =~= ns);
        }
        out
    }
}

/// The characters HTML gives a meaning to in text and attributes.
pub open spec fn markup_char(c: char) -> bool {
    c == '<' || c == '>' || c == '"' || c == '\''
}

/// Escaped text holds no `<`, `>`, `"` or `'`: whatever it is, it stays
/// text inside an element or a quoted attribute.
pub proof fn law_escaped_text_has_no_markup(s: Seq<char>)
    ensures
        forall|i: int| 0 <= i < escape(s).len() ==> !markup_char(#[trigger] escape(s)[i]),
    decreases s.len(),
{
    if s.len() > 0 {
        law_escaped_text_has_no_markup(s.drop_last());
        let a = escape(s.drop_last());
        let b = escape_char(s.last());
        reveal_strlit("&amp;");
        reveal_strlit("&lt;");
        reveal_strlit("&gt;");
        reveal_strlit("&quot;");
        reveal_strlit("&#39;");
        assert forall|i: int| 0 <= i < b.len() implies !markup_char(#[trigger] b[i]) by {}
        assert forall|i: int| 0 <= i < escape(s).len() implies !markup_char(#[trigger] escape(s)[i]) by {
            if i < a.len() {
                assert(escape(s)[i] == a[i]);
            } else {
                assert(escape(s)[i] == b[i - a.len()]);
            }
        }
    }
}

/// Whether every text and white-space node of `nodes` (at any depth) lies
/// within `source`, cut at character boundaries (`fits_all`).
pub fn nodes_fit(source: &str, nodes: &[Node]) -> (r: bool)
    ensures
        r == fits_all(source.spec_bytes(), nodes_view(nodes@)),
    decreases nodes_view(nodes@),
{
    let ghost ns = nodes_view(nodes@);
    let ghost src = source.spec_bytes();
    let bytes = source.as_bytes();
    let len = bytes.len();
    let mut i: usize = 0;
    proof {
        assert(ns.subrange(0, 0) =~= Seq::<SpecNode>::empty());
    }
    while i < nodes.len()
        invariant
            i <= nodes@.len(),
            ns == nodes_view(nodes@),
            src == source.spec_bytes(),
            bytes@ == src,
            len == src.len(),
            fits_all(src, ns.subrange(0, i as int)),
        decreases nodes@.len() - i,
    {
        let c = &nodes[i];
        proof {
            assert(ns[i as int] == c@);
            lemma_node_view_children(*c);
            let sub = ns.subrange(0, i + 1);
            assert(sub.subrange(0, sub.len() - 1) =~= ns.subrange(0, i as int));
            assert(sub[sub.len() - 1] == ns[i as int]);
            assert(decreases_to!(ns => ns[i as int]));
            assert(decreases_to!(ns[i as int] => ns[i as int].children));
        }
        proof {
            if fits_all(src, ns) {
                lemma_fits_all_elem(src, ns, i as int);
            }
        }
        if c.n_type == NodeType::Text || c.n_type == NodeType::Whitespace {
            if !(c.start <= c.end && c.end <= len) {
                return false;
            }
            if !is_cut_point(bytes, c.start) || !is_cut_point(bytes, c.end) {
                return false;
            }
        }
        if !nodes_fit(source, &c.children) {
            return false;
        }
        i = i + 1;
    }
    proof {
        assert(ns.subrange(0, i as int) =~= ns);
    }
    true
}

} // verus!
