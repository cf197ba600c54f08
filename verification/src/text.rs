//! Text helpers: byte-range substrings, appending to strings, decimal
//! numerals.

use vstd::prelude::*;
use vstd::string::*;
use vstd::utf8::*;

verus! {

broadcast use group_utf8_lib;

/// The decimal digit for `d < 10`.
pub open spec fn digit_char(d: nat) -> char {
    if d == 0 { '0' }
    else if d == 1 { '1' }
    else if d == 2 { '2' }
    else if d == 3 { '3' }
    else if d == 4 { '4' }
    else if d == 5 { '5' }
    else if d == 6 { '6' }
    else if d == 7 { '7' }
    else if d == 8 { '8' }
    else { '9' }
}

/// The decimal numeral of `n`, without leading zeros.
pub open spec fn decimal(n: nat) -> Seq<char>
    decreases n,
{
    if n < 10 {
        seq![digit_char(n)]
    } else {
        decimal(n / 10).push(digit_char(n % 10))
    }
}

/// `i` is a place where a valid UTF-8 byte string may be cut: its start,
/// its end, or a byte that does not continue a multi-byte character.
pub open spec fn cut_point(bytes: Seq<u8>, i: int) -> bool {
    ||| i == 0
    ||| i == bytes.len()
    ||| (0 < i < bytes.len() && !is_continuation_byte(bytes[i]))
}

/// The characters of the bytes `start..end` of a text's encoding.
pub open spec fn byte_range_chars(bytes: Seq<u8>, start: int, end: int) -> Seq<char> {
    decode_utf8(bytes.subrange(start, end))
}

pub proof fn lemma_cut_point_is_char_boundary(bytes: Seq<u8>, i: int)
    requires
        valid_utf8(bytes),
        cut_point(bytes, i),
    ensures
        is_char_boundary(bytes, i),
{
    if 0 < i < bytes.len() {
        is_char_boundary_iff_not_is_continuation_byte(bytes, i);
    } else {
        is_char_boundary_start_end_of_seq(bytes);
    }
}

/// In valid UTF-8, the byte after an ASCII byte starts a character.
pub proof fn lemma_after_ascii(bytes: Seq<u8>, p: int)
    requires
        valid_utf8(bytes),
        0 <= p,
        p + 1 < bytes.len(),
        bytes[p] < 128,
    ensures
        !is_continuation_byte(bytes[p + 1]),
{
    is_char_boundary_iff_not_is_continuation_byte(bytes, p);
    valid_utf8_split(bytes, p);
    let tail = bytes.subrange(p, bytes.len() as int);
    assert(tail[0] == bytes[p]);
    assert(length_of_first_scalar(tail) == 1);
    let pop = pop_first_scalar(tail);
    assert(valid_utf8(pop));
    assert(pop[0] == bytes[p + 1]);
    is_char_boundary_iff_not_is_continuation_byte(pop, 0);
}

/// std's `String::push`: the text afterwards is the text before followed
/// by `c`.
#[verifier::external_body]
pub(crate) fn push_char(s: &mut String, c: char)
    ensures
        final(s)@ == old(s)@.push(c),
{
    s.push(c);
}

/// The text `s[start..end]`, cut at byte offsets.
pub fn slice_str<'a>(s: &'a str, start: usize, end: usize) -> (r: &'a str)
    requires
        start <= end <= s.spec_bytes().len(),
        cut_point(s.spec_bytes(), start as int),
        cut_point(s.spec_bytes(), end as int),
    ensures
        r.spec_bytes() == s.spec_bytes().subrange(start as int, end as int),
        r@ == byte_range_chars(s.spec_bytes(), start as int, end as int),
{
    let ghost bytes = s.spec_bytes();
    proof {
        encode_utf8_valid_utf8(s@);
        lemma_cut_point_is_char_boundary(bytes, start as int);
    }
    let (_head, tail) = s.split_at(start);
    proof {
        valid_utf8_split(bytes, start as int);
        let tb = tail.spec_bytes();
        assert(tb =~= bytes.subrange(start as int, bytes.len() as int));
        if end < bytes.len() {
            assert(tb[end - start] == bytes[end as int]);
            is_char_boundary_iff_not_is_continuation_byte(tb, end - start);
        } else {
            is_char_boundary_start_end_of_seq(tb);
        }
    }
    let (mid, _rest) = tail.split_at(end - start);
    proof {
        assert(mid.spec_bytes() =~= bytes.subrange(start as int, end as int));
        encode_utf8_decode_utf8(mid@);
    }
    mid
}

/// An owned copy of the text `s[start..end]`, cut at byte offsets.
pub fn substr(s: &str, start: usize, end: usize) -> (r: String)
    requires
        start <= end <= s.spec_bytes().len(),
        cut_point(s.spec_bytes(), start as int),
        cut_point(s.spec_bytes(), end as int),
    ensures
        r@ == byte_range_chars(s.spec_bytes(), start as int, end as int),
        encode_utf8(r@) == s.spec_bytes().subrange(start as int, end as int),
{
    let mid = slice_str(s, start, end);
    proof {
        encode_utf8_decode_utf8(mid@);
    }
    String::from_str(mid)
}

/// Appends the decimal numeral of `n`.
pub fn push_decimal(s: &mut String, n: usize)
    ensures
        final(s)@ == old(s)@ + decimal(n as nat),
    decreases n,
{
    if n >= 10 {
        push_decimal(s, n / 10);
    }
    let d = n % 10;
    let c = if d == 0 { '0' }
        else if d == 1 { '1' }
        else if d == 2 { '2' }
        else if d == 3 { '3' }
        else if d == 4 { '4' }
        else if d == 5 { '5' }
        else if d == 6 { '6' }
        else if d == 7 { '7' }
        else if d == 8 { '8' }
        else { '9' };
    push_char(s, c);
    proof {
        if n >= 10 {
            assert(decimal(n as nat) == decimal((n / 10) as nat).push(digit_char((n % 10) as nat)));
        }
    }
}

/// The decimal numeral of `n` (std's `usize::to_string`).
pub fn usize_to_string(n: usize) -> (r: String)
    ensures
        r@ == decimal(n as nat),
{
    let mut s = String::new();
    push_decimal(&mut s, n);
    proof { assert(s@ =~= decimal(n as nat)); }
    s
}

/// Appends a text.
pub fn push_str(out: &mut String, s: &str)
    ensures
        final(out)@ == old(out)@ + s@,
{
    out.append(s);
}

/// Whether a text's encoding may be cut at `i` (`cut_point`).
pub fn is_cut_point(bytes: &[u8], i: usize) -> (r: bool)
    requires
        i <= bytes@.len(),
    ensures
        r == cut_point(bytes@, i as int),
{
    i == 0 || i == bytes.len() || !(0x80 <= bytes[i] && bytes[i] <= 0xbf)
}

} // verus!
