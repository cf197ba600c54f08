//! Token handlers: each one recognises one markup construct that starts with
//! its trigger byte and produces the token for it.

use vstd::prelude::*;
use vstd::string::*;
use vstd::utf8::*;
use crate::text::{byte_range_chars, decimal, lemma_after_ascii, substr, usize_to_string};
use crate::token::{Cursor, SpecToken, Token, TokenType};

verus! {

broadcast use group_utf8_lib;

/// The first index at or after `i` whose byte is not `x` (or `i` itself
/// when `i` is outside the bytes).
pub open spec fn run_end(bytes: Seq<u8>, i: int, x: u8) -> int
    decreases bytes.len() - i,
{
    if 0 <= i < bytes.len() && bytes[i] == x {
        run_end(bytes, i + 1, x)
    } else {
        i
    }
}

pub proof fn lemma_run_end_bounds(bytes: Seq<u8>, i: int, x: u8)
    requires
        0 <= i <= bytes.len(),
    ensures
        i <= run_end(bytes, i, x) <= bytes.len(),
        forall|k: int| i <= k < run_end(bytes, i, x) ==> bytes[k] == x,
        run_end(bytes, i, x) < bytes.len() ==> bytes[run_end(bytes, i, x)] != x,
    decreases bytes.len() - i,
{
    if i < bytes.len() && bytes[i] == x {
        lemma_run_end_bounds(bytes, i + 1, x);
    }
}

/// The index of the first `>` at or after `i` that stands outside double and
/// single quotes, given whether a double (`dq`) or single (`sq`) quote is open.
pub open spec fn tag_close(s: Seq<u8>, i: int, dq: bool, sq: bool) -> Option<int>
    decreases s.len() - i,
{
    if i < 0 || i >= s.len() {
        None
    } else if s[i] == 34 && !sq {
        tag_close(s, i + 1, !dq, sq)
    } else if s[i] == 39 && !dq {
        tag_close(s, i + 1, dq, !sq)
    } else if s[i] == 62 && !dq && !sq {
        Some(i)
    } else {
        tag_close(s, i + 1, dq, sq)
    }
}

pub proof fn lemma_tag_close_bounds(s: Seq<u8>, i: int, dq: bool, sq: bool)
    ensures
        tag_close(s, i, dq, sq) matches Some(k) ==> i <= k < s.len() && s[k] == 62,
    decreases s.len() - i,
{
    if 0 <= i < s.len() {
        lemma_tag_close_bounds(s, i + 1, !dq, sq);
        lemma_tag_close_bounds(s, i + 1, dq, !sq);
        lemma_tag_close_bounds(s, i + 1, dq, sq);
    }
}

pub open spec fn is_ascii_alpha(b: u8) -> bool {
    (65 <= b <= 90) || (97 <= b <= 122)
}

/// What the tag handler accepts: `<` then a letter, or `</` then a letter,
/// and a closing `>` outside quotes.
pub open spec fn tag_confirm(s: Seq<u8>) -> bool {
    tag_opening(s) && tag_close(s, 1, false, false) is Some
}

/// `<` then a letter, or `</` then a letter.
pub open spec fn tag_opening(s: Seq<u8>) -> bool {
    &&& s.len() >= 3
    &&& s[0] == 60
    &&& s[1] != 60
    &&& (if s[1] == 47 { is_ascii_alpha(s[2]) } else { is_ascii_alpha(s[1]) })
}

/// The number of leading `=` of a heading candidate is at least two and is
/// followed by a space, or the candidate ends with `=`.
pub open spec fn heading_confirm(s: Seq<u8>) -> bool {
    let eq = run_end(s, 0, 61);
    eq >= 2 && ((eq < s.len() && s[eq] == 32) || (s.len() > 0 && s.last() == 61))
}

/// A token with no payload.
pub open spec fn plain_token(t: TokenType, start: int, end: int) -> SpecToken {
    SpecToken { t_type: t, t_detail: None, start, end }
}

/// The bytes from `pos` to the end.
pub open spec fn rest(bytes: Seq<u8>, pos: int) -> Seq<u8> {
    bytes.subrange(pos, bytes.len() as int)
}

/// A handler of one markup construct.
pub trait Handler {
    spec fn spec_trigger(&self) -> Option<char>;

    spec fn spec_priority(&self) -> u16;

    spec fn spec_maybe(&self, c: char) -> usize;

    spec fn spec_confirm(&self, s: Seq<u8>) -> bool;

    spec fn spec_requires_line_start(&self) -> bool;

    /// `handle` completes at `pos` of `bytes`.
    spec fn handle_ok(&self, bytes: Seq<u8>, pos: int) -> bool;

    /// The token `handle` produces at `pos` of `bytes`.
    spec fn spec_handle(&self, bytes: Seq<u8>, pos: int) -> SpecToken;

    /// The byte that starts this construct.
    fn trigger(&self) -> (r: Option<char>)
        ensures
            r == self.spec_trigger(),
    ;

    /// Handlers with higher priority are tried first.
    fn priority(&self) -> (r: u16)
        ensures
            r == self.spec_priority(),
    ;

    /// How many bytes to look at to confirm the construct, 0 if `c` cannot
    /// start it.
    fn maybe(&self, c: char) -> (r: usize)
        ensures
            r == self.spec_maybe(c),
    ;

    /// Whether the looked-at text `s` is this construct.
    fn confirm(&self, s: &str) -> (r: bool)
        ensures
            r == self.spec_confirm(s.spec_bytes()),
    ;

    /// Whether the construct only counts at the start of a line.
    fn requires_line_start(&self) -> (r: bool)
        ensures
            r == self.spec_requires_line_start(),
    ;

    /// The token for the construct at the cursor.
    fn handle(&self, cursor: &Cursor) -> (t: Token)
        requires
            cursor.pos < cursor.input.spec_bytes().len() <= usize::MAX,
            self.handle_ok(cursor.input.spec_bytes(), cursor.pos as int),
        ensures
            t@ == self.spec_handle(cursor.input.spec_bytes(), cursor.pos as int),
    ;
}

fn is_two(s: &str, b: u8) -> (r: bool)
    ensures
        r == (s.spec_bytes() == seq![b, b]),
{
    let bs = s.as_bytes();
    let r = bs.len() == 2 && bs[0] == b && bs[1] == b;
    proof {
        if bs@.len() == 2 {
            if r {
                assert(bs@ =~= seq![b, b]);
            }
        }
    }
    r
}

/// The end of the run of `x` bytes starting at `i`.
pub fn find_run_end(bytes: &[u8], i: usize, x: u8) -> (r: usize)
    requires
        i <= bytes@.len(),
    ensures
        r == run_end(bytes@, i as int, x),
{
    let mut k = i;
    while k < bytes.len() && bytes[k] == x
        invariant
            i <= k <= bytes@.len(),
            run_end(bytes@, i as int, x) == run_end(bytes@, k as int, x),
        decreases bytes@.len() - k,
    {
        k = k + 1;
    }
    k
}

pub struct WhitespaceHandler;

pub struct HeadingHandler;

pub struct EofHandler;

pub struct LinebreakHandler;

pub struct NewlineHandler;

pub struct BoldHandler;

pub struct ItalicHandler;

pub struct UnderlineHandler;

pub struct LinkOpenHandler;

pub struct PipeHandler;

pub struct LinkCloseHandler;

pub struct PseudoHTMLHandler;

pub struct ImageOpenHandler;

pub struct ImageCloseHandler;

pub struct QMarkHandler;

pub struct FootnoteOpenHandler;

pub struct FootnoteCloseHandler;

pub struct QuoteHandler;

impl Handler for WhitespaceHandler {
    open spec fn spec_trigger(&self) -> Option<char> { Some(' ') }
    open spec fn spec_priority(&self) -> u16 { 5 }
    open spec fn spec_maybe(&self, c: char) -> usize { if c == ' ' { 1 } else { 0 } }
    open spec fn spec_confirm(&self, s: Seq<u8>) -> bool { true }
    open spec fn spec_requires_line_start(&self) -> bool { false }
    open spec fn handle_ok(&self, bytes: Seq<u8>, pos: int) -> bool { true }
    open spec fn spec_handle(&self, bytes: Seq<u8>, pos: int) -> SpecToken {
        plain_token(TokenType::Whitespace, pos, run_end(bytes, pos, 32))
    }

    fn trigger(&self) -> (r: Option<char>) { Some(' ') }
    fn priority(&self) -> (r: u16) { 5 }
    fn maybe(&self, c: char) -> (r: usize) { if c == ' ' { 1 } else { 0 } }
    fn confirm(&self, _s: &str) -> (r: bool) { true }
    fn requires_line_start(&self) -> (r: bool) { false }

    fn handle(&self, cursor: &Cursor) -> (t: Token) {
        let end = find_run_end(cursor.input.as_bytes(), cursor.pos, 32);
        Token { t_type: TokenType::Whitespace, t_detail: None, start: cursor.pos, end: end }
    }
}

impl Handler for BoldHandler {
    open spec fn spec_trigger(&self) -> Option<char> { Some('*') }
    open spec fn spec_priority(&self) -> u16 { 200 }
    open spec fn spec_maybe(&self, c: char) -> usize { if c == '*' { 2 } else { 0 } }
    open spec fn spec_confirm(&self, s: Seq<u8>) -> bool { s == seq![42u8, 42u8] }
    open spec fn spec_requires_line_start(&self) -> bool { false }
    open spec fn handle_ok(&self, bytes: Seq<u8>, pos: int) -> bool { pos + 2 <= usize::MAX }
    open spec fn spec_handle(&self, bytes: Seq<u8>, pos: int) -> SpecToken {
        plain_token(TokenType::Bold, pos, pos + 2)
    }

    fn trigger(&self) -> (r: Option<char>) { Some('*') }
    fn priority(&self) -> (r: u16) { 200 }
    fn maybe(&self, c: char) -> (r: usize) { if c == '*' { 2 } else { 0 } }
    fn confirm(&self, s: &str) -> (r: bool) { is_two(s, 42) }
    fn requires_line_start(&self) -> (r: bool) { false }

    fn handle(&self, cursor: &Cursor) -> (t: Token) {
        Token { t_type: TokenType::Bold, t_detail: None, start: cursor.pos, end: cursor.pos + 2 }
    }
}

impl Handler for ItalicHandler {
    open spec fn spec_trigger(&self) -> Option<char> { Some('/') }
    open spec fn spec_priority(&self) -> u16 { 500 }
    open spec fn spec_maybe(&self, c: char) -> usize { if c == '/' { 2 } else { 0 } }
    open spec fn spec_confirm(&self, s: Seq<u8>) -> bool { s == seq![47u8, 47u8] }
    open spec fn spec_requires_line_start(&self) -> bool { false }
    open spec fn handle_ok(&self, bytes: Seq<u8>, pos: int) -> bool { pos + 2 <= usize::MAX }
    open spec fn spec_handle(&self, bytes: Seq<u8>, pos: int) -> SpecToken {
        plain_token(TokenType::Italic, pos, pos + 2)
    }

    fn trigger(&self) -> (r: Option<char>) { Some('/') }
    fn priority(&self) -> (r: u16) { 500 }
    fn maybe(&self, c: char) -> (r: usize) { if c == '/' { 2 } else { 0 } }
    fn confirm(&self, s: &str) -> (r: bool) { is_two(s, 47) }
    fn requires_line_start(&self) -> (r: bool) { false }

    fn handle(&self, cursor: &Cursor) -> (t: Token) {
        Token { t_type: TokenType::Italic, t_detail: None, start: cursor.pos, end: cursor.pos + 2 }
    }
}

impl Handler for UnderlineHandler {
    open spec fn spec_trigger(&self) -> Option<char> { Some('_') }
    open spec fn spec_priority(&self) -> u16 { 450 }
    open spec fn spec_maybe(&self, c: char) -> usize { if c == '_' { 2 } else { 0 } }
    open spec fn spec_confirm(&self, s: Seq<u8>) -> bool { s == seq![95u8, 95u8] }
    open spec fn spec_requires_line_start(&self) -> bool { false }
    open spec fn handle_ok(&self, bytes: Seq<u8>, pos: int) -> bool { pos + 2 <= usize::MAX }
    open spec fn spec_handle(&self, bytes: Seq<u8>, pos: int) -> SpecToken {
        plain_token(TokenType::Underline, pos, pos + 2)
    }

    fn trigger(&self) -> (r: Option<char>) { Some('_') }
    fn priority(&self) -> (r: u16) { 450 }
    fn maybe(&self, c: char) -> (r: usize) { if c == '_' { 2 } else { 0 } }
    fn confirm(&self, s: &str) -> (r: bool) { is_two(s, 95) }
    fn requires_line_start(&self) -> (r: bool) { false }

    fn handle(&self, cursor: &Cursor) -> (t: Token) {
        Token { t_type: TokenType::Underline, t_detail: None, start: cursor.pos, end: cursor.pos + 2 }
    }
}

impl Handler for LinkOpenHandler {
    open spec fn spec_trigger(&self) -> Option<char> { Some('[') }
    open spec fn spec_priority(&self) -> u16 { 11 }
    open spec fn spec_maybe(&self, c: char) -> usize { if c == '[' { 2 } else { 0 } }
    open spec fn spec_confirm(&self, s: Seq<u8>) -> bool { s == seq![91u8, 91u8] }
    open spec fn spec_requires_line_start(&self) -> bool { false }
    open spec fn handle_ok(&self, bytes: Seq<u8>, pos: int) -> bool { pos + 2 <= usize::MAX }
    open spec fn spec_handle(&self, bytes: Seq<u8>, pos: int) -> SpecToken {
        plain_token(TokenType::LinkOpen, pos, pos + 2)
    }

    fn trigger(&self) -> (r: Option<char>) { Some('[') }
    fn priority(&self) -> (r: u16) { 11 }
    fn maybe(&self, c: char) -> (r: usize) { if c == '[' { 2 } else { 0 } }
    fn confirm(&self, s: &str) -> (r: bool) { is_two(s, 91) }
    fn requires_line_start(&self) -> (r: bool) { false }

    fn handle(&self, cursor: &Cursor) -> (t: Token) {
        Token { t_type: TokenType::LinkOpen, t_detail: None, start: cursor.pos, end: cursor.pos + 2 }
    }
}

impl Handler for PseudoHTMLHandler {
    open spec fn spec_trigger(&self) -> Option<char> { Some('<') }
    open spec fn spec_priority(&self) -> u16 { 15 }
    open spec fn spec_maybe(&self, c: char) -> usize { if c == '<' { 2048 } else { 0 } }
    open spec fn spec_confirm(&self, s: Seq<u8>) -> bool { tag_confirm(s) }
    open spec fn spec_requires_line_start(&self) -> bool { false }
    open spec fn handle_ok(&self, bytes: Seq<u8>, pos: int) -> bool {
        bytes[pos] == 60 && tag_close(rest(bytes, pos), 1, false, false) is Some
    }
    open spec fn spec_handle(&self, bytes: Seq<u8>, pos: int) -> SpecToken {
        let i = tag_close(rest(bytes, pos), 1, false, false).unwrap();
        SpecToken {
            t_type: TokenType::PseudoHtml,
            t_detail: Some(byte_range_chars(bytes, pos + 1, pos + i)),
            start: pos,
            end: pos + i + 1,
        }
    }

    fn trigger(&self) -> (r: Option<char>) { Some('<') }
    fn priority(&self) -> (r: u16) { 15 }
    fn maybe(&self, c: char) -> (r: usize) { if c == '<' { 2048 } else { 0 } }
    fn requires_line_start(&self) -> (r: bool) { false }

    fn confirm(&self, s: &str) -> (r: bool) {
        let bytes = s.as_bytes();
        if bytes.len() < 3 || bytes[0] != 60 || bytes[1] == 60 {
            return false;
        }
        if bytes[1] == 47 {
            let b = bytes[2];
            if !((65 <= b && b <= 90) || (97 <= b && b <= 122)) {
                return false;
            }
        } else {
            let b = bytes[1];
            if !((65 <= b && b <= 90) || (97 <= b && b <= 122)) {
                return false;
            }
        }
        let mut dq = false;
        let mut sq = false;
        let mut i: usize = 1;
        while i < bytes.len()
            invariant
                1 <= i <= bytes@.len(),
                tag_opening(bytes@),
                bytes@ == s.spec_bytes(),
                tag_close(bytes@, 1, false, false) == tag_close(bytes@, i as int, dq, sq),
            decreases bytes@.len() - i,
        {
            let b = bytes[i];
            if b == 34 && !sq {
                dq = !dq;
            } else if b == 39 && !dq {
                sq = !sq;
            } else if b == 62 && !dq && !sq {
                assert(tag_close(bytes@, i as int, dq, sq) == Some(i as int));
                return true;
            }
            i = i + 1;
        }
        false
    }

    fn handle(&self, cursor: &Cursor) -> (t: Token) {
        let input = cursor.input;
        let pos = cursor.pos;
        let bytes = input.as_bytes();
        let ghost r = rest(bytes@, pos as int);
        let mut dq = false;
        let mut sq = false;
        let mut i: usize = 1;
        proof {
            lemma_tag_close_bounds(r, 1, false, false);
        }
        loop
            invariant
                1 <= i,
                pos < bytes@.len() <= usize::MAX,
                bytes@[pos as int] == 60,
                pos == cursor.pos,
                input == cursor.input,
                r == rest(bytes@, pos as int),
                bytes@ == input.spec_bytes(),
                tag_close(r, 1, false, false) is Some,
                tag_close(r, 1, false, false) == tag_close(r, i as int, dq, sq),
            decreases bytes@.len() - pos - i,
        {
            proof {
                lemma_tag_close_bounds(r, i as int, dq, sq);
            }
            assert(r[i as int] == bytes@[pos + i]);
            let b = bytes[pos + i];
            if b == 34 && !sq {
                dq = !dq;
            } else if b == 39 && !dq {
                sq = !sq;
            } else if b == 62 && !dq && !sq {
                proof {
                    encode_utf8_valid_utf8(input@);
                    if i > 1 {
                        lemma_after_ascii(bytes@, pos as int);
                    }
                }
                assert(tag_close(r, i as int, dq, sq) == Some(i as int));
                let detail = substr(input, pos + 1, pos + i);
                assert(detail@ == byte_range_chars(input.spec_bytes(), pos + 1, pos + i));
                assert(tag_close(rest(input.spec_bytes(), pos as int), 1, false, false).unwrap() == i);
                return Token {
                    t_type: TokenType::PseudoHtml,
                    t_detail: Some(detail),
                    start: pos,
                    end: pos + i + 1,
                };
            }
            i = i + 1;
        }
    }
}

impl Handler for PipeHandler {
    open spec fn spec_trigger(&self) -> Option<char> { Some('|') }
    open spec fn spec_priority(&self) -> u16 { 50 }
    open spec fn spec_maybe(&self, c: char) -> usize { if c == '|' { 1 } else { 0 } }
    open spec fn spec_confirm(&self, s: Seq<u8>) -> bool { true }
    open spec fn spec_requires_line_start(&self) -> bool { false }
    open spec fn handle_ok(&self, bytes: Seq<u8>, pos: int) -> bool { true }
    open spec fn spec_handle(&self, bytes: Seq<u8>, pos: int) -> SpecToken {
        plain_token(TokenType::LinkOpen, pos, pos + 1)
    }

    fn trigger(&self) -> (r: Option<char>) { Some('|') }
    fn priority(&self) -> (r: u16) { 50 }
    fn maybe(&self, c: char) -> (r: usize) { if c == '|' { 1 } else { 0 } }
    fn confirm(&self, _s: &str) -> (r: bool) { true }
    fn requires_line_start(&self) -> (r: bool) { false }

    fn handle(&self, cursor: &Cursor) -> (t: Token) {
        Token { t_type: TokenType::LinkOpen, t_detail: None, start: cursor.pos, end: cursor.pos + 1 }
    }
}

impl Handler for LinkCloseHandler {
    open spec fn spec_trigger(&self) -> Option<char> { Some(']') }
    open spec fn spec_priority(&self) -> u16 { 11 }
    open spec fn spec_maybe(&self, c: char) -> usize { if c == '[' { 2 } else { 0 } }
    open spec fn spec_confirm(&self, s: Seq<u8>) -> bool { s == seq![93u8, 93u8] }
    open spec fn spec_requires_line_start(&self) -> bool { false }
    open spec fn handle_ok(&self, bytes: Seq<u8>, pos: int) -> bool { pos + 2 <= usize::MAX }
    open spec fn spec_handle(&self, bytes: Seq<u8>, pos: int) -> SpecToken {
        plain_token(TokenType::LinkOpen, pos, pos + 2)
    }

    fn trigger(&self) -> (r: Option<char>) { Some(']') }
    fn priority(&self) -> (r: u16) { 11 }
    fn maybe(&self, c: char) -> (r: usize) { if c == '[' { 2 } else { 0 } }
    fn confirm(&self, s: &str) -> (r: bool) { is_two(s, 93) }
    fn requires_line_start(&self) -> (r: bool) { false }

    fn handle(&self, cursor: &Cursor) -> (t: Token) {
        Token { t_type: TokenType::LinkOpen, t_detail: None, start: cursor.pos, end: cursor.pos + 2 }
    }
}

impl Handler for FootnoteOpenHandler {
    open spec fn spec_trigger(&self) -> Option<char> { Some('(') }
    open spec fn spec_priority(&self) -> u16 { 7 }
    open spec fn spec_maybe(&self, c: char) -> usize { if c == '(' { 2 } else { 0 } }
    open spec fn spec_confirm(&self, s: Seq<u8>) -> bool { s == seq![40u8, 40u8] }
    open spec fn spec_requires_line_start(&self) -> bool { false }
    open spec fn handle_ok(&self, bytes: Seq<u8>, pos: int) -> bool { pos + 2 <= usize::MAX }
    open spec fn spec_handle(&self, bytes: Seq<u8>, pos: int) -> SpecToken {
        plain_token(TokenType::FootnoteOpen, pos, pos + 2)
    }

    fn trigger(&self) -> (r: Option<char>) { Some('(') }
    fn priority(&self) -> (r: u16) { 7 }
    fn maybe(&self, c: char) -> (r: usize) { if c == '(' { 2 } else { 0 } }
    fn confirm(&self, s: &str) -> (r: bool) { is_two(s, 40) }
    fn requires_line_start(&self) -> (r: bool) { false }

    fn handle(&self, cursor: &Cursor) -> (t: Token) {
        Token { t_type: TokenType::FootnoteOpen, t_detail: None, start: cursor.pos, end: cursor.pos + 2 }
    }
}

impl Handler for FootnoteCloseHandler {
    open spec fn spec_trigger(&self) -> Option<char> { Some(')') }
    open spec fn spec_priority(&self) -> u16 { 7 }
    open spec fn spec_maybe(&self, c: char) -> usize { if c == ')' { 2 } else { 0 } }
    open spec fn spec_confirm(&self, s: Seq<u8>) -> bool { s == seq![41u8, 41u8] }
    open spec fn spec_requires_line_start(&self) -> bool { false }
    open spec fn handle_ok(&self, bytes: Seq<u8>, pos: int) -> bool { pos + 2 <= usize::MAX }
    open spec fn spec_handle(&self, bytes: Seq<u8>, pos: int) -> SpecToken {
        plain_token(TokenType::ImageOpen, pos, pos + 2)
    }

    fn trigger(&self) -> (r: Option<char>) { Some(')') }
    fn priority(&self) -> (r: u16) { 7 }
    fn maybe(&self, c: char) -> (r: usize) { if c == ')' { 2 } else { 0 } }
    fn confirm(&self, s: &str) -> (r: bool) { is_two(s, 41) }
    fn requires_line_start(&self) -> (r: bool) { false }

    fn handle(&self, cursor: &Cursor) -> (t: Token) {
        Token { t_type: TokenType::ImageOpen, t_detail: None, start: cursor.pos, end: cursor.pos + 2 }
    }
}

impl Handler for ImageOpenHandler {
    open spec fn spec_trigger(&self) -> Option<char> { Some('{') }
    open spec fn spec_priority(&self) -> u16 { 130 }
    open spec fn spec_maybe(&self, c: char) -> usize { if c == '{' { 2 } else { 0 } }
    open spec fn spec_confirm(&self, s: Seq<u8>) -> bool { s == seq![123u8, 123u8] }
    open spec fn spec_requires_line_start(&self) -> bool { false }
    open spec fn handle_ok(&self, bytes: Seq<u8>, pos: int) -> bool { pos + 2 <= usize::MAX }
    open spec fn spec_handle(&self, bytes: Seq<u8>, pos: int) -> SpecToken {
        plain_token(TokenType::ImageOpen, pos, pos + 2)
    }

    fn trigger(&self) -> (r: Option<char>) { Some('{') }
    fn priority(&self) -> (r: u16) { 130 }
    fn maybe(&self, c: char) -> (r: usize) { if c == '{' { 2 } else { 0 } }
    fn confirm(&self, s: &str) -> (r: bool) { is_two(s, 123) }
    fn requires_line_start(&self) -> (r: bool) { false }

    fn handle(&self, cursor: &Cursor) -> (t: Token) {
        Token { t_type: TokenType::ImageOpen, t_detail: None, start: cursor.pos, end: cursor.pos + 2 }
    }
}

impl Handler for ImageCloseHandler {
    open spec fn spec_trigger(&self) -> Option<char> { Some('}') }
    open spec fn spec_priority(&self) -> u16 { 170 }
    open spec fn spec_maybe(&self, c: char) -> usize { if c == '}' { 2 } else { 0 } }
    open spec fn spec_confirm(&self, s: Seq<u8>) -> bool { s == seq![125u8, 125u8] }
    open spec fn spec_requires_line_start(&self) -> bool { false }
    open spec fn handle_ok(&self, bytes: Seq<u8>, pos: int) -> bool { pos + 2 <= usize::MAX }
    open spec fn spec_handle(&self, bytes: Seq<u8>, pos: int) -> SpecToken {
        plain_token(TokenType::ImageClose, pos, pos + 2)
    }

    fn trigger(&self) -> (r: Option<char>) { Some('}') }
    fn priority(&self) -> (r: u16) { 170 }
    fn maybe(&self, c: char) -> (r: usize) { if c == '}' { 2 } else { 0 } }
    fn confirm(&self, s: &str) -> (r: bool) { is_two(s, 125) }
    fn requires_line_start(&self) -> (r: bool) { false }

    fn handle(&self, cursor: &Cursor) -> (t: Token) {
        Token { t_type: TokenType::ImageClose, t_detail: None, start: cursor.pos, end: cursor.pos + 2 }
    }
}

impl Handler for QMarkHandler {
    open spec fn spec_trigger(&self) -> Option<char> { Some('?') }
    open spec fn spec_priority(&self) -> u16 { 3 }
    open spec fn spec_maybe(&self, c: char) -> usize { if c == '?' { 1 } else { 0 } }
    open spec fn spec_confirm(&self, s: Seq<u8>) -> bool { true }
    open spec fn spec_requires_line_start(&self) -> bool { false }
    open spec fn handle_ok(&self, bytes: Seq<u8>, pos: int) -> bool { true }
    open spec fn spec_handle(&self, bytes: Seq<u8>, pos: int) -> SpecToken {
        plain_token(TokenType::QMark, pos, pos)
    }

    fn trigger(&self) -> (r: Option<char>) { Some('?') }
    fn priority(&self) -> (r: u16) { 3 }
    fn maybe(&self, c: char) -> (r: usize) { if c == '?' { 1 } else { 0 } }
    fn confirm(&self, _s: &str) -> (r: bool) { true }
    fn requires_line_start(&self) -> (r: bool) { false }

    fn handle(&self, cursor: &Cursor) -> (t: Token) {
        Token { t_type: TokenType::QMark, t_detail: None, start: cursor.pos, end: cursor.pos }
    }
}

impl Handler for HeadingHandler {
    open spec fn spec_trigger(&self) -> Option<char> { Some('=') }
    open spec fn spec_priority(&self) -> u16 { 10 }
    open spec fn spec_maybe(&self, c: char) -> usize { if c == '=' { 7 } else { 0 } }
    open spec fn spec_confirm(&self, s: Seq<u8>) -> bool { heading_confirm(s) }
    open spec fn spec_requires_line_start(&self) -> bool { true }
    /// The level is seven minus the number of `=`, so at most seven may stand.
    open spec fn handle_ok(&self, bytes: Seq<u8>, pos: int) -> bool {
        run_end(bytes, pos, 61) - pos <= 7
    }
    open spec fn spec_handle(&self, bytes: Seq<u8>, pos: int) -> SpecToken {
        let n = run_end(bytes, pos, 61) - pos;
        SpecToken {
            t_type: TokenType::Heading,
            t_detail: Some(decimal((7 - n) as nat)),
            start: pos,
            end: pos + n,
        }
    }

    fn trigger(&self) -> (r: Option<char>) { Some('=') }
    fn priority(&self) -> (r: u16) { 10 }
    fn maybe(&self, c: char) -> (r: usize) { if c == '=' { 7 } else { 0 } }
    fn requires_line_start(&self) -> (r: bool) { true }

    fn confirm(&self, s: &str) -> (r: bool) {
        let bytes = s.as_bytes();
        let equals = find_run_end(bytes, 0, 61);
        proof {
            lemma_run_end_bounds(bytes@, 0, 61);
        }
        equals >= 2 && ((equals < bytes.len() && bytes[equals] == 32) || (bytes.len() > 0
            && bytes[bytes.len() - 1] == 61))
    }

    fn handle(&self, cursor: &Cursor) -> (t: Token) {
        let end = find_run_end(cursor.input.as_bytes(), cursor.pos, 61);
        proof {
            lemma_run_end_bounds(cursor.input.spec_bytes(), cursor.pos as int, 61);
        }
        let equal_count = end - cursor.pos;
        let level = usize_to_string(7 - equal_count);
        Token {
            t_type: TokenType::Heading,
            t_detail: Some(level),
            start: cursor.pos,
            end: cursor.pos + equal_count,
        }
    }
}

impl Handler for QuoteHandler {
    open spec fn spec_trigger(&self) -> Option<char> { Some('>') }
    open spec fn spec_priority(&self) -> u16 { 20 }
    open spec fn spec_maybe(&self, c: char) -> usize { if c == '>' { 7 } else { 0 } }
    open spec fn spec_confirm(&self, s: Seq<u8>) -> bool { true }
    open spec fn spec_requires_line_start(&self) -> bool { true }
    open spec fn handle_ok(&self, bytes: Seq<u8>, pos: int) -> bool { true }
    open spec fn spec_handle(&self, bytes: Seq<u8>, pos: int) -> SpecToken {
        let n = run_end(bytes, pos, 62) - pos;
        SpecToken {
            t_type: TokenType::Quote,
            t_detail: Some(decimal(n as nat)),
            start: pos,
            end: pos + n,
        }
    }

    fn trigger(&self) -> (r: Option<char>) { Some('>') }
    fn priority(&self) -> (r: u16) { 20 }
    fn maybe(&self, c: char) -> (r: usize) { if c == '>' { 7 } else { 0 } }
    fn confirm(&self, _s: &str) -> (r: bool) { true }
    fn requires_line_start(&self) -> (r: bool) { true }

    fn handle(&self, cursor: &Cursor) -> (t: Token) {
        let end = find_run_end(cursor.input.as_bytes(), cursor.pos, 62);
        proof {
            lemma_run_end_bounds(cursor.input.spec_bytes(), cursor.pos as int, 62);
        }
        let level_count = end - cursor.pos;
        Token {
            t_type: TokenType::Quote,
            t_detail: Some(usize_to_string(level_count)),
            start: cursor.pos,
            end: cursor.pos + level_count,
        }
    }
}

impl Handler for EofHandler {
    open spec fn spec_trigger(&self) -> Option<char> { Some('\0') }
    open spec fn spec_priority(&self) -> u16 { 1 }
    open spec fn spec_maybe(&self, c: char) -> usize { if c == '\0' { 1 } else { 0 } }
    open spec fn spec_confirm(&self, s: Seq<u8>) -> bool { true }
    open spec fn spec_requires_line_start(&self) -> bool { false }
    open spec fn handle_ok(&self, bytes: Seq<u8>, pos: int) -> bool { true }
    open spec fn spec_handle(&self, bytes: Seq<u8>, pos: int) -> SpecToken {
        plain_token(TokenType::Eof, pos, pos)
    }

    fn trigger(&self) -> (r: Option<char>) { Some('\0') }
    fn priority(&self) -> (r: u16) { 1 }
    fn maybe(&self, c: char) -> (r: usize) { if c == '\0' { 1 } else { 0 } }
    fn confirm(&self, _s: &str) -> (r: bool) { true }
    fn requires_line_start(&self) -> (r: bool) { false }

    fn handle(&self, cursor: &Cursor) -> (t: Token) {
        Token { t_type: TokenType::Eof, t_detail: None, start: cursor.pos, end: cursor.pos }
    }
}

impl Handler for NewlineHandler {
    open spec fn spec_trigger(&self) -> Option<char> { Some('\n') }
    open spec fn spec_priority(&self) -> u16 { 100 }
    open spec fn spec_maybe(&self, c: char) -> usize { if c == '\n' { 1 } else { 0 } }
    open spec fn spec_confirm(&self, s: Seq<u8>) -> bool { true }
    open spec fn spec_requires_line_start(&self) -> bool { false }
    open spec fn handle_ok(&self, bytes: Seq<u8>, pos: int) -> bool { true }
    open spec fn spec_handle(&self, bytes: Seq<u8>, pos: int) -> SpecToken {
        plain_token(TokenType::Newline, pos, pos + 1)
    }

    fn trigger(&self) -> (r: Option<char>) { Some('\n') }
    fn priority(&self) -> (r: u16) { 100 }
    fn maybe(&self, c: char) -> (r: usize) { if c == '\n' { 1 } else { 0 } }
    fn confirm(&self, _s: &str) -> (r: bool) { true }
    fn requires_line_start(&self) -> (r: bool) { false }

    fn handle(&self, cursor: &Cursor) -> (t: Token) {
        Token { t_type: TokenType::Newline, t_detail: None, start: cursor.pos, end: cursor.pos + 1 }
    }
}

impl Handler for LinebreakHandler {
    open spec fn spec_trigger(&self) -> Option<char> { Some('\\') }
    open spec fn spec_priority(&self) -> u16 { 150 }
    open spec fn spec_maybe(&self, c: char) -> usize { if c == '\\' { 3 } else { 0 } }
    open spec fn spec_confirm(&self, s: Seq<u8>) -> bool { s == seq![92u8, 92u8, 32u8] }
    open spec fn spec_requires_line_start(&self) -> bool { false }
    open spec fn handle_ok(&self, bytes: Seq<u8>, pos: int) -> bool { pos + 3 <= usize::MAX }
    open spec fn spec_handle(&self, bytes: Seq<u8>, pos: int) -> SpecToken {
        plain_token(TokenType::Linebreak, pos, pos + 3)
    }

    fn trigger(&self) -> (r: Option<char>) { Some('\\') }
    fn priority(&self) -> (r: u16) { 150 }
    fn maybe(&self, c: char) -> (r: usize) { if c == '\\' { 3 } else { 0 } }
    fn requires_line_start(&self) -> (r: bool) { false }

    fn confirm(&self, s: &str) -> (r: bool) {
        let b = s.as_bytes();
        let r = b.len() == 3 && b[0] == 92 && b[1] == 92 && b[2] == 32;
        proof {
            if b@.len() == 3 && r {
                assert(b@ =~= seq![92u8, 92u8, 32u8]);
            }
        }
        r
    }

    fn handle(&self, cursor: &Cursor) -> (t: Token) {
        Token { t_type: TokenType::Linebreak, t_detail: None, start: cursor.pos, end: cursor.pos + 3 }
    }
}

/// One of the built-in handlers.
#[derive(Debug, PartialEq, Eq, Structural, Clone, Copy)]
pub enum BuiltinHandler {
    Whitespace,
    Heading,
    Eof,
    Linebreak,
    Newline,
    Bold,
    Italic,
    Underline,
    LinkOpen,
    LinkClose,
    Pipe,
    QMark,
    ImageClose,
    ImageOpen,
    FootnoteOpen,
    FootnoteClose,
    Quote,
    PseudoHtml,
}

impl Handler for BuiltinHandler {
    open spec fn spec_trigger(&self) -> Option<char> {
        match *self {
            BuiltinHandler::Whitespace => WhitespaceHandler.spec_trigger(),
            BuiltinHandler::Heading => HeadingHandler.spec_trigger(),
            BuiltinHandler::Eof => EofHandler.spec_trigger(),
            BuiltinHandler::Linebreak => LinebreakHandler.spec_trigger(),
            BuiltinHandler::Newline => NewlineHandler.spec_trigger(),
            BuiltinHandler::Bold => BoldHandler.spec_trigger(),
            BuiltinHandler::Italic => ItalicHandler.spec_trigger(),
            BuiltinHandler::Underline => UnderlineHandler.spec_trigger(),
            BuiltinHandler::LinkOpen => LinkOpenHandler.spec_trigger(),
            BuiltinHandler::LinkClose => LinkCloseHandler.spec_trigger(),
            BuiltinHandler::Pipe => PipeHandler.spec_trigger(),
            BuiltinHandler::QMark => QMarkHandler.spec_trigger(),
            BuiltinHandler::ImageClose => ImageCloseHandler.spec_trigger(),
            BuiltinHandler::ImageOpen => ImageOpenHandler.spec_trigger(),
            BuiltinHandler::FootnoteOpen => FootnoteOpenHandler.spec_trigger(),
            BuiltinHandler::FootnoteClose => FootnoteCloseHandler.spec_trigger(),
            BuiltinHandler::Quote => QuoteHandler.spec_trigger(),
            BuiltinHandler::PseudoHtml => PseudoHTMLHandler.spec_trigger(),
        }
    }

    open spec fn spec_priority(&self) -> u16 {
        match *self {
            BuiltinHandler::Whitespace => WhitespaceHandler.spec_priority(),
            BuiltinHandler::Heading => HeadingHandler.spec_priority(),
            BuiltinHandler::Eof => EofHandler.spec_priority(),
            BuiltinHandler::Linebreak => LinebreakHandler.spec_priority(),
            BuiltinHandler::Newline => NewlineHandler.spec_priority(),
            BuiltinHandler::Bold => BoldHandler.spec_priority(),
            BuiltinHandler::Italic => ItalicHandler.spec_priority(),
            BuiltinHandler::Underline => UnderlineHandler.spec_priority(),
            BuiltinHandler::LinkOpen => LinkOpenHandler.spec_priority(),
            BuiltinHandler::LinkClose => LinkCloseHandler.spec_priority(),
            BuiltinHandler::Pipe => PipeHandler.spec_priority(),
            BuiltinHandler::QMark => QMarkHandler.spec_priority(),
            BuiltinHandler::ImageClose => ImageCloseHandler.spec_priority(),
            BuiltinHandler::ImageOpen => ImageOpenHandler.spec_priority(),
            BuiltinHandler::FootnoteOpen => FootnoteOpenHandler.spec_priority(),
            BuiltinHandler::FootnoteClose => FootnoteCloseHandler.spec_priority(),
            BuiltinHandler::Quote => QuoteHandler.spec_priority(),
            BuiltinHandler::PseudoHtml => PseudoHTMLHandler.spec_priority(),
        }
    }

    open spec fn spec_maybe(&self, c: char) -> usize {
        match *self {
            BuiltinHandler::Whitespace => WhitespaceHandler.spec_maybe(c),
            BuiltinHandler::Heading => HeadingHandler.spec_maybe(c),
            BuiltinHandler::Eof => EofHandler.spec_maybe(c),
            BuiltinHandler::Linebreak => LinebreakHandler.spec_maybe(c),
            BuiltinHandler::Newline => NewlineHandler.spec_maybe(c),
            BuiltinHandler::Bold => BoldHandler.spec_maybe(c),
            BuiltinHandler::Italic => ItalicHandler.spec_maybe(c),
            BuiltinHandler::Underline => UnderlineHandler.spec_maybe(c),
            BuiltinHandler::LinkOpen => LinkOpenHandler.spec_maybe(c),
            BuiltinHandler::LinkClose => LinkCloseHandler.spec_maybe(c),
            BuiltinHandler::Pipe => PipeHandler.spec_maybe(c),
            BuiltinHandler::QMark => QMarkHandler.spec_maybe(c),
            BuiltinHandler::ImageClose => ImageCloseHandler.spec_maybe(c),
            BuiltinHandler::ImageOpen => ImageOpenHandler.spec_maybe(c),
            BuiltinHandler::FootnoteOpen => FootnoteOpenHandler.spec_maybe(c),
            BuiltinHandler::FootnoteClose => FootnoteCloseHandler.spec_maybe(c),
            BuiltinHandler::Quote => QuoteHandler.spec_maybe(c),
            BuiltinHandler::PseudoHtml => PseudoHTMLHandler.spec_maybe(c),
        }
    }

    open spec fn spec_confirm(&self, s: Seq<u8>) -> bool {
        match *self {
            BuiltinHandler::Whitespace => WhitespaceHandler.spec_confirm(s),
            BuiltinHandler::Heading => HeadingHandler.spec_confirm(s),
            BuiltinHandler::Eof => EofHandler.spec_confirm(s),
            BuiltinHandler::Linebreak => LinebreakHandler.spec_confirm(s),
            BuiltinHandler::Newline => NewlineHandler.spec_confirm(s),
            BuiltinHandler::Bold => BoldHandler.spec_confirm(s),
            BuiltinHandler::Italic => ItalicHandler.spec_confirm(s),
            BuiltinHandler::Underline => UnderlineHandler.spec_confirm(s),
            BuiltinHandler::LinkOpen => LinkOpenHandler.spec_confirm(s),
            BuiltinHandler::LinkClose => LinkCloseHandler.spec_confirm(s),
            BuiltinHandler::Pipe => PipeHandler.spec_confirm(s),
            BuiltinHandler::QMark => QMarkHandler.spec_confirm(s),
            BuiltinHandler::ImageClose => ImageCloseHandler.spec_confirm(s),
            BuiltinHandler::ImageOpen => ImageOpenHandler.spec_confirm(s),
            BuiltinHandler::FootnoteOpen => FootnoteOpenHandler.spec_confirm(s),
            BuiltinHandler::FootnoteClose => FootnoteCloseHandler.spec_confirm(s),
            BuiltinHandler::Quote => QuoteHandler.spec_confirm(s),
            BuiltinHandler::PseudoHtml => PseudoHTMLHandler.spec_confirm(s),
        }
    }

    open spec fn spec_requires_line_start(&self) -> bool {
        match *self {
            BuiltinHandler::Whitespace => WhitespaceHandler.spec_requires_line_start(),
            BuiltinHandler::Heading => HeadingHandler.spec_requires_line_start(),
            BuiltinHandler::Eof => EofHandler.spec_requires_line_start(),
            BuiltinHandler::Linebreak => LinebreakHandler.spec_requires_line_start(),
            BuiltinHandler::Newline => NewlineHandler.spec_requires_line_start(),
            BuiltinHandler::Bold => BoldHandler.spec_requires_line_start(),
            BuiltinHandler::Italic => ItalicHandler.spec_requires_line_start(),
            BuiltinHandler::Underline => UnderlineHandler.spec_requires_line_start(),
            BuiltinHandler::LinkOpen => LinkOpenHandler.spec_requires_line_start(),
            BuiltinHandler::LinkClose => LinkCloseHandler.spec_requires_line_start(),
            BuiltinHandler::Pipe => PipeHandler.spec_requires_line_start(),
            BuiltinHandler::QMark => QMarkHandler.spec_requires_line_start(),
            BuiltinHandler::ImageClose => ImageCloseHandler.spec_requires_line_start(),
            BuiltinHandler::ImageOpen => ImageOpenHandler.spec_requires_line_start(),
            BuiltinHandler::FootnoteOpen => FootnoteOpenHandler.spec_requires_line_start(),
            BuiltinHandler::FootnoteClose => FootnoteCloseHandler.spec_requires_line_start(),
            BuiltinHandler::Quote => QuoteHandler.spec_requires_line_start(),
            BuiltinHandler::PseudoHtml => PseudoHTMLHandler.spec_requires_line_start(),
        }
    }

    open spec fn handle_ok(&self, bytes: Seq<u8>, pos: int) -> bool {
        match *self {
            BuiltinHandler::Whitespace => WhitespaceHandler.handle_ok(bytes, pos),
            BuiltinHandler::Heading => HeadingHandler.handle_ok(bytes, pos),
            BuiltinHandler::Eof => EofHandler.handle_ok(bytes, pos),
            BuiltinHandler::Linebreak => LinebreakHandler.handle_ok(bytes, pos),
            BuiltinHandler::Newline => NewlineHandler.handle_ok(bytes, pos),
            BuiltinHandler::Bold => BoldHandler.handle_ok(bytes, pos),
            BuiltinHandler::Italic => ItalicHandler.handle_ok(bytes, pos),
            BuiltinHandler::Underline => UnderlineHandler.handle_ok(bytes, pos),
            BuiltinHandler::LinkOpen => LinkOpenHandler.handle_ok(bytes, pos),
            BuiltinHandler::LinkClose => LinkCloseHandler.handle_ok(bytes, pos),
            BuiltinHandler::Pipe => PipeHandler.handle_ok(bytes, pos),
            BuiltinHandler::QMark => QMarkHandler.handle_ok(bytes, pos),
            BuiltinHandler::ImageClose => ImageCloseHandler.handle_ok(bytes, pos),
            BuiltinHandler::ImageOpen => ImageOpenHandler.handle_ok(bytes, pos),
            BuiltinHandler::FootnoteOpen => FootnoteOpenHandler.handle_ok(bytes, pos),
            BuiltinHandler::FootnoteClose => FootnoteCloseHandler.handle_ok(bytes, pos),
            BuiltinHandler::Quote => QuoteHandler.handle_ok(bytes, pos),
            BuiltinHandler::PseudoHtml => PseudoHTMLHandler.handle_ok(bytes, pos),
        }
    }

    open spec fn spec_handle(&self, bytes: Seq<u8>, pos: int) -> SpecToken {
        match *self {
            BuiltinHandler::Whitespace => WhitespaceHandler.spec_handle(bytes, pos),
            BuiltinHandler::Heading => HeadingHandler.spec_handle(bytes, pos),
            BuiltinHandler::Eof => EofHandler.spec_handle(bytes, pos),
            BuiltinHandler::Linebreak => LinebreakHandler.spec_handle(bytes, pos),
            BuiltinHandler::Newline => NewlineHandler.spec_handle(bytes, pos),
            BuiltinHandler::Bold => BoldHandler.spec_handle(bytes, pos),
            BuiltinHandler::Italic => ItalicHandler.spec_handle(bytes, pos),
            BuiltinHandler::Underline => UnderlineHandler.spec_handle(bytes, pos),
            BuiltinHandler::LinkOpen => LinkOpenHandler.spec_handle(bytes, pos),
            BuiltinHandler::LinkClose => LinkCloseHandler.spec_handle(bytes, pos),
            BuiltinHandler::Pipe => PipeHandler.spec_handle(bytes, pos),
            BuiltinHandler::QMark => QMarkHandler.spec_handle(bytes, pos),
            BuiltinHandler::ImageClose => ImageCloseHandler.spec_handle(bytes, pos),
            BuiltinHandler::ImageOpen => ImageOpenHandler.spec_handle(bytes, pos),
            BuiltinHandler::FootnoteOpen => FootnoteOpenHandler.spec_handle(bytes, pos),
            BuiltinHandler::FootnoteClose => FootnoteCloseHandler.spec_handle(bytes, pos),
            BuiltinHandler::Quote => QuoteHandler.spec_handle(bytes, pos),
            BuiltinHandler::PseudoHtml => PseudoHTMLHandler.spec_handle(bytes, pos),
        }
    }

    fn trigger(&self) -> (r: Option<char>) {
        match *self {
            BuiltinHandler::Whitespace => WhitespaceHandler.trigger(),
            BuiltinHandler::Heading => HeadingHandler.trigger(),
            BuiltinHandler::Eof => EofHandler.trigger(),
            BuiltinHandler::Linebreak => LinebreakHandler.trigger(),
            BuiltinHandler::Newline => NewlineHandler.trigger(),
            BuiltinHandler::Bold => BoldHandler.trigger(),
            BuiltinHandler::Italic => ItalicHandler.trigger(),
            BuiltinHandler::Underline => UnderlineHandler.trigger(),
            BuiltinHandler::LinkOpen => LinkOpenHandler.trigger(),
            BuiltinHandler::LinkClose => LinkCloseHandler.trigger(),
            BuiltinHandler::Pipe => PipeHandler.trigger(),
            BuiltinHandler::QMark => QMarkHandler.trigger(),
            BuiltinHandler::ImageClose => ImageCloseHandler.trigger(),
            BuiltinHandler::ImageOpen => ImageOpenHandler.trigger(),
            BuiltinHandler::FootnoteOpen => FootnoteOpenHandler.trigger(),
            BuiltinHandler::FootnoteClose => FootnoteCloseHandler.trigger(),
            BuiltinHandler::Quote => QuoteHandler.trigger(),
            BuiltinHandler::PseudoHtml => PseudoHTMLHandler.trigger(),
        }
    }

    fn priority(&self) -> (r: u16) {
        match *self {
            BuiltinHandler::Whitespace => WhitespaceHandler.priority(),
            BuiltinHandler::Heading => HeadingHandler.priority(),
            BuiltinHandler::Eof => EofHandler.priority(),
            BuiltinHandler::Linebreak => LinebreakHandler.priority(),
            BuiltinHandler::Newline => NewlineHandler.priority(),
            BuiltinHandler::Bold => BoldHandler.priority(),
            BuiltinHandler::Italic => ItalicHandler.priority(),
            BuiltinHandler::Underline => UnderlineHandler.priority(),
            BuiltinHandler::LinkOpen => LinkOpenHandler.priority(),
            BuiltinHandler::LinkClose => LinkCloseHandler.priority(),
            BuiltinHandler::Pipe => PipeHandler.priority(),
            BuiltinHandler::QMark => QMarkHandler.priority(),
            BuiltinHandler::ImageClose => ImageCloseHandler.priority(),
            BuiltinHandler::ImageOpen => ImageOpenHandler.priority(),
            BuiltinHandler::FootnoteOpen => FootnoteOpenHandler.priority(),
            BuiltinHandler::FootnoteClose => FootnoteCloseHandler.priority(),
            BuiltinHandler::Quote => QuoteHandler.priority(),
            BuiltinHandler::PseudoHtml => PseudoHTMLHandler.priority(),
        }
    }

    fn maybe(&self, c: char) -> (r: usize) {
        match *self {
            BuiltinHandler::Whitespace => WhitespaceHandler.maybe(c),
            BuiltinHandler::Heading => HeadingHandler.maybe(c),
            BuiltinHandler::Eof => EofHandler.maybe(c),
            BuiltinHandler::Linebreak => LinebreakHandler.maybe(c),
            BuiltinHandler::Newline => NewlineHandler.maybe(c),
            BuiltinHandler::Bold => BoldHandler.maybe(c),
            BuiltinHandler::Italic => ItalicHandler.maybe(c),
            BuiltinHandler::Underline => UnderlineHandler.maybe(c),
            BuiltinHandler::LinkOpen => LinkOpenHandler.maybe(c),
            BuiltinHandler::LinkClose => LinkCloseHandler.maybe(c),
            BuiltinHandler::Pipe => PipeHandler.maybe(c),
            BuiltinHandler::QMark => QMarkHandler.maybe(c),
            BuiltinHandler::ImageClose => ImageCloseHandler.maybe(c),
            BuiltinHandler::ImageOpen => ImageOpenHandler.maybe(c),
            BuiltinHandler::FootnoteOpen => FootnoteOpenHandler.maybe(c),
            BuiltinHandler::FootnoteClose => FootnoteCloseHandler.maybe(c),
            BuiltinHandler::Quote => QuoteHandler.maybe(c),
            BuiltinHandler::PseudoHtml => PseudoHTMLHandler.maybe(c),
        }
    }

    fn confirm(&self, s: &str) -> (r: bool) {
        match *self {
            BuiltinHandler::Whitespace => WhitespaceHandler.confirm(s),
            BuiltinHandler::Heading => HeadingHandler.confirm(s),
            BuiltinHandler::Eof => EofHandler.confirm(s),
            BuiltinHandler::Linebreak => LinebreakHandler.confirm(s),
            BuiltinHandler::Newline => NewlineHandler.confirm(s),
            BuiltinHandler::Bold => BoldHandler.confirm(s),
            BuiltinHandler::Italic => ItalicHandler.confirm(s),
            BuiltinHandler::Underline => UnderlineHandler.confirm(s),
            BuiltinHandler::LinkOpen => LinkOpenHandler.confirm(s),
            BuiltinHandler::LinkClose => LinkCloseHandler.confirm(s),
            BuiltinHandler::Pipe => PipeHandler.confirm(s),
            BuiltinHandler::QMark => QMarkHandler.confirm(s),
            BuiltinHandler::ImageClose => ImageCloseHandler.confirm(s),
            BuiltinHandler::ImageOpen => ImageOpenHandler.confirm(s),
            BuiltinHandler::FootnoteOpen => FootnoteOpenHandler.confirm(s),
            BuiltinHandler::FootnoteClose => FootnoteCloseHandler.confirm(s),
            BuiltinHandler::Quote => QuoteHandler.confirm(s),
            BuiltinHandler::PseudoHtml => PseudoHTMLHandler.confirm(s),
        }
    }

    fn requires_line_start(&self) -> (r: bool) {
        match *self {
            BuiltinHandler::Whitespace => WhitespaceHandler.requires_line_start(),
            BuiltinHandler::Heading => HeadingHandler.requires_line_start(),
            BuiltinHandler::Eof => EofHandler.requires_line_start(),
            BuiltinHandler::Linebreak => LinebreakHandler.requires_line_start(),
            BuiltinHandler::Newline => NewlineHandler.requires_line_start(),
            BuiltinHandler::Bold => BoldHandler.requires_line_start(),
            BuiltinHandler::Italic => ItalicHandler.requires_line_start(),
            BuiltinHandler::Underline => UnderlineHandler.requires_line_start(),
            BuiltinHandler::LinkOpen => LinkOpenHandler.requires_line_start(),
            BuiltinHandler::LinkClose => LinkCloseHandler.requires_line_start(),
            BuiltinHandler::Pipe => PipeHandler.requires_line_start(),
            BuiltinHandler::QMark => QMarkHandler.requires_line_start(),
            BuiltinHandler::ImageClose => ImageCloseHandler.requires_line_start(),
            BuiltinHandler::ImageOpen => ImageOpenHandler.requires_line_start(),
            BuiltinHandler::FootnoteOpen => FootnoteOpenHandler.requires_line_start(),
            BuiltinHandler::FootnoteClose => FootnoteCloseHandler.requires_line_start(),
            BuiltinHandler::Quote => QuoteHandler.requires_line_start(),
            BuiltinHandler::PseudoHtml => PseudoHTMLHandler.requires_line_start(),
        }
    }

    fn handle(&self, cursor: &Cursor) -> (t: Token) {
        match *self {
            BuiltinHandler::Whitespace => WhitespaceHandler.handle(cursor),
            BuiltinHandler::Heading => HeadingHandler.handle(cursor),
            BuiltinHandler::Eof => EofHandler.handle(cursor),
            BuiltinHandler::Linebreak => LinebreakHandler.handle(cursor),
            BuiltinHandler::Newline => NewlineHandler.handle(cursor),
            BuiltinHandler::Bold => BoldHandler.handle(cursor),
            BuiltinHandler::Italic => ItalicHandler.handle(cursor),
            BuiltinHandler::Underline => UnderlineHandler.handle(cursor),
            BuiltinHandler::LinkOpen => LinkOpenHandler.handle(cursor),
            BuiltinHandler::LinkClose => LinkCloseHandler.handle(cursor),
            BuiltinHandler::Pipe => PipeHandler.handle(cursor),
            BuiltinHandler::QMark => QMarkHandler.handle(cursor),
            BuiltinHandler::ImageClose => ImageCloseHandler.handle(cursor),
            BuiltinHandler::ImageOpen => ImageOpenHandler.handle(cursor),
            BuiltinHandler::FootnoteOpen => FootnoteOpenHandler.handle(cursor),
            BuiltinHandler::FootnoteClose => FootnoteCloseHandler.handle(cursor),
            BuiltinHandler::Quote => QuoteHandler.handle(cursor),
            BuiltinHandler::PseudoHtml => PseudoHTMLHandler.handle(cursor),
        }
    }
}

/// The built-in handlers, in their order of declaration.
pub open spec fn builtin_seq() -> Seq<BuiltinHandler> {
    seq![
        BuiltinHandler::Whitespace,
        BuiltinHandler::Heading,
        BuiltinHandler::Eof,
        BuiltinHandler::Linebreak,
        BuiltinHandler::Newline,
        BuiltinHandler::Bold,
        BuiltinHandler::Italic,
        BuiltinHandler::Underline,
        BuiltinHandler::LinkOpen,
        BuiltinHandler::LinkClose,
        BuiltinHandler::Pipe,
        BuiltinHandler::QMark,
        BuiltinHandler::ImageClose,
        BuiltinHandler::ImageOpen,
        BuiltinHandler::FootnoteOpen,
        BuiltinHandler::FootnoteClose,
        BuiltinHandler::Quote,
        BuiltinHandler::PseudoHtml,
    ]
}

/// All built-in handlers.
pub fn builtin_handlers() -> (r: Vec<BuiltinHandler>)
    ensures
        r@ == builtin_seq(),
{
    let mut r: Vec<BuiltinHandler> = Vec::new();
    r.push(BuiltinHandler::Whitespace);
    r.push(BuiltinHandler::Heading);
    r.push(BuiltinHandler::Eof);
    r.push(BuiltinHandler::Linebreak);
    r.push(BuiltinHandler::Newline);
    r.push(BuiltinHandler::Bold);
    r.push(BuiltinHandler::Italic);
    r.push(BuiltinHandler::Underline);
    r.push(BuiltinHandler::LinkOpen);
    r.push(BuiltinHandler::LinkClose);
    r.push(BuiltinHandler::Pipe);
    r.push(BuiltinHandler::QMark);
    r.push(BuiltinHandler::ImageClose);
    r.push(BuiltinHandler::ImageOpen);
    r.push(BuiltinHandler::FootnoteOpen);
    r.push(BuiltinHandler::FootnoteClose);
    r.push(BuiltinHandler::Quote);
    r.push(BuiltinHandler::PseudoHtml);
    assert(r@ =~= builtin_seq());
    r
}

/// Whether a `>` closes the tag that opens at `pos`, outside quotes.
fn tag_closes(bytes: &[u8], pos: usize) -> (r: bool)
    requires
        pos < bytes@.len(),
    ensures
        r == (tag_close(rest(bytes@, pos as int), 1, false, false) is Some),
{
    let ghost r = rest(bytes@, pos as int);
    let n = bytes.len() - pos;
    let mut dq = false;
    let mut sq = false;
    let mut i: usize = 1;
    while i < n
        invariant
            1 <= i,
            n == r.len(),
            pos + n == bytes@.len(),
            bytes@.len() <= usize::MAX,
            r == rest(bytes@, pos as int),
            pos < bytes@.len(),
            tag_close(r, 1, false, false) == tag_close(r, i as int, dq, sq),
        decreases n - i,
    {
        assert(r[i as int] == bytes@[pos + i]);
        let b = bytes[pos + i];
        if b == 34 && !sq {
            dq = !dq;
        } else if b == 39 && !dq {
            sq = !sq;
        } else if b == 62 && !dq && !sq {
            return true;
        }
        i = i + 1;
    }
    false
}

impl BuiltinHandler {
    /// Whether the handler completes at `pos` of `input` (`handle_ok`).
    pub fn can_handle(&self, input: &str, pos: usize) -> (r: bool)
        requires
            pos < input.spec_bytes().len(),
        ensures
            r == self.handle_ok(input.spec_bytes(), pos as int),
    {
        let bytes = input.as_bytes();
        match self {
            BuiltinHandler::Bold | BuiltinHandler::Italic | BuiltinHandler::Underline
            | BuiltinHandler::LinkOpen | BuiltinHandler::LinkClose | BuiltinHandler::ImageClose
            | BuiltinHandler::ImageOpen | BuiltinHandler::FootnoteOpen
            | BuiltinHandler::FootnoteClose => pos <= usize::MAX - 2,
            BuiltinHandler::Linebreak => pos <= usize::MAX - 3,
            BuiltinHandler::Heading => {
                let e = find_run_end(bytes, pos, 61);
                proof {
                    lemma_run_end_bounds(bytes@, pos as int, 61);
                }
                e - pos <= 7
            },
            BuiltinHandler::PseudoHtml => bytes[pos] == 60 && tag_closes(bytes, pos),
            _ => true,
        }
    }
}

} // verus!
