//! The lexer: splits a page's text into tokens, using the handlers.

use vstd::prelude::*;
use vstd::string::*;
use vstd::utf8::*;
use std::collections::HashSet;
use crate::handlers::{builtin_handlers, builtin_seq, lemma_run_end_bounds, find_run_end, run_end, BuiltinHandler, Handler};
use crate::text::{byte_range_chars, cut_point, is_cut_point, slice_str, substr};
use crate::token::{tokens_view, Cursor, SpecToken, Token, TokenType};

verus! {

broadcast use group_utf8_lib, vstd::std_specs::hash::group_hash_axioms;

/// The byte a handler is triggered by.
pub open spec fn trigger_byte(h: BuiltinHandler) -> Option<u8> {
    match h.spec_trigger() {
        Some(c) => Some(c as u8),
        None => None,
    }
}

/// The bytes that trigger some handler of `hs`.
pub open spec fn special_set(hs: Seq<BuiltinHandler>) -> Set<u8> {
    Set::new(|b: u8| exists|i: int| 0 <= i < hs.len() && trigger_byte(hs[i]) == Some(b))
}

/// The first index at or after `i` holding a byte of `sp` (the length if
/// there is none).
pub open spec fn next_special(bytes: Seq<u8>, sp: Set<u8>, i: int) -> int
    decreases bytes.len() - i,
{
    if i < 0 || i >= bytes.len() {
        bytes.len() as int
    } else if sp.contains(bytes[i]) {
        i
    } else {
        next_special(bytes, sp, i + 1)
    }
}

/// The end of the look-ahead window of `n` bytes at `pos`.
pub open spec fn window_end(bytes: Seq<u8>, pos: int, n: int) -> int {
    if pos + n <= bytes.len() { pos + n } else { bytes.len() as int }
}

/// The choice among `hs[k..]` of the handler for the construct at `pos`:
/// `None` where the look-ahead window cannot be cut out of the text,
/// `Some(None)` where no handler takes it, `Some(Some(j))` for handler `j`.
pub open spec fn select(hs: Seq<BuiltinHandler>, k: int, bytes: Seq<u8>, pos: int, sol: bool) -> Option<Option<int>>
    decreases hs.len() - k,
{
    if k < 0 || k >= hs.len() {
        Some(None)
    } else {
        let h = hs[k];
        let b = bytes[pos];
        if trigger_byte(h) != Some(b) || h.spec_maybe(b as char) == 0 {
            select(hs, k + 1, bytes, pos, sol)
        } else {
            let e = window_end(bytes, pos, h.spec_maybe(b as char) as int);
            if !cut_point(bytes, pos) || !cut_point(bytes, e) {
                None
            } else if !h.spec_confirm(bytes.subrange(pos, e)) {
                select(hs, k + 1, bytes, pos, sol)
            } else if h.spec_requires_line_start() && !sol {
                select(hs, k + 1, bytes, pos, sol)
            } else {
                Some(Some(k))
            }
        }
    }
}

pub open spec fn eof_token(len: int) -> SpecToken {
    SpecToken { t_type: TokenType::Eof, t_detail: None, start: len, end: len }
}

pub open spec fn text_token(start: int, end: int) -> SpecToken {
    SpecToken { t_type: TokenType::Text, t_detail: None, start, end }
}

pub open spec fn breaks_line(t: TokenType) -> bool {
    t == TokenType::Linebreak || t == TokenType::Newline
}

/// The tokens of `bytes` from `pos` on, where `sol` tells whether `pos` is
/// at the start of a line; `None` where lexing does not complete (a
/// handler that does not advance, a cut inside a character, a handler
/// that cannot produce its token).
pub open spec fn lex_from(hs: Seq<BuiltinHandler>, bytes: Seq<u8>, pos: int, sol: bool) -> Option<Seq<SpecToken>>
    decreases bytes.len() - pos,
{
    if pos < 0 {
        None
    } else if pos >= bytes.len() {
        Some(seq![eof_token(bytes.len() as int)])
    } else {
        let p = next_special(bytes, special_set(hs), pos);
        if p >= bytes.len() {
            Some(seq![text_token(pos, bytes.len() as int), eof_token(bytes.len() as int)])
        } else if p > pos {
            match lex_from(hs, bytes, p, sol) {
                Some(ts) => Some(seq![text_token(pos, p)] + ts),
                None => None,
            }
        } else {
            match select(hs, 0, bytes, pos, sol) {
                None => None,
                Some(Some(k)) => {
                    let h = hs[k];
                    if !h.handle_ok(bytes, pos) {
                        None
                    } else {
                        let t = h.spec_handle(bytes, pos);
                        if t.end <= pos || t.end > bytes.len() {
                            None
                        } else {
                            match lex_from(hs, bytes, t.end, breaks_line(t.t_type)) {
                                Some(ts) => Some(seq![t] + ts),
                                None => None,
                            }
                        }
                    }
                },
                Some(None) => {
                    let e = run_end(bytes, pos + 1, bytes[pos]);
                    if e <= pos || !cut_point(bytes, pos) || !cut_point(bytes, e) {
                        None
                    } else {
                        let t = SpecToken {
                            t_type: TokenType::Text,
                            t_detail: Some(byte_range_chars(bytes, pos, e)),
                            start: pos,
                            end: e,
                        };
                        match lex_from(hs, bytes, e, false) {
                            Some(ts) => Some(seq![t] + ts),
                            None => None,
                        }
                    }
                },
            }
        }
    }
}

/// The tokens of a text, for a lexer with handlers `hs`.
pub open spec fn spec_tokenise(hs: Seq<BuiltinHandler>, bytes: Seq<u8>) -> Option<Seq<SpecToken>> {
    lex_from(hs, bytes, 0, true)
}

/// Handlers by descending priority.
pub open spec fn by_priority(hs: Seq<BuiltinHandler>) -> bool {
    forall|i: int, j: int| 0 <= i < j < hs.len() ==> hs[i].spec_priority() >= hs[j].spec_priority()
}

/// The lexer: its handlers, by descending priority, and the set of their
/// trigger bytes.
pub struct Lexer {
    handlers: Vec<BuiltinHandler>,
    special_chars: HashSet<u8>,
}

impl View for Lexer {
    type V = Seq<BuiltinHandler>;

    closed spec fn view(&self) -> Seq<BuiltinHandler> {
        self.handlers@
    }
}

impl Lexer {
    #[verifier::type_invariant]
    spec fn inv(self) -> bool {
        self.special_chars@ == special_set(self.handlers@)
    }

    /// A lexer with the built-in handlers, sorted by descending priority
    /// (handlers of equal priority keep their order).
    pub fn new() -> (l: Lexer)
        ensures
            l@ == lexer_handlers(),
            by_priority(l@),
            l@.to_multiset() == builtin_seq().to_multiset(),
    {
        let handlers = builtin_handlers();
        let handlers = sort_by_priority(&handlers);
        let special_chars = Self::build_special_chars(&handlers);
        Lexer { handlers, special_chars }
    }

    /// The index of the next byte at or after `pos` that triggers a handler.
    fn next_special_pos(&self, bytes: &[u8], pos: usize) -> (p: usize)
        requires
            pos <= bytes@.len(),
        ensures
            p == next_special(bytes@, special_set(self.handlers@), pos as int),
    {
        proof {
            use_type_invariant(self);
        }
        let mut i = pos;
        while i < bytes.len() && !self.special_chars.contains(&bytes[i])
            invariant
                pos <= i <= bytes@.len(),
                self.special_chars@ == special_set(self.handlers@),
                next_special(bytes@, special_set(self.handlers@), pos as int) == next_special(
                    bytes@,
                    special_set(self.handlers@),
                    i as int,
                ),
            decreases bytes@.len() - i,
        {
            i = i + 1;
        }
        i
    }

    /// The handler that takes the construct at `pos`, if one does; `None`
    /// where a look-ahead window cannot be cut out of the text.
    fn select_handler(&self, input: &str, pos: usize, sol: bool) -> (r: Option<Option<usize>>)
        requires
            pos < input.spec_bytes().len(),
        ensures
            match select(self.handlers@, 0, input.spec_bytes(), pos as int, sol) {
                None => r is None,
                Some(None) => r == Some(None::<usize>),
                Some(Some(k)) => r matches Some(Some(x)) && x as int == k && 0 <= k < self.handlers@.len(),
            },
    {
        let bytes = input.as_bytes();
        let len = bytes.len();
        let byte = bytes[pos];
        let ghost hs = self.handlers@;
        let mut k: usize = 0;
        while k < self.handlers.len()
            invariant
                bytes@ == input.spec_bytes(),
                len == bytes@.len(),
                pos < len,
                byte == bytes@[pos as int],
                hs == self.handlers@,
                k <= hs.len(),
                select(hs, 0, bytes@, pos as int, sol) == select(hs, k as int, bytes@, pos as int, sol),
            decreases hs.len() - k,
        {
            let h = self.handlers[k];
            let t = h.trigger();
            if let Some(c) = t {
                if c as u8 == byte {
                    let lookahead = h.maybe(byte as char);
                    if lookahead != 0 {
                        let e = if lookahead <= len - pos { pos + lookahead } else { len };
                        if !is_cut_point(bytes, pos) || !is_cut_point(bytes, e) {
                            return None;
                        }
                        let window = slice_str(input, pos, e);
                        if h.confirm(window) {
                            if !(h.requires_line_start() && !sol) {
                                return Some(Some(k));
                            }
                        }
                    }
                }
            }
            k = k + 1;
        }
        Some(None)
    }

    /// The tokens of `input`, ending with an end-of-input token.
    pub fn tokenise(&self, input: &str) -> (tokens: Vec<Token>)
        requires
            spec_tokenise(self@, input.spec_bytes()) is Some,
        ensures
            tokens_view(tokens@) == spec_tokenise(self@, input.spec_bytes()).unwrap(),
    {
        match self.try_tokenise(input) {
            Some(tokens) => tokens,
            None => {
                proof {
                    assert(false);
                }
                Vec::new()
            },
        }
    }

    /// The tokens of `input`, or `None` where lexing does not complete (a
    /// handler that does not advance, a look-ahead window or a run that
    /// cannot be cut out of the text, a handler that cannot produce its
    /// token).
    pub fn try_tokenise(&self, input: &str) -> (r: Option<Vec<Token>>)
        ensures
            match spec_tokenise(self@, input.spec_bytes()) {
                Some(ts) => r matches Some(v) && tokens_view(v@) == ts,
                None => r is None,
            },
    {
        let bytes = input.as_bytes();
        let len = bytes.len();
        let ghost hs = self.handlers@;
        let mut cursor = Cursor { input, pos: 0 };
        let mut tokens: Vec<Token> = Vec::new();
        let mut start_of_line = true;
        proof {
            if let Some(full) = lex_from(hs, bytes@, 0, true) {
                assert(tokens_view(tokens@) + full =~= full);
            }
        }
        while cursor.pos < len
            invariant
                bytes@ == input.spec_bytes(),
                len == bytes@.len(),
                hs == self.handlers@,
                cursor.input == input,
                cursor.pos <= len,
                match lex_from(hs, bytes@, cursor.pos as int, start_of_line) {
                    Some(rest) => lex_from(hs, bytes@, 0, true) == Some(tokens_view(tokens@) + rest),
                    None => lex_from(hs, bytes@, 0, true) is None,
                },
            decreases len - cursor.pos,
        {
            let pos = cursor.pos;
            let ghost before = tokens_view(tokens@);
            let ghost sol = start_of_line;
            let p = self.next_special_pos(bytes, pos);
            let t: Token;
            if p >= len {
                t = Token { t_type: TokenType::Text, t_detail: None, start: pos, end: len };
                cursor.pos = len;
            } else if p > pos {
                t = Token { t_type: TokenType::Text, t_detail: None, start: pos, end: p };
                cursor.pos = p;
            } else {
                match self.select_handler(input, pos, start_of_line) {
                    None => {
                        return None;
                    },
                    Some(Some(k)) => {
                        if !self.handlers[k].can_handle(input, pos) {
                            return None;
                        }
                        let tok = self.handlers[k].handle(&cursor);
                        if tok.end <= pos || tok.end > len {
                            return None;
                        }
                        cursor.pos = tok.end;
                        start_of_line = tok.t_type == TokenType::Linebreak || tok.t_type
                            == TokenType::Newline;
                        t = tok;
                    },
                    Some(None) => {
                        let byte = bytes[pos];
                        let end = find_run_end(bytes, pos + 1, byte);
                        proof {
                            lemma_run_end_bounds(bytes@, pos + 1, byte);
                        }
                        if !is_cut_point(bytes, pos) || !is_cut_point(bytes, end) {
                            return None;
                        }
                        let detail = substr(input, pos, end);
                        start_of_line = false;
                        t = Token { t_type: TokenType::Text, t_detail: Some(detail), start: pos, end };
                        cursor.pos = end;
                    },
                }
            }
            tokens.push(t);
            proof {
                assert(tokens_view(tokens@) =~= before.push(t@));
                if let Some(rest) = lex_from(hs, bytes@, cursor.pos as int, start_of_line) {
                    assert(lex_from(hs, bytes@, pos as int, sol) == Some(seq![t@] + rest));
                    assert(tokens_view(tokens@) + rest =~= before + (seq![t@] + rest));
                }
            }
        }
        let eof = Token { t_type: TokenType::Eof, t_detail: None, start: len, end: len };
        tokens.push(eof);
        proof {
            assert(tokens_view(tokens@) =~= tokens_view(tokens@.drop_last()).push(eof@));
        }
        Some(tokens)
    }

    /// The set of trigger bytes of `handlers`.
    fn build_special_chars(handlers: &Vec<BuiltinHandler>) -> (chars: HashSet<u8>)
        ensures
            chars@ == special_set(handlers@),
    {
        let mut chars: HashSet<u8> = HashSet::new();
        let mut i: usize = 0;
        while i < handlers.len()
            invariant
                i <= handlers@.len(),
                chars@ == special_set(handlers@.subrange(0, i as int)),
            decreases handlers@.len() - i,
        {
            let ghost old_chars = chars@;
            let t = handlers[i].trigger();
            if let Some(c) = t {
                chars.insert(c as u8);
            }
            proof {
                let hs = handlers@.subrange(0, i + 1);
                let hp = handlers@.subrange(0, i as int);
                assert(hs[i as int] == handlers@[i as int]);
                assert forall|b: u8| chars@.contains(b) <==> special_set(hs).contains(b) by {
                    if chars@.contains(b) && !old_chars.contains(b) {
                        assert(trigger_byte(hs[i as int]) == Some(b));
                    }
                    if special_set(hs).contains(b) {
                        let j = choose|j: int| 0 <= j < hs.len() && trigger_byte(hs[j]) == Some(b);
                        if j < i {
                            assert(hp[j] == hs[j]);
                        }
                    }
                    if old_chars.contains(b) {
                        let j = choose|j: int| 0 <= j < hp.len() && trigger_byte(hp[j]) == Some(b);
                        assert(hs[j] == hp[j]);
                    }
                }
                assert(chars@ =~= special_set(hs));
            }
            i = i + 1;
        }
        proof {
            assert(handlers@.subrange(0, handlers@.len() as int) =~= handlers@);
        }
        chars
    }
}

/// The place of a handler of priority `p` in `r`: after every handler of
/// priority at least `p`, counted from `j`.
pub open spec fn insert_pos(r: Seq<BuiltinHandler>, p: u16, j: int) -> int
    decreases r.len() - j,
{
    if 0 <= j < r.len() && r[j].spec_priority() >= p {
        insert_pos(r, p, j + 1)
    } else {
        j
    }
}

/// The stable sort of handlers by descending priority, by insertion.
pub open spec fn spec_sort(hs: Seq<BuiltinHandler>) -> Seq<BuiltinHandler>
    decreases hs.len(),
{
    if hs.len() == 0 {
        seq![]
    } else {
        let r = spec_sort(hs.drop_last());
        r.insert(insert_pos(r, hs.last().spec_priority(), 0), hs.last())
    }
}

/// The handlers of a new lexer: the built-in ones, by descending priority.
pub open spec fn lexer_handlers() -> Seq<BuiltinHandler> {
    spec_sort(builtin_seq())
}

/// Stable insertion sort of handlers by descending priority.
fn sort_by_priority(hs: &Vec<BuiltinHandler>) -> (r: Vec<BuiltinHandler>)
    ensures
        r@ == spec_sort(hs@),
        by_priority(r@),
        r@.to_multiset() == hs@.to_multiset(),
{
    broadcast use vstd::seq_lib::group_to_multiset_ensures;
    let mut r: Vec<BuiltinHandler> = Vec::new();
    let mut i: usize = 0;
    while i < hs.len()
        invariant
            i <= hs@.len(),
            by_priority(r@),
            r@ == spec_sort(hs@.subrange(0, i as int)),
            r@.to_multiset() == hs@.subrange(0, i as int).to_multiset(),
        decreases hs@.len() - i,
    {
        let h = hs[i];
        let p = h.priority();
        let mut j: usize = 0;
        while j < r.len() && r[j].priority() >= p
            invariant
                j <= r@.len(),
                p == h.spec_priority(),
                forall|k: int| 0 <= k < j ==> r@[k].spec_priority() >= p,
                insert_pos(r@, p, 0) == insert_pos(r@, p, j as int),
            decreases r@.len() - j,
        {
            j = j + 1;
        }
        let ghost old_r = r@;
        r.insert(j, h);
        proof {
            assert(hs@.subrange(0, i + 1).drop_last() =~= hs@.subrange(0, i as int));
            assert(hs@.subrange(0, i + 1).last() == h);
            r@.to_multiset_ensures();
            old_r.to_multiset_ensures();
            hs@.subrange(0, i as int).to_multiset_ensures();
            assert(r@.remove(j as int) =~= old_r);
            assert(r@.remove(j as int).to_multiset() =~= r@.to_multiset().remove(r@[j as int]));
            assert(hs@.subrange(0, i + 1) =~= hs@.subrange(0, i as int).push(h));
            assert(r@[j as int] == h);
            assert(r@.to_multiset().remove(h) =~= old_r.to_multiset());
            assert(r@.to_multiset().count(h) > 0) by {
                assert(r@[j as int] == h);
                assert(r@.contains(h));
            }
            assert(r@.to_multiset() =~= old_r.to_multiset().insert(h));
            assert forall|a: int, b: int| 0 <= a < b < r@.len() implies r@[a].spec_priority() >= r@[b].spec_priority() by {
                if a < j && b == j {
                } else if a == j && b > j {
                    assert(r@[b] == old_r[b - 1]);
                    if b - 1 > j as int {
                        assert(old_r[j as int].spec_priority() >= old_r[b - 1].spec_priority());
                    }
                } else {
                }
            }
        }
        i = i + 1;
    }
    proof {
        assert(hs@.subrange(0, hs@.len() as int) =~= hs@);
    }
    r
}

} // verus!
