//! What every run of the lexer gives: tokens that tile the text; and
//! where the tag handler closes a tag.

use vstd::prelude::*;
use crate::handlers::{lemma_run_end_bounds, rest, run_end, tag_close, tag_confirm, BuiltinHandler, Handler, PseudoHTMLHandler};
use crate::lexer::{breaks_line, eof_token, lex_from, next_special, select, special_set, spec_tokenise, text_token};
use crate::text::{byte_range_chars, decimal};
use crate::token::{SpecToken, TokenType};

verus! {

/// The tokens of `bytes` from `pos` tile the text: the first starts at
/// `pos`, each ends where the next starts and covers at least one byte,
/// and the last is the end-of-file token at the end.
pub open spec fn adjacent(ts: Seq<SpecToken>, i: int) -> bool {
    ts[i].start < ts[i].end && ts[i].end == ts[i + 1].start
}

pub open spec fn tiles(ts: Seq<SpecToken>, pos: int, len: int) -> bool {
    &&& ts.len() >= 1
    &&& ts[0].start == pos
    &&& forall|i: int| 0 <= i < ts.len() - 1 ==> #[trigger] adjacent(ts, i)
    &&& ts.last() == eof_token(len)
}

proof fn lemma_next_special_bounds(bytes: Seq<u8>, sp: Set<u8>, i: int)
    requires
        0 <= i,
    ensures
        i <= bytes.len() ==> i <= next_special(bytes, sp, i) <= bytes.len(),
    decreases bytes.len() - i,
{
    if i < bytes.len() && !sp.contains(bytes[i]) {
        lemma_next_special_bounds(bytes, sp, i + 1);
    }
}

proof fn lemma_handle_starts_at(h: BuiltinHandler, bytes: Seq<u8>, pos: int)
    ensures
        h.spec_handle(bytes, pos).start == pos,
{
}

proof fn lemma_tiles_prepend(t: SpecToken, ts: Seq<SpecToken>, len: int)
    requires
        t.start < t.end,
        tiles(ts, t.end, len),
    ensures
        tiles(seq![t] + ts, t.start, len),
{
    let r = seq![t] + ts;
    assert forall|i: int| 0 <= i < r.len() - 1 implies #[trigger] adjacent(r, i) by {
        if i > 0 {
            assert(r[i] == ts[i - 1]);
            assert(r[i + 1] == ts[i]);
            assert(adjacent(ts, i - 1));
        }
    }
}

proof fn lemma_lex_tiles(hs: Seq<BuiltinHandler>, bytes: Seq<u8>, pos: int, sol: bool)
    requires
        0 <= pos <= bytes.len(),
        lex_from(hs, bytes, pos, sol) is Some,
    ensures
        tiles(lex_from(hs, bytes, pos, sol)->0, pos, bytes.len() as int),
    decreases bytes.len() - pos,
{
    if pos < bytes.len() {
        let p = next_special(bytes, special_set(hs), pos);
        lemma_next_special_bounds(bytes, special_set(hs), pos);
        if p >= bytes.len() {
            let ts = lex_from(hs, bytes, pos, sol)->0;
            assert(ts =~= seq![text_token(pos, bytes.len() as int), eof_token(bytes.len() as int)]);
        } else if p > pos {
            lemma_lex_tiles(hs, bytes, p, sol);
            lemma_tiles_prepend(text_token(pos, p), lex_from(hs, bytes, p, sol)->0, bytes.len() as int);
        } else {
            match select(hs, 0, bytes, pos, sol) {
                Some(Some(k)) => {
                    let t = hs[k].spec_handle(bytes, pos);
                    lemma_handle_starts_at(hs[k], bytes, pos);
                    lemma_lex_tiles(hs, bytes, t.end, breaks_line(t.t_type));
                    lemma_tiles_prepend(t, lex_from(hs, bytes, t.end, breaks_line(t.t_type))->0, bytes.len() as int);
                },
                Some(None) => {
                    let e = run_end(bytes, pos + 1, bytes[pos]);
                    lemma_run_end_bounds(bytes, pos + 1, bytes[pos]);
                    let t = SpecToken {
                        t_type: TokenType::Text,
                        t_detail: Some(byte_range_chars(bytes, pos, e)),
                        start: pos,
                        end: e,
                    };
                    lemma_lex_tiles(hs, bytes, e, false);
                    lemma_tiles_prepend(t, lex_from(hs, bytes, e, false)->0, bytes.len() as int);
                },
                None => {},
            }
        }
    }
}

/// The tokens of a text tile it: they start at its first byte, follow one
/// another without gap or overlap, each covers at least one byte, and the
/// last is the end-of-file token at its end.
pub proof fn law_tokens_tile_text(hs: Seq<BuiltinHandler>, bytes: Seq<u8>)
    requires
        spec_tokenise(hs, bytes) is Some,
    ensures
        tiles(spec_tokenise(hs, bytes)->0, 0, bytes.len() as int),
{
    lemma_lex_tiles(hs, bytes, 0, true);
}

proof fn lemma_tag_close_prefix(s: Seq<u8>, w: int, i: int, dq: bool, sq: bool)
    requires
        0 <= w <= s.len(),
        tag_close(s.subrange(0, w), i, dq, sq) is Some,
    ensures
        tag_close(s, i, dq, sq) == tag_close(s.subrange(0, w), i, dq, sq),
    decreases w - i,
{
    let p = s.subrange(0, w);
    if 0 <= i < w {
        assert(p[i] == s[i]);
        if p[i] == 34 && !sq {
            lemma_tag_close_prefix(s, w, i + 1, !dq, sq);
        } else if p[i] == 39 && !dq {
            lemma_tag_close_prefix(s, w, i + 1, dq, !sq);
        } else if !(p[i] == 62 && !dq && !sq) {
            lemma_tag_close_prefix(s, w, i + 1, dq, sq);
        }
    }
}

/// The tag handler closes a tag where its check found the close: when the
/// text at `pos` starts with `<` and the tag check accepts the text from
/// `pos` up to `end` (the window the lexer shows it), the token runs from
/// `pos` to just past the first `>` outside quotes in that window, and its
/// detail is the text between `<` and that `>`.
pub proof fn law_tag_token_ends_at_first_close(bytes: Seq<u8>, pos: int, end: int)
    requires
        0 <= pos < end <= bytes.len(),
        bytes[pos] == 60,
        tag_confirm(bytes.subrange(pos, end)),
    ensures
        PseudoHTMLHandler.handle_ok(bytes, pos),
        ({
            let j = tag_close(bytes.subrange(pos, end), 1, false, false).unwrap();
            &&& 1 <= j < end - pos
            &&& bytes[pos + j] == 62
            &&& PseudoHTMLHandler.spec_handle(bytes, pos) == (SpecToken {
                t_type: TokenType::PseudoHtml,
                t_detail: Some(byte_range_chars(bytes, pos + 1, pos + j)),
                start: pos,
                end: pos + j + 1,
            })
        }),
{
    let r = rest(bytes, pos);
    let win = bytes.subrange(pos, end);
    assert(r.subrange(0, end - pos) =~= win);
    lemma_tag_close_prefix(r, end - pos, 1, false, false);
    crate::handlers::lemma_tag_close_bounds(win, 1, false, false);
    let j = tag_close(win, 1, false, false).unwrap();
    assert(win[j] == bytes[pos + j]);
}

/// Each marker gives its own kind of token: `**` a `Bold` token, `//` an
/// `Italic` one, `__` an `Underline` one, `[[` a `LinkOpen` one, `{{` an
/// `ImageOpen` one, `}}` an `ImageClose` one and `((` a `FootnoteOpen` one,
/// each two bytes long at the marker and accepted only on exactly its two
/// characters; a run of `>` gives a `Quote` token whose detail is the
/// length of the run; a run of `=` a `Heading` token whose detail is seven
/// less the length of the run; a newline a `Newline` token one byte long;
/// `\\ ` a three-byte `Linebreak` token; a run of spaces one `Whitespace`
/// token; the end of input an empty `Eof` token.
pub proof fn law_marker_tokens(bytes: Seq<u8>, pos: int, s: Seq<u8>)
    ensures
        BuiltinHandler::Bold.spec_trigger() == Some('*'),
        BuiltinHandler::Bold.spec_confirm(s) <==> s == seq![42u8, 42u8],
        BuiltinHandler::Bold.spec_handle(bytes, pos) == (SpecToken { t_type: TokenType::Bold, t_detail: None, start: pos, end: pos + 2 }),
        BuiltinHandler::Italic.spec_trigger() == Some('/'),
        BuiltinHandler::Italic.spec_confirm(s) <==> s == seq![47u8, 47u8],
        BuiltinHandler::Italic.spec_handle(bytes, pos) == (SpecToken { t_type: TokenType::Italic, t_detail: None, start: pos, end: pos + 2 }),
        BuiltinHandler::Underline.spec_trigger() == Some('_'),
        BuiltinHandler::Underline.spec_confirm(s) <==> s == seq![95u8, 95u8],
        BuiltinHandler::Underline.spec_handle(bytes, pos) == (SpecToken { t_type: TokenType::Underline, t_detail: None, start: pos, end: pos + 2 }),
        BuiltinHandler::LinkOpen.spec_trigger() == Some('['),
        BuiltinHandler::LinkOpen.spec_confirm(s) <==> s == seq![91u8, 91u8],
        BuiltinHandler::LinkOpen.spec_handle(bytes, pos) == (SpecToken { t_type: TokenType::LinkOpen, t_detail: None, start: pos, end: pos + 2 }),
        BuiltinHandler::ImageOpen.spec_trigger() == Some('{'),
        BuiltinHandler::ImageOpen.spec_confirm(s) <==> s == seq![123u8, 123u8],
        BuiltinHandler::ImageOpen.spec_handle(bytes, pos) == (SpecToken { t_type: TokenType::ImageOpen, t_detail: None, start: pos, end: pos + 2 }),
        BuiltinHandler::ImageClose.spec_trigger() == Some('}'),
        BuiltinHandler::ImageClose.spec_confirm(s) <==> s == seq![125u8, 125u8],
        BuiltinHandler::ImageClose.spec_handle(bytes, pos) == (SpecToken { t_type: TokenType::ImageClose, t_detail: None, start: pos, end: pos + 2 }),
        BuiltinHandler::FootnoteOpen.spec_trigger() == Some('('),
        BuiltinHandler::FootnoteOpen.spec_confirm(s) <==> s == seq![40u8, 40u8],
        BuiltinHandler::FootnoteOpen.spec_handle(bytes, pos) == (SpecToken { t_type: TokenType::FootnoteOpen, t_detail: None, start: pos, end: pos + 2 }),
        BuiltinHandler::Quote.spec_trigger() == Some('>'),
        BuiltinHandler::Quote.spec_handle(bytes, pos) == (SpecToken {
            t_type: TokenType::Quote,
            t_detail: Some(decimal((run_end(bytes, pos, 62) - pos) as nat)),
            start: pos,
            end: run_end(bytes, pos, 62),
        }),
        BuiltinHandler::Newline.spec_trigger() == Some('\n'),
        BuiltinHandler::Newline.spec_handle(bytes, pos) == (SpecToken { t_type: TokenType::Newline, t_detail: None, start: pos, end: pos + 1 }),
        BuiltinHandler::Heading.spec_trigger() == Some('='),
        BuiltinHandler::Heading.spec_handle(bytes, pos) == (SpecToken {
            t_type: TokenType::Heading,
            t_detail: Some(decimal((7 - (run_end(bytes, pos, 61) - pos)) as nat)),
            start: pos,
            end: run_end(bytes, pos, 61),
        }),
        BuiltinHandler::Linebreak.spec_confirm(s) <==> s == seq![92u8, 92u8, 32u8],
        BuiltinHandler::Linebreak.spec_handle(bytes, pos) == (SpecToken { t_type: TokenType::Linebreak, t_detail: None, start: pos, end: pos + 3 }),
        BuiltinHandler::Whitespace.spec_trigger() == Some(' '),
        BuiltinHandler::Whitespace.spec_handle(bytes, pos) == (SpecToken {
            t_type: TokenType::Whitespace,
            t_detail: None,
            start: pos,
            end: run_end(bytes, pos, 32),
        }),
        BuiltinHandler::Eof.spec_handle(bytes, pos) == (SpecToken { t_type: TokenType::Eof, t_detail: None, start: pos, end: pos }),
        BuiltinHandler::QMark.spec_handle(bytes, pos) == (SpecToken { t_type: TokenType::QMark, t_detail: None, start: pos, end: pos }),
        BuiltinHandler::PseudoHtml.spec_trigger() == Some('<'),
{
}

} // verus!
