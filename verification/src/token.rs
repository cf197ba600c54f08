//! Tokens produced by the lexer and the cursor handed to token handlers.

use vstd::prelude::*;

verus! {

/// The kind of a lexical token.
#[derive(Debug, PartialEq, Eq, Structural, Clone, Copy)]
pub enum TokenType {
    Text,
    Hr,
    Bold,
    Italic,
    Underline,
    Heading,
    LinkOpen,
    Pipe,
    LinkClose,
    ImageOpen,
    ImageClose,
    QMark,
    FootnoteOpen,
    FootnoteClose,
    Quote,
    PseudoHtml,
    Linebreak,
    Newline,
    Whitespace,
    Eof,
}

impl Default for TokenType {
    fn default() -> (t: TokenType)
        ensures
            t == TokenType::Text,
    {
        TokenType::Text
    }
}

/// A token: its kind, an optional text payload and the byte range
/// `start..end` of the input that it covers.
#[derive(Debug)]
pub struct Token {
    pub t_type: TokenType,
    pub t_detail: Option<String>,
    pub start: usize,
    pub end: usize,
}

/// The mathematical value of a token; the payload is taken by its characters.
pub struct SpecToken {
    pub t_type: TokenType,
    pub t_detail: Option<Seq<char>>,
    pub start: int,
    pub end: int,
}

pub open spec fn opt_str_view(s: Option<String>) -> Option<Seq<char>> {
    match s {
        Some(x) => Some(x@),
        None => None,
    }
}

impl View for Token {
    type V = SpecToken;

    open spec fn view(&self) -> SpecToken {
        SpecToken {
            t_type: self.t_type,
            t_detail: opt_str_view(self.t_detail),
            start: self.start as int,
            end: self.end as int,
        }
    }
}

impl Default for Token {
    fn default() -> (t: Token)
        ensures
            t@ == (SpecToken { t_type: TokenType::Text, t_detail: None, start: 0, end: 0 }),
    {
        Token { t_type: TokenType::Text, t_detail: None, start: 0, end: 0 }
    }
}

pub open spec fn tokens_view(ts: Seq<Token>) -> Seq<SpecToken> {
    ts.map_values(|t: Token| t@)
}

/// A position in an input text, handed to a handler.
#[derive(Debug)]
pub struct Cursor<'a> {
    pub input: &'a str,
    pub pos: usize,
}

} // verus!
