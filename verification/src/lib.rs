//! Mast: a wiki engine. This crate holds its markup converter (lexer, parser,
//! renderer), the access-control rules (IAC), rate limiting, configuration
//! checks and the text helpers of the server, with their specifications.

pub mod admin;
pub mod auth;
pub mod chars;
pub mod config;
pub mod handlers;
pub mod iac;
pub mod iac_laws;
pub mod install;
pub mod lexer;
pub mod lexer_laws;
pub mod pages;
pub mod parser;
pub mod parser_laws;
pub mod rate_limit;
pub mod rate_limit_laws;
pub mod renderer;
pub mod renderer_laws;
pub mod save;
pub mod text;
pub mod token;

use vstd::prelude::*;
use vstd::string::*;
use crate::lexer::{lexer_handlers, spec_tokenise, Lexer};
use crate::parser::{spec_nodeify, Parser, SpecNode};
use crate::renderer::{empty_state, fits_all, nodes_fit, rchildren, spec_build_toc, toc_ok, Renderer};
use crate::token::SpecToken;

verus! {

/// A rendered page: its HTML and its table of contents.
pub struct PageResult {
    pub html: String,
    pub toc: String,
}

/// The tokens of a page's text.
pub open spec fn page_tokens(input: &str) -> Option<Seq<SpecToken>> {
    spec_tokenise(lexer_handlers(), input.spec_bytes())
}

/// The tree of a page's text.
pub open spec fn page_tree(input: &str) -> Seq<SpecNode> {
    spec_nodeify(page_tokens(input).unwrap()).unwrap()
}

/// A page text that renders: its lexing completes, its markup is well
/// formed, its nodes lie in the text, and its table of contents can be
/// built.
pub open spec fn page_renders(input: &str) -> bool {
    &&& page_tokens(input) is Some
    &&& spec_nodeify(page_tokens(input).unwrap()) is Some
    &&& fits_all(input.spec_bytes(), page_tree(input))
    &&& toc_ok(rchildren(input.spec_bytes(), empty_state(), page_tree(input)).1)
}

/// The HTML of a page text.
pub open spec fn page_html(input: &str) -> Seq<char> {
    rchildren(input.spec_bytes(), empty_state(), page_tree(input)).0
}

/// The table of contents of a page text.
pub open spec fn page_toc(input: &str) -> Seq<char> {
    spec_build_toc(rchildren(input.spec_bytes(), empty_state(), page_tree(input)).1)
}

/// Lexes, parses and renders a page text.
pub fn render_page(input: &str) -> (r: PageResult)
    requires
        page_renders(input),
    ensures
        r.html@ == page_html(input),
        r.toc@ == page_toc(input),
{
    let tokens = Lexer::new().tokenise(input);
    let ast = Parser::new().nodeify(tokens.as_slice());
    let mut renderer = Renderer::new(input);
    let html = renderer.render(ast.as_slice());
    let toc = renderer.build_toc();
    PageResult { html, toc }
}

/// Lexes, parses and renders a page text, or `None` where the text does
/// not render (`page_renders` fails: lexing does not complete, the markup
/// is malformed, a node lies outside the text, or the table of contents
/// cannot be built).
pub fn try_render_page(input: &str) -> (r: Option<PageResult>)
    ensures
        page_renders(input) ==> (r matches Some(p) && p.html@ == page_html(input) && p.toc@ == page_toc(input)),
        !page_renders(input) ==> r is None,
{
    let tokens = match Lexer::new().try_tokenise(input) {
        Some(t) => t,
        None => return None,
    };
    let ast = match Parser::new().try_nodeify(tokens.as_slice()) {
        Some(a) => a,
        None => return None,
    };
    if !nodes_fit(input, ast.as_slice()) {
        return None;
    }
    let mut renderer = Renderer::new(input);
    let html = renderer.render(ast.as_slice());
    if !renderer.toc_ready() {
        return None;
    }
    let toc = renderer.build_toc();
    Some(PageResult { html, toc })
}

} // verus!
