use mast::lexer::Lexer;
use mast::parser::{Node, NodeType, Parser};
use mast::renderer::Renderer;
use mast::render_page;
use mast::token::{Token, TokenType};

#[test] // cargo test lex_debug -- --nocapture
fn lex_debug() {
    let lexer = Lexer::new();
    let input = "====== heading1 ======";
    let tokens = lexer.tokenise(&input);
    for t in &tokens {
        println!("{:?}", t);
    }
    println!("{}", &input);
}

#[test]
fn parser_debug_parse() {
    let input = "****bold**** and //italic//";
    let tokens = Lexer::new().tokenise(input);
    let ast = Parser::new().nodeify(&tokens);
    println!("{:#?}", ast);
}

#[test]
fn renderer_debug_parse() {
    let input = "======heading======";
    let tokens = Lexer::new().tokenise(input);
    let ast = Parser::new().nodeify(&tokens);
    let html = Renderer::new(input).render(&ast);
    println!("{:#?}", html);
}

fn summary(tokens: &[mast::token::Token]) -> Vec<(TokenType, Option<String>, usize, usize)> {
    tokens.iter().map(|t| (t.t_type, t.t_detail.clone(), t.start, t.end)).collect()
}

#[test]
fn heading_line_tokens() {
    let tokens = Lexer::new().tokenise("====== heading1 ======");
    assert_eq!(
        summary(&tokens),
        vec![
            (TokenType::Heading, Some("1".to_string()), 0, 6),
            (TokenType::Whitespace, None, 6, 7),
            (TokenType::Text, None, 7, 15),
            (TokenType::Whitespace, None, 15, 16),
            (TokenType::Text, Some("======".to_string()), 16, 22),
            (TokenType::Eof, None, 22, 22),
        ]
    );
}

#[test]
fn tokens_cover_the_input() {
    let input = "a **b** //c// __d__\n[[x|y]] {{i}} ((f)) <b>t</b> \\\\ e";
    let tokens = Lexer::new().tokenise(input);
    assert_eq!(tokens[0].start, 0);
    for w in tokens.windows(2) {
        assert_eq!(w[0].end, w[1].start);
    }
    let last = tokens.last().unwrap();
    assert_eq!(last.t_type, TokenType::Eof);
    assert_eq!((last.start, last.end), (input.len(), input.len()));
}

#[test]
fn double_markers_become_text() {
    let tokens = Lexer::new().tokenise("****bold**** and //italic//");
    let ast = Parser::new().nodeify(&tokens);
    assert_eq!(ast.len(), 1);
    assert_eq!(ast[0].n_type, NodeType::Paragraph);
    let kinds: Vec<NodeType> = ast[0].children.iter().map(|n| n.n_type).collect();
    assert_eq!(
        kinds,
        vec![
            NodeType::Text,
            NodeType::Text,
            NodeType::Text,
            NodeType::Whitespace,
            NodeType::Text,
            NodeType::Whitespace,
            NodeType::Italic
        ]
    );
    assert_eq!((ast[0].children[0].start, ast[0].children[0].end), (0, 4));
}

#[test]
fn heading_without_space_is_a_paragraph() {
    let input = "======heading======";
    let tokens = Lexer::new().tokenise(input);
    let ast = Parser::new().nodeify(&tokens);
    let html = Renderer::new(input).render(&ast);
    assert_eq!(html, "<p class=\"wiki-paragraph\">======heading======</p>");
}

#[test]
fn heading_renders_with_anchor_and_toc() {
    let page = render_page("==== Hello World ====\nsome **bold** text");
    assert_eq!(
        page.html,
        "<h3 id=\"hello-world\" class=\"mast-heading-3\"> Hello World ====</h3><p class=\"wiki-paragraph\">some <strong class=\"mast-bold\">bold</strong> text</p>"
    );
    assert_eq!(
        page.toc,
        "<ul class=\"menu menu-sm\">    <li><a href=\"#hello-world\"> Hello World ====</a></li>\n</ul>"
    );
}

#[test]
fn link_with_pipe_splits_target_and_label() {
    let mut nodes = vec![Node {
        n_type: NodeType::Link,
        children: vec![Node {
            n_type: NodeType::Text,
            children: vec![],
            n_detail: None,
            start: 0,
            end: 1,
        }],
        n_detail: Some("a&b".to_string()),
        start: 0,
        end: 0,
    }];
    let html = Renderer::new("x").render(&nodes);
    assert_eq!(html, "<a href=\"a&amp;b\" class=\"mast-link\">x</a>");
    nodes.clear();
    assert!(nodes.is_empty());
}

#[test]
fn text_is_escaped() {
    let page = render_page("a<b & 'c'");
    assert_eq!(page.html, "<p class=\"wiki-paragraph\">a&lt;b &amp; &#39;c&#39;</p>");
    assert_eq!(page.toc, "");
}

#[test]
fn escaped_text_has_no_markup() {
    let out = mast::renderer::escape_html("<a href=\"x\">it's</a> & more");
    assert_eq!(out, "&lt;a href=&quot;x&quot;&gt;it&#39;s&lt;/a&gt; &amp; more");
    assert!(!out.contains('<') && !out.contains('>') && !out.contains('"') && !out.contains('\''));
}

#[test]
fn pages_that_do_not_render_are_refused() {
    assert!(mast::try_render_page("what?").is_none());
    assert!(mast::try_render_page("a }} b").is_none());
    assert!(mast::try_render_page("**a //b** c//").is_none());
    let page = mast::try_render_page("hello").unwrap();
    assert_eq!(page.html, render_page("hello").html);
    assert!(Lexer::new().try_tokenise("why?").is_none());
    let tokens = Lexer::new().try_tokenise("a }} b").unwrap();
    assert!(Parser::new().try_nodeify(&tokens).is_none());
}

#[test]
fn tag_token_ends_at_the_first_close_outside_quotes() {
    let tokens = Lexer::new().tokenise(r#"<a href=">">x"#);
    assert_eq!(tokens[0].t_type, TokenType::PseudoHtml);
    assert_eq!(tokens[0].t_detail.as_deref(), Some(r#"a href=">""#));
    assert_eq!(tokens[0].start, 0);
    assert_eq!(tokens[0].end, 12);
}

#[test]
fn an_unmatched_close_is_refused() {
    let tokens = vec![
        Token { t_type: TokenType::Text, t_detail: None, start: 0, end: 1 },
        Token { t_type: TokenType::LinkClose, t_detail: None, start: 1, end: 3 },
        Token { t_type: TokenType::Eof, t_detail: None, start: 3, end: 3 },
    ];
    assert!(Parser::new().try_nodeify(&tokens).is_none());
}
