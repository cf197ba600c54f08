//! The parser: builds the tree of a page from its tokens.

use vstd::prelude::*;
use crate::chars::{first_word, str_chars, find_non_ws, find_ws, trimmed_len, chars_eq, skip_ws, skip_word, trim_end_from, lemma_skip_ws_bounds, lemma_skip_word_bounds, lemma_trim_end_bounds};
use crate::token::{tokens_view, opt_str_view, SpecToken, Token, TokenType};

verus! {

/// The kind of a node of the page tree.
#[derive(Debug, PartialEq, Eq, Structural, Clone, Copy)]
pub enum NodeType {
    Text,
    Paragraph,
    Hr,
    Bold,
    Italic,
    Underline,
    Heading,
    Quote,
    Link,
    Image,
    Pipe,
    Footnote,
    PseudoHtml,
    Linebreak,
    Newline,
    Whitespace,
    Eof,
    Macro,
}

/// A node of the page tree.
#[derive(Debug)]
pub struct Node {
    pub n_type: NodeType,
    pub children: Vec<Node>,
    pub n_detail: Option<String>,
    pub start: usize,
    pub end: usize,
}

/// The mathematical value of a node.
pub struct SpecNode {
    pub n_type: NodeType,
    pub children: Seq<SpecNode>,
    pub n_detail: Option<Seq<char>>,
    pub start: int,
    pub end: int,
}

pub open spec fn node_view(n: Node) -> SpecNode
    decreases n,
{
    SpecNode {
        n_type: n.n_type,
        children: Seq::new(
            n.children@.len(),
            |i: int|
                {
                    proof {
                        if 0 <= i < n.children@.len() {
                            assert(decreases_to!(n => n.children));
                            assert(decreases_to!(n.children => n.children@));
                            assert(decreases_to!(n.children@ => n.children@[i]));
                        }
                    }
                    if 0 <= i < n.children@.len() {
                        node_view(n.children@[i])
                    } else {
                        SpecNode { n_type: NodeType::Text, children: seq![], n_detail: None, start: 0, end: 0 }
                    }
                },
        ),
        n_detail: match n.n_detail { Some(s) => Some(s@), None => None },
        start: n.start as int,
        end: n.end as int,
    }
}

pub open spec fn nodes_view(ns: Seq<Node>) -> Seq<SpecNode> {
    ns.map_values(|n: Node| node_view(n))
}

impl View for Node {
    type V = SpecNode;

    open spec fn view(&self) -> SpecNode {
        node_view(*self)
    }
}

pub proof fn lemma_node_view_children(n: Node)
    ensures
        node_view(n).children == nodes_view(n.children@),
{
    assert(node_view(n).children =~= nodes_view(n.children@));
}

/// A node with the given fields.
pub open spec fn mk_node(t: NodeType, children: Seq<SpecNode>, detail: Option<Seq<char>>, start: int, end: int) -> SpecNode {
    SpecNode { n_type: t, children, n_detail: detail, start, end }
}

impl Default for Node {
    fn default() -> (n: Node)
        ensures
            n@ == mk_node(NodeType::Text, seq![], None, 0, 0),
    {
        let n = Node { n_type: NodeType::Text, children: Vec::new(), n_detail: None, start: 0, end: 0 };
        proof {
            lemma_node_view_children(n);
            assert(n@.children =~= seq![]);
        }
        n
    }
}

/// An open construct on the parse stack: its kind, the nodes gathered in
/// it, and (for tags) the tag text.
pub type SpecFrame = (NodeType, Seq<SpecNode>, Option<Seq<char>>);

/// The state of the inline parser: the stack of open constructs and the
/// finished top-level nodes.
pub struct PState {
    pub stack: Seq<SpecFrame>,
    pub result: Seq<SpecNode>,
}

pub open spec fn init_state() -> PState {
    PState { stack: seq![], result: seq![] }
}

/// Adds a finished node to the innermost open construct, or to the result.
pub open spec fn emit(st: PState, n: SpecNode) -> PState {
    if st.stack.len() == 0 {
        PState { stack: st.stack, result: st.result.push(n) }
    } else {
        let top = st.stack.last();
        PState { stack: st.stack.drop_last().push((top.0, top.1.push(n), top.2)), result: st.result }
    }
}

pub open spec fn push_frame(st: PState, f: SpecFrame) -> PState {
    PState { stack: st.stack.push(f), result: st.result }
}

pub open spec fn pop_frame(st: PState) -> PState {
    PState { stack: st.stack.drop_last(), result: st.result }
}

/// How many open constructs of kind `nt` the stack holds.
pub open spec fn count_in_stack(stack: Seq<SpecFrame>, nt: NodeType) -> nat
    decreases stack.len(),
{
    if stack.len() == 0 {
        0
    } else {
        count_in_stack(stack.drop_last(), nt) + if stack.last().0 == nt { 1nat } else { 0nat }
    }
}

pub open spec fn top_is(stack: Seq<SpecFrame>, nt: NodeType) -> bool {
    stack.len() > 0 && stack.last().0 == nt
}

pub open spec fn spec_to_nt(t: TokenType) -> NodeType {
    if t == TokenType::Bold {
        NodeType::Bold
    } else if t == TokenType::Italic {
        NodeType::Italic
    } else {
        NodeType::Underline
    }
}

/// The leaf node of a text, white-space, line-break or newline token.
pub open spec fn spec_leaf(t: SpecToken) -> SpecNode {
    let nt = if t.t_type == TokenType::Text {
        NodeType::Text
    } else if t.t_type == TokenType::Whitespace {
        NodeType::Whitespace
    } else if t.t_type == TokenType::Linebreak {
        NodeType::Linebreak
    } else {
        NodeType::Newline
    };
    mk_node(nt, seq![], t.t_detail, t.start, t.end)
}

pub open spec fn detail_or_empty(d: Option<Seq<char>>) -> Seq<char> {
    match d {
        Some(s) => s,
        None => seq![],
    }
}

/// The payloads of the nodes, concatenated.
pub open spec fn details_concat(ns: Seq<SpecNode>) -> Seq<char>
    decreases ns.len(),
{
    if ns.len() == 0 {
        seq![]
    } else {
        details_concat(ns.drop_last()) + detail_or_empty(ns.last().n_detail)
    }
}

/// The index of the first pipe node at or after `k`.
pub open spec fn first_pipe(ns: Seq<SpecNode>, k: int) -> Option<int>
    decreases ns.len() - k,
{
    if k < 0 || k >= ns.len() {
        None
    } else if ns[k].n_type == NodeType::Pipe {
        Some(k)
    } else {
        first_pipe(ns, k + 1)
    }
}

/// The link or image node closed by token `t` with the gathered `children`:
/// before the first pipe is the target (the payloads there, concatenated),
/// after it the shown content; without a pipe all payloads form the target.
pub open spec fn close_target(nt: NodeType, children: Seq<SpecNode>, t: SpecToken) -> SpecNode {
    match first_pipe(children, 0) {
        Some(p) => mk_node(
            nt,
            children.subrange(p + 1, children.len() as int),
            Some(details_concat(children.subrange(0, p))),
            t.start,
            t.end,
        ),
        None => mk_node(nt, children, Some(details_concat(children)), t.start, t.end),
    }
}

/// A tag payload that closes a tag: it starts with `/`.
pub open spec fn is_closing_tag(d: Seq<char>) -> bool {
    d.len() > 0 && d[0] == '/'
}

/// The tag name a closing tag names: the first word after the slash
/// (empty if none).
pub open spec fn closing_name(d: Seq<char>) -> Seq<char> {
    let a = skip_ws(d, 1);
    if a >= d.len() {
        seq![]
    } else {
        d.subrange(a, skip_word(d, a))
    }
}

/// A tag payload that closes itself: it ends with `/`, trailing white space
/// aside.
pub open spec fn is_self_closing(d: Seq<char>) -> bool {
    let k = trim_end_from(d, d.len() as int);
    k > 0 && d[k - 1] == '/'
}

/// Whether the innermost open construct is a tag whose name is `name`.
pub open spec fn top_tag_named(stack: Seq<SpecFrame>, name: Seq<char>) -> bool {
    &&& top_is(stack, NodeType::PseudoHtml)
    &&& stack.last().2 matches Some(tag)
    &&& first_word(tag) == Some(name)
}

/// The inline parse of `ts` from index `i` in state `st`; `None` where the
/// markup is malformed (a closer without its opener, overlapping
/// emphasis, a block token inside a paragraph).
pub open spec fn inline_from(ts: Seq<SpecToken>, i: int, st: PState) -> Option<PState>
    decreases ts.len() - i,
{
    if i < 0 || i >= ts.len() {
        Some(st)
    } else {
        let t = ts[i];
        match t.t_type {
            TokenType::Text | TokenType::Whitespace | TokenType::Linebreak | TokenType::Newline =>
                inline_from(ts, i + 1, emit(st, spec_leaf(t))),
            TokenType::Bold | TokenType::Italic | TokenType::Underline => {
                let nt = spec_to_nt(t.t_type);
                if count_in_stack(st.stack, nt) % 2 == 0 {
                    if i + 1 < ts.len() && ts[i + 1].t_type == t.t_type {
                        inline_from(ts, i + 2, emit(st, mk_node(NodeType::Text, seq![], None, t.start, ts[i + 1].end)))
                    } else {
                        inline_from(ts, i + 1, push_frame(st, (nt, seq![], None)))
                    }
                } else if top_is(st.stack, nt) {
                    let top = st.stack.last();
                    inline_from(ts, i + 1, emit(pop_frame(st), mk_node(nt, top.1, None, t.start, 0)))
                } else {
                    None
                }
            },
            TokenType::LinkOpen => inline_from(ts, i + 1, push_frame(st, (NodeType::Link, seq![], None))),
            TokenType::Pipe => {
                if top_is(st.stack, NodeType::Link) || top_is(st.stack, NodeType::Image) {
                    inline_from(ts, i + 1, emit(st, mk_node(NodeType::Pipe, seq![], None, 0, 0)))
                } else {
                    inline_from(ts, i + 1, emit(st, mk_node(NodeType::Text, seq![], Some(seq!['|']), 0, 0)))
                }
            },
            TokenType::LinkClose => {
                if top_is(st.stack, NodeType::Link) {
                    inline_from(ts, i + 1, emit(pop_frame(st), close_target(NodeType::Link, st.stack.last().1, t)))
                } else {
                    None
                }
            },
            TokenType::ImageOpen => inline_from(ts, i + 1, push_frame(st, (NodeType::Image, seq![], None))),
            TokenType::ImageClose => {
                if top_is(st.stack, NodeType::Image) {
                    inline_from(ts, i + 1, emit(pop_frame(st), close_target(NodeType::Image, st.stack.last().1, t)))
                } else {
                    None
                }
            },
            TokenType::FootnoteOpen => inline_from(ts, i + 1, push_frame(st, (NodeType::Footnote, seq![], None))),
            TokenType::FootnoteClose => {
                if top_is(st.stack, NodeType::Footnote) {
                    inline_from(ts, i + 1, emit(pop_frame(st), mk_node(NodeType::Footnote, st.stack.last().1, None, t.start, 0)))
                } else {
                    None
                }
            },
            TokenType::PseudoHtml => {
                let d = detail_or_empty(t.t_detail);
                if is_closing_tag(d) {
                    if top_tag_named(st.stack, closing_name(d)) {
                        inline_from(ts, i + 1, emit(pop_frame(st), mk_node(NodeType::PseudoHtml, st.stack.last().1, t.t_detail, t.start, t.end)))
                    } else {
                        None
                    }
                } else if is_self_closing(d) {
                    inline_from(ts, i + 1, emit(st, mk_node(NodeType::PseudoHtml, seq![], t.t_detail, t.start, 0)))
                } else {
                    inline_from(ts, i + 1, push_frame(st, (NodeType::PseudoHtml, seq![], t.t_detail)))
                }
            },
            TokenType::QMark => inline_from(ts, i + 1, emit(st, mk_node(NodeType::Text, seq![], Some(seq!['?']), 0, 0))),
            TokenType::Eof => Some(st),
            _ => None,
        }
    }
}

/// The nodes of an inline token sequence; constructs still open at the end
/// are dropped.
pub open spec fn spec_inline_parse(ts: Seq<SpecToken>) -> Option<Seq<SpecNode>> {
    match inline_from(ts, 0, init_state()) {
        Some(st) => Some(st.result),
        None => None,
    }
}

/// The index of the first newline or end-of-input token at or after `k`.
pub open spec fn line_end(ts: Seq<SpecToken>, k: int) -> int
    decreases ts.len() - k,
{
    if k < 0 || k >= ts.len() {
        ts.len() as int
    } else if ts[k].t_type == TokenType::Newline || ts[k].t_type == TokenType::Eof {
        k
    } else {
        line_end(ts, k + 1)
    }
}

/// The end of the paragraph scanned from `k`: the end-of-input token, or
/// the second of two newline tokens in a row (`saw` tells whether the token
/// before `k` was a newline).
pub open spec fn para_scan(ts: Seq<SpecToken>, k: int, saw: bool) -> int
    decreases ts.len() - k,
{
    if k < 0 || k >= ts.len() {
        ts.len() as int
    } else if ts[k].t_type == TokenType::Eof {
        k
    } else if ts[k].t_type == TokenType::Newline {
        if saw { k } else { para_scan(ts, k + 1, true) }
    } else {
        para_scan(ts, k + 1, false)
    }
}

pub proof fn lemma_line_end_bounds(ts: Seq<SpecToken>, k: int)
    requires
        0 <= k <= ts.len(),
    ensures
        k <= line_end(ts, k) <= ts.len(),
    decreases ts.len() - k,
{
    if k < ts.len() {
        lemma_line_end_bounds(ts, k + 1);
    }
}

pub proof fn lemma_para_scan_bounds(ts: Seq<SpecToken>, k: int, saw: bool)
    requires
        0 <= k <= ts.len(),
    ensures
        k <= para_scan(ts, k, saw) <= ts.len(),
    decreases ts.len() - k,
{
    if k < ts.len() {
        lemma_para_scan_bounds(ts, k + 1, true);
        lemma_para_scan_bounds(ts, k + 1, false);
    }
}

/// The blocks of a token sequence from index `i`; `None` where a block's
/// inline content is malformed.
pub open spec fn blocks_from(ts: Seq<SpecToken>, i: int) -> Option<Seq<SpecNode>>
    decreases ts.len() + 1 - i,
{
    if i < 0 || i >= ts.len() {
        Some(seq![])
    } else {
        let t = ts[i];
        match t.t_type {
            TokenType::Eof => Some(seq![]),
            TokenType::Newline => blocks_from(ts, i + 1),
            TokenType::Heading | TokenType::Quote => {
                let e = line_end(ts, i + 1);
                proof {
                    lemma_line_end_bounds(ts, i + 1);
                }
                let nt = if t.t_type == TokenType::Heading { NodeType::Heading } else { NodeType::Quote };
                match spec_inline_parse(ts.subrange(i + 1, e)) {
                    None => None,
                    Some(c) => match blocks_from(ts, e + 1) {
                        Some(bs) => Some(seq![mk_node(nt, c, t.t_detail, t.start, t.end)] + bs),
                        None => None,
                    },
                }
            },
            TokenType::Hr => {
                let e = line_end(ts, i + 1);
                proof {
                    lemma_line_end_bounds(ts, i + 1);
                }
                match blocks_from(ts, e + 1) {
                    Some(bs) => Some(seq![mk_node(NodeType::Hr, seq![], None, t.start, t.end)] + bs),
                    None => None,
                }
            },
            _ => {
                let e = para_scan(ts, i, false);
                proof {
                    lemma_para_scan_bounds(ts, i + 1, false);
                }
                match spec_inline_parse(ts.subrange(i, e)) {
                    None => None,
                    Some(c) => match blocks_from(ts, e) {
                        Some(bs) => if c.len() > 0 {
                            Some(seq![mk_node(NodeType::Paragraph, c, None, t.start, 0)] + bs)
                        } else {
                            Some(bs)
                        },
                        None => None,
                    },
                }
            },
        }
    }
}

/// The page tree of a token sequence.
pub open spec fn spec_nodeify(ts: Seq<SpecToken>) -> Option<Seq<SpecNode>> {
    blocks_from(ts, 0)
}

/// An open construct during inline parsing.
struct Frame {
    n_type: NodeType,
    children: Vec<Node>,
    tag: Option<String>,
}

spec fn frame_view(f: Frame) -> SpecFrame {
    (f.n_type, nodes_view(f.children@), opt_str_view(f.tag))
}

spec fn frames_view(s: Seq<Frame>) -> Seq<SpecFrame> {
    s.map_values(|f: Frame| frame_view(f))
}

spec fn state_view(stack: Seq<Frame>, result: Seq<Node>) -> PState {
    PState { stack: frames_view(stack), result: nodes_view(result) }
}

proof fn lemma_nodes_view_push(ns: Seq<Node>, n: Node)
    ensures
        nodes_view(ns.push(n)) == nodes_view(ns).push(node_view(n)),
{
    assert(nodes_view(ns.push(n)) =~= nodes_view(ns).push(node_view(n)));
}

proof fn lemma_frames_view_push(fs: Seq<Frame>, f: Frame)
    ensures
        frames_view(fs.push(f)) == frames_view(fs).push(frame_view(f)),
{
    assert(frames_view(fs.push(f)) =~= frames_view(fs).push(frame_view(f)));
}

proof fn lemma_frames_view_drop_last(fs: Seq<Frame>)
    requires
        fs.len() > 0,
    ensures
        frames_view(fs.drop_last()) == frames_view(fs).drop_last(),
        frames_view(fs).last() == frame_view(fs.last()),
{
    assert(frames_view(fs.drop_last()) =~= frames_view(fs).drop_last());
}

/// A node with no children.
fn bare_node(t: NodeType, detail: Option<String>, start: usize, end: usize) -> (n: Node)
    ensures
        n@ == mk_node(t, seq![], opt_str_view(detail), start as int, end as int),
{
    let n = Node { n_type: t, children: Vec::new(), n_detail: detail, start, end };
    proof {
        lemma_node_view_children(n);
        assert(n@.children =~= seq![]);
    }
    n
}

/// A node with the given children.
fn parent_node(t: NodeType, children: Vec<Node>, detail: Option<String>, start: usize, end: usize) -> (n: Node)
    ensures
        n@ == mk_node(t, nodes_view(children@), opt_str_view(detail), start as int, end as int),
{
    let n = Node { n_type: t, children, n_detail: detail, start, end };
    proof {
        lemma_node_view_children(n);
    }
    n
}

fn clone_detail(d: &Option<String>) -> (r: Option<String>)
    ensures
        opt_str_view(r) == opt_str_view(*d),
{
    match d {
        Some(s) => Some(s.clone()),
        None => None,
    }
}

/// A one-character string.
fn char_string(c: char) -> (r: String)
    ensures
        r@ == seq![c],
{
    let mut r = String::new();
    crate::text::push_char(&mut r, c);
    proof {
        assert(r@ =~= seq![c]);
    }
    r
}

/// The parser of token sequences into page trees.
pub struct Parser;

impl Parser {
    pub fn new() -> (p: Parser) {
        Parser
    }

    /// The blocks (headings, rules, quotes, paragraphs) of `tokens`.
    pub fn nodeify(&self, tokens: &[Token]) -> (blocks: Vec<Node>)
        requires
            spec_nodeify(tokens_view(tokens@)) is Some,
        ensures
            nodes_view(blocks@) == spec_nodeify(tokens_view(tokens@)).unwrap(),
    {
        match self.try_nodeify(tokens) {
            Some(blocks) => blocks,
            None => {
                proof {
                    assert(false);
                }
                Vec::new()
            },
        }
    }

    /// The blocks of `tokens`, or `None` where a block's inline content is
    /// malformed.
    pub fn try_nodeify(&self, tokens: &[Token]) -> (r: Option<Vec<Node>>)
        ensures
            match spec_nodeify(tokens_view(tokens@)) {
                Some(ns) => r matches Some(v) && nodes_view(v@) == ns,
                None => r is None,
            },
    {
        let ghost ts = tokens_view(tokens@);
        let mut blocks: Vec<Node> = Vec::new();
        let mut i: usize = 0;
        proof {
            if let Some(full) = blocks_from(ts, 0) {
                assert(nodes_view(blocks@) + full =~= full);
            }
        }
        while i < tokens.len()
            invariant
                ts == tokens_view(tokens@),
                ts.len() == tokens@.len(),
                i <= tokens@.len() + 1,
                match blocks_from(ts, i as int) {
                    Some(rest) => blocks_from(ts, 0) == Some(nodes_view(blocks@) + rest),
                    None => blocks_from(ts, 0) is None,
                },
            decreases tokens@.len() + 1 - i,
        {
            let t = &tokens[i];
            proof {
                assert(ts[i as int] == t@);
            }
            let ghost before = blocks@;
            let ghost i0 = i as int;
            match t.t_type {
                TokenType::Eof => {
                    proof {
                        assert(blocks_from(ts, i as int) == Some(Seq::<SpecNode>::empty()));
                        assert(nodes_view(blocks@) + Seq::<SpecNode>::empty() =~= nodes_view(blocks@));
                    }
                    return Some(blocks);
                },
                TokenType::Newline => {
                    i = i + 1;
                },
                TokenType::Heading | TokenType::Quote => {
                    let end = self.line_end(tokens, i + 1);
                    proof {
                        lemma_line_end_bounds(ts, i + 1);
                    }
                    let content = match self.inline_parse(tokens, i + 1, end) {
                        Some(c) => c,
                        None => return None,
                    };
                    let nt = if t.t_type == TokenType::Heading {
                        NodeType::Heading
                    } else {
                        NodeType::Quote
                    };
                    let node = parent_node(nt, content, clone_detail(&t.t_detail), t.start, t.end);
                    blocks.push(node);
                    i = if end < tokens.len() { end + 1 } else { tokens.len() };
                    proof {
                        lemma_nodes_view_push(before, node);
                        assert(blocks_from(ts, end + 1) == blocks_from(ts, i as int));
                        if let Some(bs) = blocks_from(ts, i as int) {
                            assert(blocks_from(ts, i0) == Some(seq![node@] + bs));
                            assert(nodes_view(blocks@) + bs =~= nodes_view(before) + (seq![node@] + bs));
                        }
                    }
                },
                TokenType::Hr => {
                    let node = bare_node(NodeType::Hr, None, t.start, t.end);
                    blocks.push(node);
                    let end = self.line_end(tokens, i + 1);
                    proof {
                        lemma_line_end_bounds(ts, i + 1);
                    }
                    i = if end < tokens.len() { end + 1 } else { tokens.len() };
                    proof {
                        lemma_nodes_view_push(before, node);
                        assert(blocks_from(ts, end + 1) == blocks_from(ts, i as int));
                        if let Some(bs) = blocks_from(ts, i as int) {
                            assert(blocks_from(ts, i0) == Some(seq![node@] + bs));
                            assert(nodes_view(blocks@) + bs =~= nodes_view(before) + (seq![node@] + bs));
                        }
                    }
                },
                _ => {
                    let end = self.para_end(tokens, i);
                    proof {
                        lemma_para_scan_bounds(ts, i + 1, false);
                    }
                    let start = t.start;
                    let content = match self.inline_parse(tokens, i, end) {
                        Some(c) => c,
                        None => return None,
                    };
                    if content.len() > 0 {
                        let node = parent_node(NodeType::Paragraph, content, None, start, 0);
                        blocks.push(node);
                        proof {
                            lemma_nodes_view_push(before, node);
                            if let Some(bs) = blocks_from(ts, end as int) {
                                assert(blocks_from(ts, i0) == Some(seq![node@] + bs));
                                assert(nodes_view(blocks@) + bs =~= nodes_view(before) + (seq![node@] + bs));
                            }
                        }
                    }
                    i = end;
                },
            }
        }
        proof {
            assert(nodes_view(blocks@) + Seq::<SpecNode>::empty() =~= nodes_view(blocks@));
        }
        Some(blocks)
    }

    /// The index of the first newline or end-of-input token at or after
    /// `start`.
    fn line_end(&self, tokens: &[Token], start: usize) -> (r: usize)
        requires
            start <= tokens@.len(),
        ensures
            r == line_end(tokens_view(tokens@), start as int),
    {
        let ghost ts = tokens_view(tokens@);
        let mut k = start;
        while k < tokens.len()
            invariant
                start <= k <= tokens@.len(),
                ts == tokens_view(tokens@),
                line_end(ts, start as int) == line_end(ts, k as int),
            decreases tokens@.len() - k,
        {
            proof {
                assert(ts[k as int] == tokens@[k as int]@);
            }
            let tt = tokens[k].t_type;
            if tt == TokenType::Newline || tt == TokenType::Eof {
                return k;
            }
            k = k + 1;
        }
        k
    }

    /// The end of the paragraph that starts at `start`.
    fn para_end(&self, tokens: &[Token], start: usize) -> (r: usize)
        requires
            start <= tokens@.len(),
        ensures
            r == para_scan(tokens_view(tokens@), start as int, false),
    {
        let ghost ts = tokens_view(tokens@);
        let mut saw_newline = false;
        let mut k = start;
        while k < tokens.len()
            invariant
                start <= k <= tokens@.len(),
                ts == tokens_view(tokens@),
                para_scan(ts, start as int, false) == para_scan(ts, k as int, saw_newline),
            decreases tokens@.len() - k,
        {
            proof {
                assert(ts[k as int] == tokens@[k as int]@);
            }
            let tt = tokens[k].t_type;
            if tt == TokenType::Eof {
                return k;
            } else if tt == TokenType::Newline {
                if saw_newline {
                    return k;
                }
                saw_newline = true;
            } else {
                saw_newline = false;
            }
            k = k + 1;
        }
        k
    }

    /// The leaf node of a text, white-space, line-break or newline token.
    fn leaf(t: &Token) -> (n: Node)
        requires
            t.t_type == TokenType::Text || t.t_type == TokenType::Whitespace || t.t_type
                == TokenType::Linebreak || t.t_type == TokenType::Newline,
        ensures
            n@ == spec_leaf(t@),
    {
        let nt = match t.t_type {
            TokenType::Text => NodeType::Text,
            TokenType::Whitespace => NodeType::Whitespace,
            TokenType::Linebreak => NodeType::Linebreak,
            _ => NodeType::Newline,
        };
        bare_node(nt, clone_detail(&t.t_detail), t.start, t.end)
    }

    /// Adds a finished node to the innermost open construct, or to the result.
    fn emit(stack: &mut Vec<Frame>, result: &mut Vec<Node>, node: Node)
        ensures
            state_view(final(stack)@, final(result)@) == emit(state_view(old(stack)@, old(result)@), node@),
    {
        let ghost old_stack = stack@;
        if stack.len() > 0 {
            let mut top = stack.pop().unwrap();
            let ghost old_children = top.children@;
            top.children.push(node);
            proof {
                lemma_nodes_view_push(old_children, node);
                lemma_frames_view_drop_last(old_stack);
            }
            stack.push(top);
            proof {
                lemma_frames_view_push(old_stack.drop_last(), top);
                assert(stack@ == old_stack.drop_last().push(top));
            }
        } else {
            let ghost old_result = result@;
            result.push(node);
            proof {
                lemma_nodes_view_push(old_result, node);
                assert(frames_view(stack@) =~= frames_view(old_stack));
            }
        }
    }

    fn to_nt(tt: TokenType) -> (nt: NodeType)
        requires
            tt == TokenType::Bold || tt == TokenType::Italic || tt == TokenType::Underline,
        ensures
            nt == spec_to_nt(tt),
    {
        match tt {
            TokenType::Bold => NodeType::Bold,
            TokenType::Italic => NodeType::Italic,
            _ => NodeType::Underline,
        }
    }

    /// How many open constructs of kind `nt` the stack holds.
    fn count_in_stack(stack: &Vec<Frame>, nt: NodeType) -> (c: usize)
        ensures
            c == count_in_stack(frames_view(stack@), nt),
    {
        let ghost fs = frames_view(stack@);
        let mut c: usize = 0;
        let mut i: usize = 0;
        while i < stack.len()
            invariant
                i <= stack@.len(),
                fs == frames_view(stack@),
                c == count_in_stack(fs.subrange(0, i as int), nt),
                c <= i,
            decreases stack@.len() - i,
        {
            proof {
                assert(fs.subrange(0, i + 1).drop_last() =~= fs.subrange(0, i as int));
                assert(fs.subrange(0, i + 1).last() == frame_view(stack@[i as int]));
            }
            if stack[i].n_type == nt {
                c = c + 1;
            }
            i = i + 1;
        }
        proof {
            assert(fs.subrange(0, i as int) =~= fs);
        }
        c
    }

    /// Closes a link or image whose gathered nodes are `children`.
    fn close_target(nt: NodeType, children: Vec<Node>, t: &Token) -> (n: Node)
        ensures
            n@ == close_target(nt, nodes_view(children@), t@),
    {
        let ghost cs = nodes_view(children@);
        let mut children = children;
        let n = children.len();
        let mut k: usize = 0;
        let mut pipe_pos: Option<usize> = None;
        while k < n && pipe_pos.is_none()
            invariant
                k <= children@.len(),
                n == children@.len(),
                cs == nodes_view(children@),
                pipe_pos is None ==> first_pipe(cs, 0) == first_pipe(cs, k as int),
                pipe_pos matches Some(p) ==> first_pipe(cs, 0) == Some(p as int) && p < children@.len(),
            decreases children@.len() - k,
        {
            proof {
                assert(cs[k as int] == node_view(children@[k as int]));
            }
            if children[k].n_type == NodeType::Pipe {
                proof {
                    assert(cs[k as int].n_type == NodeType::Pipe);
                    assert(first_pipe(cs, k as int) == Some(k as int));
                }
                pipe_pos = Some(k);
            }
            k = k + 1;
        }
        let (display, end) = match pipe_pos {
            Some(p) => {
                let display = children.split_off(p + 1);
                (display, p)
            },
            None => {
                let n = children.len();
                (Vec::new(), n)
            },
        };
        let mut text = String::new();
        let mut j: usize = 0;
        while j < end
            invariant
                end <= children@.len(),
                end <= cs.len(),
                j <= end,
                cs.subrange(0, end as int) == nodes_view(children@).subrange(0, end as int),
                text@ == details_concat(cs.subrange(0, j as int)),
            decreases end - j,
        {
            proof {
                assert(cs.subrange(0, j + 1).drop_last() =~= cs.subrange(0, j as int));
                assert(cs.subrange(0, j + 1).last() == node_view(children@[j as int]));
            }
            match &children[j].n_detail {
                Some(d) => {
                    text.append(d.as_str());
                },
                None => {
                    proof {
                        assert(text@ + seq![] =~= text@);
                    }
                },
            }
            j = j + 1;
        }
        match pipe_pos {
            Some(p) => {
                proof {
                    assert(nodes_view(display@) =~= cs.subrange(p + 1, cs.len() as int));
                }
                parent_node(nt, display, Some(text), t.start, t.end)
            },
            None => {
                proof {
                    assert(cs.subrange(0, end as int) =~= cs);
                }
                parent_node(nt, children, Some(text), t.start, t.end)
            },
        }
    }

    /// The inline nodes of `tokens[lo..hi]`. `None` is the refusal of
    /// malformed markup, which has no parse: a closing token (`LinkClose`,
    /// `ImageClose`, `FootnoteClose`, a closing tag) that does not close the
    /// innermost open construct, emphasis that overlaps another, or a block token inside
    /// a paragraph (exactly where `spec_inline_parse` is `None`). `nodeify`
    /// requires that no block's content is refused; `try_nodeify` passes the
    /// refusal on as its own `None`.
    fn inline_parse(&self, tokens: &[Token], lo: usize, hi: usize) -> (r: Option<Vec<Node>>)
        requires
            lo <= hi <= tokens@.len(),
        ensures
            match spec_inline_parse(tokens_view(tokens@).subrange(lo as int, hi as int)) {
                Some(ns) => r matches Some(v) && nodes_view(v@) == ns,
                None => r is None,
            },
    {
        let ghost ts = tokens_view(tokens@).subrange(lo as int, hi as int);
        let ghost fin = inline_from(ts, 0, init_state());
        let mut stack: Vec<Frame> = Vec::new();
        let mut result: Vec<Node> = Vec::new();
        let mut i: usize = lo;
        proof {
            assert(state_view(stack@, result@) == init_state()) by {
                assert(frames_view(stack@) =~= seq![]);
                assert(nodes_view(result@) =~= seq![]);
            }
        }
        while i < hi
            invariant
                lo <= i <= hi <= tokens@.len(),
                ts == tokens_view(tokens@).subrange(lo as int, hi as int),
                inline_from(ts, 0, init_state()) == fin,
                inline_from(ts, i - lo, state_view(stack@, result@)) == fin,
            decreases hi - i,
        {
            let t = &tokens[i];
            let ghost st = state_view(stack@, result@);
            let ghost k = i - lo;
            proof {
                assert(ts[k] == t@);
            }
            match t.t_type {
                TokenType::Text | TokenType::Whitespace | TokenType::Linebreak | TokenType::Newline => {
                    let node = Self::leaf(t);
                    Self::emit(&mut stack, &mut result, node);
                    i = i + 1;
                },
                TokenType::Bold | TokenType::Italic | TokenType::Underline => {
                    let nt = Self::to_nt(t.t_type);
                    let count = Self::count_in_stack(&stack, nt);
                    if count % 2 == 0 {
                        if i + 1 < hi && tokens[i + 1].t_type == t.t_type {
                            proof {
                                assert(ts[k + 1] == tokens@[i + 1]@);
                            }
                            let node = bare_node(NodeType::Text, None, t.start, tokens[i + 1].end);
                            Self::emit(&mut stack, &mut result, node);
                            i = i + 2;
                        } else {
                            proof {
                                if i + 1 < hi {
                                    assert(ts[k + 1] == tokens@[i + 1]@);
                                }
                            }
                            let f = Frame { n_type: nt, children: Vec::new(), tag: None };
                            let ghost old_stack = stack@;
                            stack.push(f);
                            proof {
                                lemma_frames_view_push(old_stack, f);
                                assert(frame_view(f) == (nt, Seq::<SpecNode>::empty(), None::<Seq<char>>)) by {
                                    assert(nodes_view(f.children@) =~= seq![]);
                                }
                            }
                            i = i + 1;
                        }
                    } else {
                        let top_matches = stack.len() > 0 && stack[stack.len() - 1].n_type == nt;
                        proof {
                            if stack@.len() > 0 {
                                lemma_frames_view_drop_last(stack@);
                            }
                        }
                        if top_matches {
                            let ghost old_stack = stack@;
                            let f = stack.pop().unwrap();
                            proof {
                                lemma_frames_view_drop_last(old_stack);
                            }
                            let node = parent_node(nt, f.children, None, t.start, 0);
                            Self::emit(&mut stack, &mut result, node);
                            i = i + 1;
                        } else {
                            return None;
                        }
                    }
                },
                TokenType::LinkOpen | TokenType::ImageOpen | TokenType::FootnoteOpen => {
                    let nt = match t.t_type {
                        TokenType::LinkOpen => NodeType::Link,
                        TokenType::ImageOpen => NodeType::Image,
                        _ => NodeType::Footnote,
                    };
                    let f = Frame { n_type: nt, children: Vec::new(), tag: None };
                    let ghost old_stack = stack@;
                    stack.push(f);
                    proof {
                        lemma_frames_view_push(old_stack, f);
                        assert(nodes_view(f.children@) =~= seq![]);
                    }
                    i = i + 1;
                },
                TokenType::Pipe => {
                    proof {
                        if stack@.len() > 0 {
                            lemma_frames_view_drop_last(stack@);
                        }
                    }
                    let inside = stack.len() > 0 && (stack[stack.len() - 1].n_type == NodeType::Link
                        || stack[stack.len() - 1].n_type == NodeType::Image);
                    let node = if inside {
                        bare_node(NodeType::Pipe, None, 0, 0)
                    } else {
                        bare_node(NodeType::Text, Some(char_string('|')), 0, 0)
                    };
                    Self::emit(&mut stack, &mut result, node);
                    i = i + 1;
                },
                TokenType::LinkClose | TokenType::ImageClose | TokenType::FootnoteClose => {
                    let nt = match t.t_type {
                        TokenType::LinkClose => NodeType::Link,
                        TokenType::ImageClose => NodeType::Image,
                        _ => NodeType::Footnote,
                    };
                    proof {
                        if stack@.len() > 0 {
                            lemma_frames_view_drop_last(stack@);
                        }
                    }
                    if stack.len() > 0 && stack[stack.len() - 1].n_type == nt {
                        let f = stack.pop().unwrap();
                        let node = if nt == NodeType::Footnote {
                            parent_node(NodeType::Footnote, f.children, None, t.start, 0)
                        } else {
                            Self::close_target(nt, f.children, t)
                        };
                        Self::emit(&mut stack, &mut result, node);
                        i = i + 1;
                    } else {
                        return None;
                    }
                },
                TokenType::PseudoHtml => {
                    let d: Vec<char> = match &t.t_detail {
                        Some(s) => str_chars(s.as_str()),
                        None => Vec::new(),
                    };
                    proof {
                        assert(d@ =~= detail_or_empty(t@.t_detail));
                    }
                    if d.len() > 0 && d[0] == '/' {
                        let a = find_non_ws(&d, 1);
                        proof {
                            lemma_skip_ws_bounds(d@, 1);
                        }
                        let b = if a < d.len() { find_ws(&d, a) } else { a };
                        proof {
                            if a < d@.len() {
                                lemma_skip_word_bounds(d@, a as int);
                            }
                            if stack@.len() > 0 {
                                lemma_frames_view_drop_last(stack@);
                            }
                        }
                        let mut is_match = false;
                        if stack.len() > 0 && stack[stack.len() - 1].n_type == NodeType::PseudoHtml {
                            match &stack[stack.len() - 1].tag {
                                Some(tag) => {
                                    let tc = str_chars(tag.as_str());
                                    let a2 = find_non_ws(&tc, 0);
                                    proof {
                                        lemma_skip_ws_bounds(tc@, 0);
                                    }
                                    if a2 < tc.len() {
                                        let b2 = find_ws(&tc, a2);
                                        proof {
                                            lemma_skip_word_bounds(tc@, a2 as int);
                                        }
                                        is_match = chars_eq(&tc, a2, b2, &d, a, b);
                                        proof {
                                            if a >= d@.len() {
                                                assert(d@.subrange(a as int, b as int) =~= seq![]);
                                            }
                                        }
                                    }
                                },
                                None => {},
                            }
                        }
                        proof {
                            let name = closing_name(d@);
                            assert(is_match == top_tag_named(st.stack, name));
                        }
                        if is_match {
                            let f = stack.pop().unwrap();
                            let node = parent_node(NodeType::PseudoHtml, f.children, clone_detail(&t.t_detail), t.start, t.end);
                            Self::emit(&mut stack, &mut result, node);
                            i = i + 1;
                        } else {
                            return None;
                        }
                    } else {
                        let e = trimmed_len(&d, d.len());
                        proof {
                            lemma_trim_end_bounds(d@, d@.len() as int);
                        }
                        if e > 0 && d[e - 1] == '/' {
                            let node = bare_node(NodeType::PseudoHtml, clone_detail(&t.t_detail), t.start, 0);
                            Self::emit(&mut stack, &mut result, node);
                        } else {
                            let f = Frame { n_type: NodeType::PseudoHtml, children: Vec::new(), tag: clone_detail(&t.t_detail) };
                            let ghost old_stack = stack@;
                            stack.push(f);
                            proof {
                                lemma_frames_view_push(old_stack, f);
                                assert(nodes_view(f.children@) =~= seq![]);
                            }
                        }
                        i = i + 1;
                    }
                },
                TokenType::QMark => {
                    let node = bare_node(NodeType::Text, Some(char_string('?')), 0, 0);
                    Self::emit(&mut stack, &mut result, node);
                    i = i + 1;
                },
                TokenType::Eof => {
                    proof {
                        assert(ts[k].t_type == TokenType::Eof);
                        assert(inline_from(ts, k, st) == Some(st));
                        assert(fin == Some(st));
                    }
                    return Some(result);
                },
                _ => {
                    return None;
                },
            }
        }
        Some(result)
    }
}

} // verus!