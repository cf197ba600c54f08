//! What the parser promises of every token sequence: each kind of line
//! gives its own kind of block.

use vstd::prelude::*;
use crate::parser::{
    blocks_from, close_target, count_in_stack, details_concat, first_pipe, inline_from, init_state, lemma_line_end_bounds, spec_to_nt, PState, lemma_para_scan_bounds, line_end, para_scan, spec_inline_parse, NodeType,
    SpecNode,
};
use crate::token::{SpecToken, TokenType};

verus! {

/// A heading or quote line gives a heading or quote block: when the token
/// at `i` is a `Heading` (a `Quote`) token and the blocks from `i` parse,
/// the first block is a heading (a quote) with that token's detail and
/// extent, holding the inline parse of the rest of its line (up to the
/// next newline or the end); the blocks after it are those of the
/// following lines.
pub proof fn law_line_blocks(ts: Seq<SpecToken>, i: int)
    requires
        0 <= i < ts.len(),
        ts[i].t_type == TokenType::Heading || ts[i].t_type == TokenType::Quote,
    ensures
        ({
            let e = line_end(ts, i + 1);
            &&& i + 1 <= e <= ts.len()
            &&& blocks_from(ts, i) is Some <==> (spec_inline_parse(ts.subrange(i + 1, e)) is Some && blocks_from(ts, e + 1) is Some)
            &&& blocks_from(ts, i) matches Some(bs) ==> {
                &&& bs.len() >= 1
                &&& bs[0].n_type == (if ts[i].t_type == TokenType::Heading { NodeType::Heading } else { NodeType::Quote })
                &&& bs[0].n_detail == ts[i].t_detail
                &&& bs[0].start == ts[i].start
                &&& bs[0].end == ts[i].end
                &&& Some(bs[0].children) == spec_inline_parse(ts.subrange(i + 1, e))
                &&& Some(bs.drop_first()) == blocks_from(ts, e + 1)
            }
        }),
{
    lemma_line_end_bounds(ts, i + 1);
    let e = line_end(ts, i + 1);
    if let Some(bs) = blocks_from(ts, i) {
        let c = spec_inline_parse(ts.subrange(i + 1, e)).unwrap();
        let rest = blocks_from(ts, e + 1).unwrap();
        assert(bs.drop_first() =~= rest);
    }
}

/// Any other line starts a paragraph: from a token that is no newline,
/// end of input, heading, quote or rule, the paragraph runs to the end of
/// input or to a blank line (two newlines in a row); when its inline parse
/// is not empty the first block is a paragraph holding it, otherwise the
/// paragraph gives no block; either way the blocks after it are those from
/// where it ends.
pub proof fn law_paragraph_blocks(ts: Seq<SpecToken>, i: int)
    requires
        0 <= i < ts.len(),
        ts[i].t_type != TokenType::Heading,
        ts[i].t_type != TokenType::Quote,
        ts[i].t_type != TokenType::Hr,
        ts[i].t_type != TokenType::Newline,
        ts[i].t_type != TokenType::Eof,
    ensures
        ({
            let e = para_scan(ts, i, false);
            &&& i <= e <= ts.len()
            &&& blocks_from(ts, i) is Some <==> (spec_inline_parse(ts.subrange(i, e)) is Some && blocks_from(ts, e) is Some)
            &&& blocks_from(ts, i) matches Some(bs) ==> (spec_inline_parse(ts.subrange(i, e)) matches Some(c) && if c.len() > 0 {
                &&& bs.len() >= 1
                &&& bs[0].n_type == NodeType::Paragraph
                &&& bs[0].children == c
                &&& bs[0].n_detail is None
                &&& bs[0].start == ts[i].start
                &&& Some(bs.drop_first()) == blocks_from(ts, e)
            } else {
                Some(bs) == blocks_from(ts, e)
            })
        }),
{
    lemma_para_scan_bounds(ts, i, false);
    let e = para_scan(ts, i, false);
    if let Some(bs) = blocks_from(ts, i) {
        let c = spec_inline_parse(ts.subrange(i, e)).unwrap();
        if c.len() > 0 {
            let rest = blocks_from(ts, e).unwrap();
            assert(bs.drop_first() =~= rest);
        }
    }
}

/// Each emphasis token makes nodes of its own kind: `Bold` tokens bold
/// nodes, `Italic` tokens italic nodes and `Underline` tokens underlined
/// nodes.
pub proof fn law_emphasis_kinds()
    ensures
        spec_to_nt(TokenType::Bold) == NodeType::Bold,
        spec_to_nt(TokenType::Italic) == NodeType::Italic,
        spec_to_nt(TokenType::Underline) == NodeType::Underline,
{
}

/// The node a text or white-space token stands for.
pub open spec fn plain_leaf(t: SpecToken) -> SpecNode {
    SpecNode {
        n_type: if t.t_type == TokenType::Text { NodeType::Text } else { NodeType::Whitespace },
        children: seq![],
        n_detail: t.t_detail,
        start: t.start,
        end: t.end,
    }
}

/// The kind of node an emphasis token makes.
pub open spec fn emphasis_kind(t: TokenType) -> NodeType {
    if t == TokenType::Bold {
        NodeType::Bold
    } else if t == TokenType::Italic {
        NodeType::Italic
    } else {
        NodeType::Underline
    }
}

pub open spec fn is_emphasis(t: TokenType) -> bool {
    t == TokenType::Bold || t == TokenType::Italic || t == TokenType::Underline
}

pub open spec fn is_plain(t: TokenType) -> bool {
    t == TokenType::Text || t == TokenType::Whitespace
}

/// The leaves of the tokens `1..k`.
pub open spec fn leaves_upto(ts: Seq<SpecToken>, k: int) -> Seq<SpecNode> {
    Seq::new((k - 1) as nat, |j: int| plain_leaf(ts[j + 1]))
}

proof fn lemma_inside_emphasis(ts: Seq<SpecToken>, k: int)
    requires
        ts.len() >= 3,
        is_emphasis(ts[0].t_type),
        ts[ts.len() - 1].t_type == ts[0].t_type,
        forall|j: int| 1 <= j < ts.len() - 1 ==> is_plain(#[trigger] ts[j].t_type),
        1 <= k <= ts.len() - 1,
    ensures
        inline_from(ts, k, PState { stack: seq![(emphasis_kind(ts[0].t_type), leaves_upto(ts, k), None)], result: seq![] })
            == inline_from(ts, ts.len() - 1, PState {
                stack: seq![(emphasis_kind(ts[0].t_type), leaves_upto(ts, ts.len() - 1), None)],
                result: seq![],
            }),
    decreases ts.len() - k,
{
    if k < ts.len() - 1 {
        let nt = emphasis_kind(ts[0].t_type);
        let st = PState { stack: seq![(nt, leaves_upto(ts, k), None)], result: seq![] };
        let st2 = PState { stack: seq![(nt, leaves_upto(ts, k + 1), None)], result: seq![] };
        assert(is_plain(ts[k].t_type));
        assert(leaves_upto(ts, k).push(plain_leaf(ts[k])) =~= leaves_upto(ts, k + 1));
        assert(crate::parser::emit(st, crate::parser::spec_leaf(ts[k])) == st2) by {
            assert(st.stack.drop_last().push((nt, leaves_upto(ts, k).push(plain_leaf(ts[k])), None)) =~= st2.stack);
        }
        lemma_inside_emphasis(ts, k + 1);
    }
}

/// Emphasis around plain text makes one node of its kind: an opening
/// `Bold` (`Italic`, `Underline`) token, one or more text and white-space
/// tokens, and a closing token of the same kind parse as a single bold
/// (italic, underlined) node holding one leaf per inner token, in order,
/// with the inner tokens' payloads and extents.
pub proof fn law_emphasis_wraps_text(ts: Seq<SpecToken>)
    requires
        ts.len() >= 3,
        is_emphasis(ts[0].t_type),
        ts[ts.len() - 1].t_type == ts[0].t_type,
        forall|j: int| 1 <= j < ts.len() - 1 ==> is_plain(#[trigger] ts[j].t_type),
    ensures
        spec_inline_parse(ts) == Some(seq![SpecNode {
            n_type: emphasis_kind(ts[0].t_type),
            children: Seq::new((ts.len() - 2) as nat, |j: int| plain_leaf(ts[j + 1])),
            n_detail: None,
            start: ts[ts.len() - 1].start,
            end: 0,
        }]),
{
    let nt = emphasis_kind(ts[0].t_type);
    let last = ts.len() - 1;
    assert(is_plain(ts[1].t_type));
    assert(count_in_stack(init_state().stack, nt) == 0);
    assert(spec_to_nt(ts[0].t_type) == nt);
    let st1 = PState { stack: seq![(nt, leaves_upto(ts, 1), None)], result: seq![] };
    assert(crate::parser::push_frame(init_state(), (nt, seq![], None)) == st1) by {
        assert(leaves_upto(ts, 1) =~= Seq::<SpecNode>::empty());
        assert(init_state().stack.push((nt, seq![], None)) =~= st1.stack);
    }
    assert(inline_from(ts, 0, init_state()) == inline_from(ts, 1, st1));
    lemma_inside_emphasis(ts, 1);
    let stl = PState { stack: seq![(nt, leaves_upto(ts, last), None)], result: seq![] };
    assert(count_in_stack(stl.stack, nt) == 1) by {
        assert(stl.stack.drop_last() =~= Seq::<(NodeType, Seq<SpecNode>, Option<Seq<char>>)>::empty());
    }
    assert(spec_to_nt(ts[last].t_type) == nt);
    let node = SpecNode { n_type: nt, children: leaves_upto(ts, last), n_detail: None, start: ts[last].start, end: 0 };
    let fin = PState { stack: seq![], result: seq![node] };
    assert(crate::parser::emit(crate::parser::pop_frame(stl), node) == fin) by {
        assert(stl.stack.drop_last() =~= Seq::<(NodeType, Seq<SpecNode>, Option<Seq<char>>)>::empty());
        assert(Seq::<SpecNode>::empty().push(node) =~= seq![node]);
    }
    assert(inline_from(ts, last, stl) == inline_from(ts, last + 1, fin));
    assert(leaves_upto(ts, last) =~= Seq::new((ts.len() - 2) as nat, |j: int| plain_leaf(ts[j + 1])));
}

proof fn lemma_first_pipe(ns: Seq<SpecNode>, k: int, p: int)
    requires
        0 <= k <= p < ns.len(),
        ns[p].n_type == NodeType::Pipe,
        forall|q: int| k <= q < p ==> (#[trigger] ns[q]).n_type != NodeType::Pipe,
    ensures
        first_pipe(ns, k) == Some(p),
    decreases p - k,
{
    if k < p {
        lemma_first_pipe(ns, k + 1, p);
    }
}

proof fn lemma_no_pipe(ns: Seq<SpecNode>, k: int)
    requires
        0 <= k,
        forall|q: int| 0 <= q < ns.len() ==> (#[trigger] ns[q]).n_type != NodeType::Pipe,
    ensures
        first_pipe(ns, k) is None,
    decreases ns.len() - k,
{
    if k < ns.len() {
        lemma_no_pipe(ns, k + 1);
    }
}

/// A link or image splits at its first pipe: the payloads before the pipe,
/// run together, are its target and the nodes after it its content;
/// without a pipe all payloads form the target and every node is content.
/// It spans the closing token.
pub proof fn law_link_target(nt: NodeType, children: Seq<SpecNode>, t: SpecToken, p: int)
    ensures
        (0 <= p < children.len() && children[p].n_type == NodeType::Pipe
            && forall|q: int| 0 <= q < p ==> (#[trigger] children[q]).n_type != NodeType::Pipe) ==> close_target(nt, children, t)
            == (SpecNode {
            n_type: nt,
            children: children.subrange(p + 1, children.len() as int),
            n_detail: Some(details_concat(children.subrange(0, p))),
            start: t.start,
            end: t.end,
        }),
        (forall|q: int| 0 <= q < children.len() ==> (#[trigger] children[q]).n_type != NodeType::Pipe) ==> close_target(
            nt,
            children,
            t,
        ) == (SpecNode { n_type: nt, children, n_detail: Some(details_concat(children)), start: t.start, end: t.end }),
{
    if 0 <= p < children.len() && children[p].n_type == NodeType::Pipe && forall|q: int|
        0 <= q < p ==> (#[trigger] children[q]).n_type != NodeType::Pipe {
        lemma_first_pipe(children, 0, p);
    }
    if forall|q: int| 0 <= q < children.len() ==> (#[trigger] children[q]).n_type != NodeType::Pipe {
        lemma_no_pipe(children, 0);
    }
}

/// A rule line gives a rule block: a rule with no content spanning its
/// token, followed by the blocks of the next lines.
pub proof fn law_rule_blocks(ts: Seq<SpecToken>, i: int)
    requires
        0 <= i < ts.len(),
        ts[i].t_type == TokenType::Hr,
    ensures
        blocks_from(ts, i) is Some <==> blocks_from(ts, line_end(ts, i + 1) + 1) is Some,
        blocks_from(ts, i) matches Some(bs) ==> {
            &&& bs.len() >= 1
            &&& bs[0] == (SpecNode { n_type: NodeType::Hr, children: seq![], n_detail: None, start: ts[i].start, end: ts[i].end })
            &&& Some(bs.drop_first()) == blocks_from(ts, line_end(ts, i + 1) + 1)
        },
{
    lemma_line_end_bounds(ts, i + 1);
    if let Some(bs) = blocks_from(ts, i) {
        let rest = blocks_from(ts, line_end(ts, i + 1) + 1).unwrap();
        assert(bs.drop_first() =~= rest);
    }
}

} // verus!
