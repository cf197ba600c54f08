//! What the renderer promises of every node and every page: the HTML of
//! each kind of node, nodes rendered in order, and a table of contents
//! with one entry per heading.

use vstd::prelude::*;
use crate::parser::{detail_or_empty, NodeType, SpecNode};
use crate::renderer::{
    escape, escape_char, flat_text, pseudo_html, heading_level, rchildren, repeat, rnode, slug, source_text, spec_build_toc, toc_line,
    toc_lines, RState,
};
use crate::text::decimal;

verus! {

/// `open`, the children's HTML and `close`, with the state the children
/// leave.
pub open spec fn framed(open: Seq<char>, inner: (Seq<char>, RState), close: Seq<char>) -> (Seq<char>, RState) {
    (open + inner.0 + close, inner.1)
}

/// The HTML of each kind of node: emphasis, underline, quotes, paragraphs
/// and footnotes wrap their children's HTML in their own tags (bold in
/// `<strong>`, italic in `<em>`, underline in `<u>`, a quote in
/// `<blockquote>`, a paragraph in `<p>`, a footnote in `<sup>`); text is
/// escaped; a heading is wrapped in `<hN id="anchor">` for its level and
/// is recorded for the table of contents; rules and line breaks are fixed
/// tags; a link wraps its children in `<a>` to its escaped target; an
/// image is an `<img>` of its escaped source with its text as `alt`; a
/// macro gives no HTML (`NOTOC` suppresses the table of contents,
/// `CUSTOMTOC` makes its children's HTML the table of contents).
pub proof fn law_node_html(src: Seq<u8>, st: RState, n: SpecNode)
    ensures
        n.n_type == NodeType::Bold ==> rnode(src, st, n) == framed(
            "<strong class=\"mast-bold\">"@,
            rchildren(src, st, n.children),
            "</strong>"@,
        ),
        n.n_type == NodeType::Italic ==> rnode(src, st, n) == framed(
            "<em class=\"mast-italic\">"@,
            rchildren(src, st, n.children),
            "</em>"@,
        ),
        n.n_type == NodeType::Underline ==> rnode(src, st, n) == framed(
            "<u class=\"mast-underline\">"@,
            rchildren(src, st, n.children),
            "</u>"@,
        ),
        n.n_type == NodeType::Quote ==> rnode(src, st, n) == framed(
            "<blockquote class=\"mast-blockquote\">"@,
            rchildren(src, st, n.children),
            "</blockquote>"@,
        ),
        n.n_type == NodeType::Paragraph ==> rnode(src, st, n) == framed(
            "<p class=\"wiki-paragraph\">"@,
            rchildren(src, st, n.children),
            "</p>"@,
        ),
        n.n_type == NodeType::Footnote ==> rnode(src, st, n) == framed(
            "<sup class=\"mast-footnote\">"@,
            rchildren(src, st, n.children),
            "</sup>"@,
        ),
        n.n_type == NodeType::Text ==> rnode(src, st, n) == (escape(source_text(src, n)), st),
        n.n_type == NodeType::Whitespace ==> rnode(src, st, n) == (source_text(src, n), st),
        n.n_type == NodeType::Hr ==> rnode(src, st, n) == ("<hr class=\"mast-hr\" />"@, st),
        n.n_type == NodeType::Linebreak ==> rnode(src, st, n) == ("<br class=\"wiki-linebreak\" />"@, st),
        n.n_type == NodeType::Link ==> rnode(src, st, n) == framed(
            "<a href=\""@ + escape(detail_or_empty(n.n_detail)) + "\" class=\"mast-link\">"@,
            rchildren(src, st, n.children),
            "</a>"@,
        ),
        n.n_type == NodeType::Image ==> rnode(src, st, n) == (
            "<img src=\""@ + escape(detail_or_empty(n.n_detail)) + "\" class=\"mast-image\" alt=\""@
                + flat_text(src, n.children) + "\" />"@,
            st,
        ),
        n.n_type == NodeType::Macro ==> rnode(src, st, n).0 == Seq::<char>::empty(),
        n.n_type == NodeType::Macro && n.n_detail == Some("NOTOC"@) ==> rnode(src, st, n).1 == (RState { suppress_toc: true, ..st }),
        n.n_type == NodeType::Macro && n.n_detail == Some("CUSTOMTOC"@) ==> rnode(src, st, n).1 == (RState {
            custom_toc: Some(rchildren(src, st, n.children).0),
            ..rchildren(src, st, n.children).1
        }),
        n.n_type == NodeType::Heading ==> ({
            let level = heading_level(n.n_detail);
            let text = flat_text(src, n.children);
            let anchor = slug(text);
            let st1 = RState { headings: st.headings.push((level, text, anchor)), ..st };
            rnode(src, st, n) == framed(
                "<h"@ + decimal(level as nat) + " id=\""@ + anchor + "\" class=\"mast-heading-"@ + decimal(level as nat)
                    + "\">"@,
                rchildren(src, st1, n.children),
                "</h"@ + decimal(level as nat) + ">"@,
            )
        }),
{
    reveal_strlit("NOTOC");
    reveal_strlit("CUSTOMTOC");
}

/// Nodes render in order: no nodes give no HTML and leave the state as it
/// was; one more node adds its HTML after the others', rendered in the
/// state they leave.
pub proof fn law_children_in_order(src: Seq<u8>, st: RState, ns: Seq<SpecNode>, n: SpecNode)
    ensures
        rchildren(src, st, Seq::empty()) == (Seq::<char>::empty(), st),
        rchildren(src, st, ns.push(n)) == ({
            let before = rchildren(src, st, ns);
            let last = rnode(src, before.1, n);
            (before.0 + last.0, last.1)
        }),
{
    assert(ns.push(n).subrange(0, ns.len() as int) =~= ns);
    assert(ns.push(n)[ns.len() as int] == n);
}

/// The table of contents lists every heading, in order: without headings,
/// or when suppressed, it is empty; a custom one is taken as it is;
/// otherwise it is a `<ul>` list whose entries are one line per heading,
/// each an indented link to the heading's anchor.
pub proof fn law_toc_lists_every_heading(
    st: RState,
    hs: Seq<(u8, Seq<char>, Seq<char>)>,
    h: (u8, Seq<char>, Seq<char>),
)
    ensures
        st.suppress_toc || st.headings.len() == 0 ==> spec_build_toc(st) == Seq::<char>::empty(),
        !st.suppress_toc && st.headings.len() > 0 ==> (st.custom_toc matches Some(c) ==> spec_build_toc(st) == c),
        !st.suppress_toc && st.headings.len() > 0 && st.custom_toc is None ==> spec_build_toc(st)
            == "<ul class=\"menu menu-sm\">"@ + toc_lines(st.headings) + "</ul>"@,
        toc_lines(Seq::empty()) == Seq::<char>::empty(),
        toc_lines(hs.push(h)) == toc_lines(hs) + toc_line(h),
        toc_line(h) == repeat("  "@, (h.0 - 1) as nat) + "<li><a href=\"#"@ + h.2 + "\">"@ + h.1 + "</a></li>\n"@,
{
    assert(hs.push(h).drop_last() =~= hs);
}

/// Escaping works character by character: `&`, `<`, `>`, `"` and `'`
/// become `&amp;`, `&lt;`, `&gt;`, `&quot;` and `&#39;`, every other
/// character stays as it is.
pub proof fn law_escape_by_character(s: Seq<char>, c: char)
    ensures
        escape(Seq::empty()) == Seq::<char>::empty(),
        escape(s.push(c)) == escape(s) + escape_char(c),
        escape_char('&') == "&amp;"@,
        escape_char('<') == "&lt;"@,
        escape_char('>') == "&gt;"@,
        escape_char('"') == "&quot;"@,
        escape_char('\'') == "&#39;"@,
        c != '&' && c != '<' && c != '>' && c != '"' && c != '\'' ==> escape_char(c) == seq![c],
{
    assert(s.push(c).drop_last() =~= s);
}

/// Text without any of the five escaped characters is left unchanged.
pub proof fn law_plain_text_unchanged(s: Seq<char>)
    requires
        forall|i: int| 0 <= i < s.len() ==> {
            let c = #[trigger] s[i];
            c != '&' && c != '<' && c != '>' && c != '"' && c != '\''
        },
    ensures
        escape(s) == s,
    decreases s.len(),
{
    if s.len() > 0 {
        let init = s.drop_last();
        assert forall|i: int| 0 <= i < init.len() implies {
            let c = #[trigger] init[i];
            c != '&' && c != '<' && c != '>' && c != '"' && c != '\''
        } by {
            assert(init[i] == s[i]);
        }
        law_plain_text_unchanged(init);
        let c = s[s.len() - 1];
        assert(escape_char(c) == seq![c]);
        assert(init.push(c) =~= s);
    }
}

/// The HTML of a tag: `br` is a fixed line break; `nowiki` shows its
/// content's flat text unrendered (nothing when self-closing); an
/// `accordion` wraps its rendered content in `<details>`; a tag of any
/// other name but `callout` becomes an element of that name with class
/// `wiki-` and the name, wrapping its rendered content (empty when
/// self-closing).
pub proof fn law_tag_html(
    tag: Seq<char>,
    attrs: Seq<char>,
    sc: bool,
    flat: Seq<char>,
    st: RState,
    rendered: (Seq<char>, RState),
)
    ensures
        tag == "br"@ ==> pseudo_html(tag, attrs, sc, flat, st, rendered) == ("<br class=\"wiki-br\" />"@, st),
        tag == "nowiki"@ ==> pseudo_html(tag, attrs, sc, flat, st, rendered) == (if sc { Seq::<char>::empty() } else { flat }, st),
        tag == "accordion"@ && !sc ==> pseudo_html(tag, attrs, sc, flat, st, rendered) == framed(
            "<details class=\"wiki-accordion\">"@,
            rendered,
            "</details>"@,
        ),
        tag != "br"@ && tag != "nowiki"@ && tag != "callout"@ && tag != "accordion"@ ==> pseudo_html(tag, attrs, sc, flat, st, rendered) == (if sc {
            ("<"@ + tag + " class=\"wiki-"@ + tag + "\" />"@, st)
        } else {
            framed("<"@ + tag + " class=\"wiki-"@ + tag + "\">"@, rendered, "</"@ + tag + ">"@)
        }),
{
    reveal_strlit("br");
    reveal_strlit("nowiki");
    reveal_strlit("callout");
    reveal_strlit("accordion");
    reveal_strlit(" class=\"");
    reveal_strlit("wiki-");
    reveal_strlit(" class=\"wiki-");
    let cls = "wiki-"@ + tag;
    assert("<"@ + tag + " class=\""@ + cls + "\" />"@ =~= "<"@ + tag + " class=\"wiki-"@ + tag + "\" />"@);
    assert("<"@ + tag + " class=\""@ + cls + "\">"@ =~= "<"@ + tag + " class=\"wiki-"@ + tag + "\">"@);
}

} // verus!
