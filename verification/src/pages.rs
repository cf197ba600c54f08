//! Page assembly: content is placed into the wiki's shell with its first
//! heading, its table of contents and the template values.

use vstd::prelude::*;
use vstd::string::*;
use crate::chars::{chars_to_string, str_chars, trim};
use crate::config::Basic;
use crate::auth::{ascii_ci_eq, eq_ignore_ascii_case};
use crate::renderer::{find_chars, find_from, lemma_find_from_bounds, trim_bounds};
use crate::text::{decimal, push_char, push_decimal, push_str};

verus! {

/// Who a page is shown to.
#[derive(Debug, Clone)]
pub struct PageContext {
    pub username: Option<String>,
}

impl Default for PageContext {
    fn default() -> (c: PageContext)
        ensures
            c.username is None,
    {
        PageContext { username: None }
    }
}

/// The stored text of a page, its version stamp and an HTTP status.
#[derive(Debug, Clone)]
pub struct RawPageResponse {
    pub content: String,
    pub sha: String,
    pub status: u16,
}

/// The answer for a page's raw text: the text and its stamp with status
/// 200 when it could be read, empty texts with status 404 otherwise.
pub fn raw_page_response(read: Option<(String, String)>) -> (r: RawPageResponse)
    ensures
        match read {
            Some(p) => r.content@ == p.0@ && r.sha@ == p.1@ && r.status == 200,
            None => r.content@.len() == 0 && r.sha@.len() == 0 && r.status == 404,
        },
{
    match read {
        Some((content, sha)) => RawPageResponse { content, sha, status: 200 },
        None => RawPageResponse { content: String::new(), sha: String::new(), status: 404 },
    }
}

// ---------------------------------------------------------------------
// Replacing

/// `s[k..]` with every occurrence of `p` (left to right, not
/// overlapping) replaced by `w`.
pub open spec fn replace_from(s: Seq<char>, p: Seq<char>, w: Seq<char>, k: int) -> Seq<char>
    decreases s.len() - k,
{
    if p.len() == 0 || k < 0 || k > s.len() {
        Seq::empty()
    } else {
        match find_from(s, p, k) {
            Some(i) => {
                proof {
                    lemma_find_from_bounds(s, p, k);
                }
                s.subrange(k, i) + w + replace_from(s, p, w, i + p.len())
            },
            None => s.subrange(k, s.len() as int),
        }
    }
}

/// `w` before, between and after the characters of `s`: what an empty
/// pattern gives.
pub open spec fn interleave(s: Seq<char>, w: Seq<char>) -> Seq<char>
    decreases s.len(),
{
    if s.len() == 0 {
        w
    } else {
        interleave(s.drop_last(), w) + seq![s.last()] + w
    }
}

/// `s` with every occurrence of `p` replaced by `w`, as `str::replace`
/// gives it: an empty pattern occurs before, between and after the
/// characters.
pub open spec fn spec_replace(s: Seq<char>, p: Seq<char>, w: Seq<char>) -> Seq<char> {
    if p.len() == 0 {
        interleave(s, w)
    } else {
        replace_from(s, p, w, 0)
    }
}

/// `with` before, between and after the characters of `cs`.
fn interleave_chars(cs: &Vec<char>, with: &str) -> (r: String)
    ensures
        r@ == interleave(cs@, with@),
{
    let mut out = String::new();
    push_str(&mut out, with);
    let mut k: usize = 0;
    while k < cs.len()
        invariant
            k <= cs@.len(),
            out@ == interleave(cs@.subrange(0, k as int), with@),
        decreases cs@.len() - k,
    {
        proof {
            assert(cs@.subrange(0, k + 1).drop_last() =~= cs@.subrange(0, k as int));
        }
        push_char(&mut out, cs[k]);
        push_str(&mut out, with);
        proof {
            assert(out@ =~= interleave(cs@.subrange(0, k + 1), with@));
        }
        k = k + 1;
    }
    proof {
        assert(cs@.subrange(0, k as int) =~= cs@);
    }
    out
}

/// `s` with every occurrence of `pat` replaced by `with`.
pub fn replace_all(s: &str, pat: &str, with: &str) -> (r: String)
    ensures
        r@ == spec_replace(s@, pat@, with@),
{
    let cs = str_chars(s);
    let pc = str_chars(pat);
    if pc.len() == 0 {
        return interleave_chars(&cs, with);
    }
    let mut out = String::new();
    let mut k: usize = 0;
    let _n = cs.len();
    loop
        invariant
            k <= cs@.len(),
            cs@.len() <= usize::MAX,
            cs@ == s@,
            pc@ == pat@,
            pat@.len() > 0,
            out@ + replace_from(cs@, pc@, with@, k as int) == replace_from(cs@, pc@, with@, 0),
        decreases cs@.len() - k,
    {
        match find_chars(&cs, &pc, k) {
            Some(i) => {
                proof {
                    lemma_find_from_bounds(cs@, pc@, k as int);
                }
                let piece = chars_to_string(&cs, k, i);
                let ghost before = out@;
                out.append(piece.as_str());
                push_str(&mut out, with);
                proof {
                    assert(out@ == before + cs@.subrange(k as int, i as int) + with@);
                    assert(out@ + replace_from(cs@, pc@, with@, i + pc@.len()) =~= before + replace_from(
                        cs@,
                        pc@,
                        with@,
                        k as int,
                    ));
                }
                k = i + pc.len();
            },
            None => {
                let piece = chars_to_string(&cs, k, cs.len());
                out.append(piece.as_str());
                return out;
            },
        }
    }
}

// ---------------------------------------------------------------------
// The custom table of contents and the first heading

/// Where a page's own table of contents starts.
pub const TOC_START: &'static str = "<!--MAST-TOC-CONTENT-->";

/// Where a page's own table of contents ends.
pub const TOC_END: &'static str = "<!--/MAST-TOC-CONTENT-->";

/// The first end marker of a custom table of contents does not come
/// before the end of the first start marker (else cutting it out fails).
pub open spec fn custom_toc_ordered(content: Seq<char>) -> bool {
    match (find_from(content, TOC_START@, 0), find_from(content, TOC_END@, 0)) {
        (Some(s), Some(e)) => s + TOC_START@.len() <= e,
        _ => true,
    }
}

/// The content without its own table of contents, and that table of
/// contents trimmed (empty when the content has none).
pub open spec fn spec_extract_custom_toc(content: Seq<char>) -> (Seq<char>, Seq<char>) {
    match (find_from(content, TOC_START@, 0), find_from(content, TOC_END@, 0)) {
        (Some(s), Some(e)) => (
            content.subrange(0, s) + content.subrange(e + TOC_END@.len(), content.len() as int),
            trim(content.subrange(s + TOC_START@.len(), e)),
        ),
        _ => (content, Seq::empty()),
    }
}

/// Whether the markers of a custom table of contents are in order.
pub fn toc_markers_ordered(content: &str) -> (r: bool)
    ensures
        r == custom_toc_ordered(content@),
{
    let cs = str_chars(content);
    let st = str_chars(TOC_START);
    let en = str_chars(TOC_END);
    let _n = cs.len();
    match (find_chars(&cs, &st, 0), find_chars(&cs, &en, 0)) {
        (Some(s), Some(e)) => {
            proof {
                lemma_find_from_bounds(cs@, st@, 0);
            }
            s + st.len() <= e
        },
        _ => true,
    }
}

/// Cuts a page's own table of contents out of its content.
fn extract_custom_toc(content: &str) -> (r: (String, String))
    requires
        custom_toc_ordered(content@),
    ensures
        (r.0@, r.1@) == spec_extract_custom_toc(content@),
{
    let cs = str_chars(content);
    let st = str_chars(TOC_START);
    let en = str_chars(TOC_END);
    let _n = cs.len();
    match (find_chars(&cs, &st, 0), find_chars(&cs, &en, 0)) {
        (Some(s), Some(e)) => {
            proof {
                lemma_find_from_bounds(cs@, st@, 0);
                lemma_find_from_bounds(cs@, en@, 0);
            }
            let (a, b) = trim_bounds(&cs, s + st.len(), e);
            let toc = chars_to_string(&cs, a, b);
            let mut clean = chars_to_string(&cs, 0, s);
            let tail = chars_to_string(&cs, e + en.len(), cs.len());
            clean.append(tail.as_str());
            (clean, toc)
        },
        _ => {
            let all = chars_to_string(&cs, 0, cs.len());
            proof {
                assert(cs@.subrange(0, cs@.len() as int) =~= content@);
            }
            (all, String::new())
        },
    }
}

/// The opening of a heading tag of `level`.
pub open spec fn heading_open_tag(level: nat) -> Seq<char> {
    seq!['<', 'h'] + decimal(level)
}

/// The closing heading tag of `level`.
pub open spec fn heading_close_tag(level: nat) -> Seq<char> {
    seq!['<', '/', 'h'] + decimal(level) + seq!['>']
}

/// The first heading of the lowest level from `level` up to 6 that opens
/// and closes in `html`, and `html` without it; no heading and `html`
/// itself when there is none.
pub open spec fn first_heading_from(html: Seq<char>, level: nat) -> (Seq<char>, Seq<char>)
    decreases 7 - level,
{
    if level > 6 {
        (Seq::empty(), html)
    } else {
        match find_from(html, heading_open_tag(level), 0) {
            Some(st) => match find_from(html, heading_close_tag(level), st) {
                Some(cp) => {
                    let end = cp + heading_close_tag(level).len();
                    (html.subrange(st, end), html.subrange(0, st) + html.subrange(end, html.len() as int))
                },
                None => first_heading_from(html, level + 1),
            },
            None => first_heading_from(html, level + 1),
        }
    }
}

/// The first heading of a page (levels 1 to 6, in that order) and the page
/// without it.
pub open spec fn spec_extract_first_heading(html: Seq<char>) -> (Seq<char>, Seq<char>) {
    first_heading_from(html, 1)
}

/// Splits the first heading off a page.
fn extract_first_heading(html: &str) -> (r: (String, String))
    ensures
        (r.0@, r.1@) == spec_extract_first_heading(html@),
{
    let cs = str_chars(html);
    let n = cs.len();
    let mut level: usize = 1;
    while level <= 6
        invariant
            1 <= level <= 7,
            cs@ == html@,
            n == cs@.len(),
            first_heading_from(html@, 1) == first_heading_from(html@, level as nat),
        decreases 7 - level,
    {
        let mut open = String::new();
        push_str(&mut open, "<h");
        push_decimal(&mut open, level);
        let mut close = String::new();
        push_str(&mut close, "</h");
        push_decimal(&mut close, level);
        push_str(&mut close, ">");
        proof {
            reveal_strlit("<h");
            reveal_strlit("</h");
            reveal_strlit(">");
            assert(open@ =~= heading_open_tag(level as nat));
            assert(close@ =~= heading_close_tag(level as nat));
        }
        let oc = str_chars(open.as_str());
        let cc = str_chars(close.as_str());
        if let Some(start) = find_chars(&cs, &oc, 0) {
            proof {
                lemma_find_from_bounds(cs@, oc@, 0);
            }
            if let Some(close_pos) = find_chars(&cs, &cc, start) {
                proof {
                    lemma_find_from_bounds(cs@, cc@, start as int);
                }
                let heading_end = close_pos + cc.len();
                let heading = chars_to_string(&cs, start, heading_end);
                let mut body = chars_to_string(&cs, 0, start);
                let tail = chars_to_string(&cs, heading_end, cs.len());
                body.append(tail.as_str());
                return (heading, body);
            }
        }
        level = level + 1;
    }
    let all = chars_to_string(&cs, 0, cs.len());
    proof {
        assert(cs@.subrange(0, cs@.len() as int) =~= html@);
    }
    (String::new(), all)
}

// ---------------------------------------------------------------------
// Template values

/// The sign-in entry of the navigation: the account link of a signed-in
/// user, else the log-in link.
pub open spec fn spec_auth_markup(username: Option<Seq<char>>) -> Seq<char> {
    match username {
        Some(name) => "<li><a href=\"/user/"@ + name + "\">Account</a></li>"@,
        None => "<li><a href=\"/signin\">Log in</a></li>"@,
    }
}

/// The sign-in entry of the navigation.
pub fn auth_markup(username: Option<&str>) -> (r: String)
    ensures
        r@ == spec_auth_markup(match username {
            Some(n) => Some(n@),
            None => None,
        }),
{
    let mut r = String::new();
    match username {
        Some(name) => {
            push_str(&mut r, "<li><a href=\"/user/");
            push_str(&mut r, name);
            push_str(&mut r, "\">Account</a></li>");
        },
        None => {
            push_str(&mut r, "<li><a href=\"/signin\">Log in</a></li>");
        },
    }
    proof {
        assert(r@ =~= spec_auth_markup(match username {
            Some(n) => Some(n@),
            None => None,
        }));
    }
    r
}

/// The path of the wiki's home page.
pub open spec fn spec_home_path(prefix: Seq<char>, default_page: Seq<char>) -> Seq<char> {
    prefix + default_page
}

/// The path of the wiki's home page: the page prefix and the default page.
pub fn home_path(basic: &Basic) -> (r: String)
    ensures
        r@ == spec_home_path(basic.wikipage_directory_prefix@, basic.default_wikipage@),
{
    let mut r = String::new();
    push_str(&mut r, basic.wikipage_directory_prefix.as_str());
    push_str(&mut r, basic.default_wikipage.as_str());
    r
}

/// The template values of a page, in the order they are filled in: before
/// installation only the wiki name `Mast` and the log-in link.
pub open spec fn spec_template_vars(
    username: Option<Seq<char>>,
    installed: bool,
    name: Seq<char>,
    prefix: Seq<char>,
    default_page: Seq<char>,
) -> Seq<(Seq<char>, Seq<char>)> {
    if !installed {
        seq![("WIKINAME"@, "Mast"@), ("AUTH"@, spec_auth_markup(None))]
    } else {
        seq![
            ("WIKINAME"@, name),
            ("HOME"@, spec_home_path(prefix, default_page)),
            ("MAST_FOOTER"@, "Powered by Mast"@),
            ("AUTH"@, spec_auth_markup(username)),
        ]
    }
}

pub open spec fn opt_view(o: Option<String>) -> Option<Seq<char>> {
    match o {
        Some(s) => Some(s@),
        None => None,
    }
}

pub open spec fn vars_view(v: Seq<(&'static str, String)>) -> Seq<(Seq<char>, Seq<char>)> {
    v.map_values(|e: (&'static str, String)| (e.0@, e.1@))
}

/// The template values of a page.
pub fn template_vars(ctx: &PageContext, installed: bool, basic: &Basic) -> (r: Vec<(&'static str, String)>)
    ensures
        vars_view(r@) == spec_template_vars(
            opt_view(ctx.username),
            installed,
            basic.name@,
            basic.wikipage_directory_prefix@,
            basic.default_wikipage@,
        ),
{
    let mut r: Vec<(&'static str, String)> = Vec::new();
    if !installed {
        r.push(("WIKINAME", "Mast".to_owned()));
        r.push(("AUTH", auth_markup(None)));
        proof {
            assert(vars_view(r@) =~= spec_template_vars(
                opt_view(ctx.username),
                installed,
                basic.name@,
                basic.wikipage_directory_prefix@,
                basic.default_wikipage@,
            ));
        }
        return r;
    }
    r.push(("WIKINAME", basic.name.clone()));
    r.push(("HOME", home_path(basic)));
    r.push(("MAST_FOOTER", "Powered by Mast".to_owned()));
    let user = match &ctx.username {
        Some(n) => Some(n.as_str()),
        None => None,
    };
    r.push(("AUTH", auth_markup(user)));
    proof {
        assert(vars_view(r@) =~= spec_template_vars(
            opt_view(ctx.username),
            installed,
            basic.name@,
            basic.wikipage_directory_prefix@,
            basic.default_wikipage@,
        ));
    }
    r
}

/// The marker a template value replaces in the shell.
pub open spec fn var_marker(key: Seq<char>) -> Seq<char> {
    "<!--MAST_"@ + key + "-->"@
}

/// The shell with the template values filled in, in order.
pub open spec fn apply_vars(html: Seq<char>, vars: Seq<(Seq<char>, Seq<char>)>) -> Seq<char>
    decreases vars.len(),
{
    if vars.len() == 0 {
        html
    } else {
        spec_replace(apply_vars(html, vars.drop_last()), var_marker(vars.last().0), vars.last().1)
    }
}

/// A page in its shell: the template values filled in, then the first
/// heading, the content without it, and the table of contents (the page's
/// own, when it has one) put at their markers.
pub open spec fn spec_inject(
    content: Seq<char>,
    toc: Seq<char>,
    shell: Seq<char>,
    vars: Seq<(Seq<char>, Seq<char>)>,
) -> Seq<char> {
    let (clean, custom_toc) = spec_extract_custom_toc(content);
    let final_toc = if custom_toc.len() == 0 { toc } else { custom_toc };
    let (heading, body) = spec_extract_first_heading(clean);
    let html = apply_vars(shell, vars);
    spec_replace(
        spec_replace(spec_replace(html, "<!--MAST-HEADING-->"@, heading), "<!--MAST-CONTENT-->"@, body),
        "<!--MAST-TOC-->"@,
        final_toc,
    )
}

/// Places a page into the shell (`shell`: its text with its includes
/// resolved); `installed` and `basic` give the template values.
pub fn inject(content: &str, toc: &str, ctx: &PageContext, shell: &str, installed: bool, basic: &Basic) -> (r: String)
    requires
        custom_toc_ordered(content@),
    ensures
        r@ == spec_inject(
            content@,
            toc@,
            shell@,
            spec_template_vars(
                opt_view(ctx.username),
                installed,
                basic.name@,
                basic.wikipage_directory_prefix@,
                basic.default_wikipage@,
            ),
        ),
{
    let (clean, custom_toc) = extract_custom_toc(content);
    let (heading, body) = extract_first_heading(clean.as_str());
    let vars = template_vars(ctx, installed, basic);
    let ghost vv = vars_view(vars@);
    let mut html = shell.to_owned();
    let mut i: usize = 0;
    while i < vars.len()
        invariant
            i <= vars@.len(),
            vv == vars_view(vars@),
            html@ == apply_vars(shell@, vv.subrange(0, i as int)),
        decreases vars@.len() - i,
    {
        let mut marker = String::new();
        push_str(&mut marker, "<!--MAST_");
        push_str(&mut marker, vars[i].0);
        push_str(&mut marker, "-->");
        proof {
            reveal_strlit("<!--MAST_");
            assert(marker@ =~= var_marker(vv[i as int].0));
            assert(vv.subrange(0, i + 1).drop_last() =~= vv.subrange(0, i as int));
        }
        html = replace_all(html.as_str(), marker.as_str(), vars[i].1.as_str());
        i = i + 1;
    }
    proof {
        assert(vv.subrange(0, i as int) =~= vv);
        reveal_strlit("<!--MAST-HEADING-->");
        reveal_strlit("<!--MAST-CONTENT-->");
        reveal_strlit("<!--MAST-TOC-->");
    }
    let h1 = replace_all(html.as_str(), "<!--MAST-HEADING-->", heading.as_str());
    let h2 = replace_all(h1.as_str(), "<!--MAST-CONTENT-->", body.as_str());
    let custom_len = str_chars(custom_toc.as_str()).len();
    if custom_len == 0 {
        replace_all(h2.as_str(), "<!--MAST-TOC-->", toc)
    } else {
        replace_all(h2.as_str(), "<!--MAST-TOC-->", custom_toc.as_str())
    }
}

// ---------------------------------------------------------------------
// Shell includes

/// Where an include marker starts.
pub const INCLUDE_START: &'static str = "<!--MAST_INCLUDE:";

/// Where an include marker ends.
pub const INCLUDE_END: &'static str = "-->";

/// The first include marker that is closed: where it starts, where its
/// name starts and where its name ends.
pub open spec fn first_include(html: Seq<char>) -> Option<(int, int, int)> {
    match find_from(html, INCLUDE_START@, 0) {
        Some(st) => {
            let ns = st + INCLUDE_START@.len();
            match find_from(html, INCLUDE_END@, ns) {
                Some(ne) => Some((st, ns, ne)),
                None => None,
            }
        },
        None => None,
    }
}

/// The file name an include asks for: `/`, `\` and `.` taken out (so that
/// it cannot leave the components directory).
pub open spec fn spec_safe_include_name(name: Seq<char>) -> Seq<char> {
    spec_replace(spec_replace(spec_replace(spec_replace(name, "/"@, Seq::empty()), "\\"@, Seq::empty()), "."@, Seq::empty()), ".."@, Seq::empty())
}

/// The safe name of the first closed include marker of a shell, if any.
pub fn next_include_name(html: &str) -> (r: Option<String>)
    ensures
        match first_include(html@) {
            Some(t) => r matches Some(n) && n@ == spec_safe_include_name(html@.subrange(t.1, t.2)),
            None => r is None,
        },
{
    let cs = str_chars(html);
    let st = str_chars(INCLUDE_START);
    let en = str_chars(INCLUDE_END);
    let _n = cs.len();
    match find_chars(&cs, &st, 0) {
        Some(s) => {
            proof {
                lemma_find_from_bounds(cs@, st@, 0);
            }
            let ns = s + st.len();
            match find_chars(&cs, &en, ns) {
                Some(ne) => {
                    proof {
                        lemma_find_from_bounds(cs@, en@, ns as int);
                        reveal_strlit("/");
                        reveal_strlit("\\");
                        reveal_strlit(".");
                        reveal_strlit("..");
                    }
                    let name = chars_to_string(&cs, ns, ne);
                    let a = replace_all(name.as_str(), "/", "");
                    let b = replace_all(a.as_str(), "\\", "");
                    let c = replace_all(b.as_str(), ".", "");
                    let d = replace_all(c.as_str(), "..", "");
                    proof {
                        reveal_strlit("");
                        assert(""@ =~= Seq::<char>::empty());
                    }
                    Some(d)
                },
                None => None,
            }
        },
        None => None,
    }
}

/// The shell with its first closed include marker replaced by `included`.
pub open spec fn spec_splice_include(html: Seq<char>, included: Seq<char>) -> Seq<char> {
    match first_include(html) {
        Some(t) => html.subrange(0, t.0) + included + html.subrange(t.2 + INCLUDE_END@.len(), html.len() as int),
        None => html,
    }
}

/// Replaces the first closed include marker of a shell by `included`.
pub fn splice_include(html: &str, included: &str) -> (r: String)
    ensures
        r@ == spec_splice_include(html@, included@),
{
    let cs = str_chars(html);
    let st = str_chars(INCLUDE_START);
    let en = str_chars(INCLUDE_END);
    let _n = cs.len();
    match find_chars(&cs, &st, 0) {
        Some(s) => {
            proof {
                lemma_find_from_bounds(cs@, st@, 0);
            }
            let ns = s + st.len();
            match find_chars(&cs, &en, ns) {
                Some(ne) => {
                    proof {
                        lemma_find_from_bounds(cs@, en@, ns as int);
                    }
                    let mut r = chars_to_string(&cs, 0, s);
                    push_str(&mut r, included);
                    let tail = chars_to_string(&cs, ne + en.len(), cs.len());
                    r.append(tail.as_str());
                    r
                },
                None => html.to_owned(),
            }
        },
        None => html.to_owned(),
    }
}

// ---------------------------------------------------------------------
// The admin status line

/// The status line of the admin panel for a severity: an update notice
/// with its message, a count of warnings or errors, or the operational line.
pub open spec fn spec_status_markup(severity: Seq<char>, count: nat, message: Seq<char>) -> Seq<char> {
    if severity == "update"@ {
        "<div class=\"inline-grid *:[grid-area:1/1]\">\n               <div class=\"status status-info animate-ping\"></div>\n               <div class=\"status status-info\"></div>\n               </div> "@ + message
    } else if severity == "warning"@ {
        "<div class=\"inline-grid *:[grid-area:1/1]\">\\\n               <div class=\"status status-warning animate-ping\"></div>\\\n               <div class=\"status status-warning\"></div>\\\n               </div> "@ + decimal(count) + " warning(s) — <a href=\"/admin/logs\" class=\"link\">open logs</a>"@
    } else if severity == "error"@ {
        "<div class=\"inline-grid *:[grid-area:1/1]\">\\\n               <div class=\"status status-error animate-ping\"></div>\\\n               <div class=\"status status-error\"></div>\\\n               </div> "@ + decimal(count) + " error(s) — <a href=\"/admin/logs\" class=\"link\">open logs</a>"@
    } else {
        "<div class=\"inline-grid *:[grid-area:1/1]\">\n               <div class=\"status status-success animate-ping\"></div>\n               <div class=\"status status-success\"></div>\n               </div> Wiki is operational"@
    }
}

/// The status line of the admin panel.
pub fn status_markup(severity: &str, count: usize, message: &str) -> (r: String)
    ensures
        r@ == spec_status_markup(severity@, count as nat, message@),
{
    let mut r = String::new();
    if crate::chars::str_eq(severity, "update") {
        push_str(&mut r, "<div class=\"inline-grid *:[grid-area:1/1]\">\n               <div class=\"status status-info animate-ping\"></div>\n               <div class=\"status status-info\"></div>\n               </div> ");
        push_str(&mut r, message);
    } else if crate::chars::str_eq(severity, "warning") {
        push_str(&mut r, "<div class=\"inline-grid *:[grid-area:1/1]\">\\\n               <div class=\"status status-warning animate-ping\"></div>\\\n               <div class=\"status status-warning\"></div>\\\n               </div> ");
        push_decimal(&mut r, count);
        push_str(&mut r, " warning(s) — <a href=\"/admin/logs\" class=\"link\">open logs</a>");
    } else if crate::chars::str_eq(severity, "error") {
        push_str(&mut r, "<div class=\"inline-grid *:[grid-area:1/1]\">\\\n               <div class=\"status status-error animate-ping\"></div>\\\n               <div class=\"status status-error\"></div>\\\n               </div> ");
        push_decimal(&mut r, count);
        push_str(&mut r, " error(s) — <a href=\"/admin/logs\" class=\"link\">open logs</a>");
    } else {
        push_str(&mut r, "<div class=\"inline-grid *:[grid-area:1/1]\">\n               <div class=\"status status-success animate-ping\"></div>\n               <div class=\"status status-success\"></div>\n               </div> Wiki is operational");
    }
    r
}

// ---------------------------------------------------------------------
// Laws

proof fn lemma_find_from_first(s: Seq<char>, p: Seq<char>, k: int)
    requires
        0 <= k,
    ensures
        find_from(s, p, k) matches Some(i) ==> forall|j: int| k <= j < i ==> #[trigger] s.subrange(j, j + p.len()) != p,
        find_from(s, p, k) is None ==> forall|j: int| k <= j && j + p.len() <= s.len() ==> #[trigger] s.subrange(j, j + p.len()) != p,
    decreases s.len() + 1 - k,
{
    if !(k + p.len() > s.len()) && s.subrange(k, k + p.len()) != p {
        lemma_find_from_first(s, p, k + 1);
    }
}

/// Replacing by nothing adds no character, and takes every `c` out when
/// the pattern is `c` alone.
proof fn lemma_replace_by_nothing(s: Seq<char>, p: Seq<char>, k: int)
    requires
        p.len() > 0,
        0 <= k <= s.len(),
    ensures
        forall|x: char| #[trigger] replace_from(s, p, Seq::empty(), k).contains(x) ==> s.contains(x),
        p.len() == 1 ==> !replace_from(s, p, Seq::empty(), k).contains(p[0]),
    decreases s.len() - k,
{
    let w = Seq::<char>::empty();
    let out = replace_from(s, p, w, k);
    lemma_find_from_bounds(s, p, k);
    lemma_find_from_first(s, p, k);
    match find_from(s, p, k) {
        Some(i) => {
            lemma_replace_by_nothing(s, p, i + p.len());
            let head = s.subrange(k, i);
            let tail = replace_from(s, p, w, i + p.len());
            assert(out =~= head + tail);
            assert forall|x: char| #[trigger] out.contains(x) implies s.contains(x) by {
                let j = choose|j: int| 0 <= j < out.len() && out[j] == x;
                if j < head.len() {
                    assert(s[k + j] == x);
                } else {
                    assert(tail[j - head.len()] == x);
                    assert(tail.contains(x));
                }
            }
            if p.len() == 1 && out.contains(p[0]) {
                let j = choose|j: int| 0 <= j < out.len() && out[j] == p[0];
                if j < head.len() {
                    assert(s.subrange(k + j, k + j + 1) =~= p);
                } else {
                    assert(tail[j - head.len()] == p[0]);
                }
            }
        },
        None => {
            let rest = s.subrange(k, s.len() as int);
            assert(out == rest);
            assert forall|x: char| #[trigger] out.contains(x) implies s.contains(x) by {
                let j = choose|j: int| 0 <= j < out.len() && out[j] == x;
                assert(s[k + j] == x);
            }
            if p.len() == 1 && out.contains(p[0]) {
                let j = choose|j: int| 0 <= j < out.len() && out[j] == p[0];
                assert(s.subrange(k + j, k + j + 1) =~= p);
            }
        },
    }
}

/// An include names a plain file: its safe name holds no `/`, `\` or
/// `.`, so it cannot leave the shell's components directory.
pub proof fn law_include_name_is_plain(name: Seq<char>)
    ensures
        !spec_safe_include_name(name).contains('/'),
        !spec_safe_include_name(name).contains('\\'),
        !spec_safe_include_name(name).contains('.'),
{
    reveal_strlit("/");
    reveal_strlit("\\");
    reveal_strlit(".");
    reveal_strlit("..");
    let e = Seq::<char>::empty();
    let a = spec_replace(name, "/"@, e);
    let b = spec_replace(a, "\\"@, e);
    let c = spec_replace(b, "."@, e);
    let d = spec_replace(c, ".."@, e);
    lemma_replace_by_nothing(name, "/"@, 0);
    lemma_replace_by_nothing(a, "\\"@, 0);
    lemma_replace_by_nothing(b, "."@, 0);
    lemma_replace_by_nothing(c, ".."@, 0);
    assert(d == spec_safe_include_name(name));
    if d.contains('/') {
        assert(c.contains('/'));
        assert(b.contains('/'));
    }
    if d.contains('\\') {
        assert(c.contains('\\'));
    }
}

// ---------------------------------------------------------------------
// User pages

/// The index of the first name from `k` on equal to `requested` ignoring
/// ASCII case.
pub open spec fn first_name_match(names: Seq<Seq<char>>, requested: Seq<char>, k: int) -> Option<int>
    decreases names.len() - k,
{
    if k < 0 || k >= names.len() {
        None
    } else if ascii_ci_eq(names[k], requested) {
        Some(k)
    } else {
        first_name_match(names, requested, k + 1)
    }
}

proof fn lemma_first_name_match(names: Seq<Seq<char>>, requested: Seq<char>, k: int)
    requires
        0 <= k,
    ensures
        first_name_match(names, requested, k) matches Some(i) ==> k <= i < names.len() && ascii_ci_eq(names[i], requested),
        first_name_match(names, requested, k) is None ==> forall|i: int| k <= i < names.len() ==> !ascii_ci_eq(#[trigger] names[i], requested),
    decreases names.len() - k,
{
    if k < names.len() {
        lemma_first_name_match(names, requested, k + 1);
    }
}

pub open spec fn names_view(v: Seq<String>) -> Seq<Seq<char>> {
    v.map_values(|s: String| s@)
}

/// The user whose page `requested` names: the first of `names` equal to
/// it ignoring ASCII case; `None` when no user has that name (the page is
/// then not found).
pub fn user_page_name(names: &Vec<String>, requested: &str) -> (r: Option<String>)
    ensures
        match first_name_match(names_view(names@), requested@, 0) {
            Some(i) => r matches Some(n) && n@ == names@[i]@,
            None => r is None,
        },
        r is None <==> forall|i: int| 0 <= i < names@.len() ==> !ascii_ci_eq(#[trigger] names@[i]@, requested@),
{
    let ghost ns = names_view(names@);
    proof {
        lemma_first_name_match(ns, requested@, 0);
    }
    let mut i: usize = 0;
    while i < names.len()
        invariant
            i <= names@.len(),
            ns == names_view(names@),
            first_name_match(ns, requested@, 0) == first_name_match(ns, requested@, i as int),
        decreases names@.len() - i,
    {
        if eq_ignore_ascii_case(names[i].as_str(), requested) {
            return Some(names[i].clone());
        }
        i = i + 1;
    }
    proof {
        assert forall|k: int| 0 <= k < names@.len() implies !ascii_ci_eq(#[trigger] names@[k]@, requested@) by {
            assert(ns[k] == names@[k]@);
        }
    }
    None
}

/// The page shown for a user who has not saved one.
pub open spec fn spec_default_user_page(name: Seq<char>) -> Seq<char> {
    "<h1>"@ + name + "</h1>\n\n<p>This is "@ + name + "'s page. Save the page <code>user/"@ + name
        + "</code> to customise it.</p>"@
}

/// The page shown for user `name` when none was saved.
pub fn default_user_page(name: &str) -> (r: String)
    ensures
        r@ == spec_default_user_page(name@),
{
    let mut r = String::new();
    push_str(&mut r, "<h1>");
    push_str(&mut r, name);
    push_str(&mut r, "</h1>\n\n<p>This is ");
    push_str(&mut r, name);
    push_str(&mut r, "'s page. Save the page <code>user/");
    push_str(&mut r, name);
    push_str(&mut r, "</code> to customise it.</p>");
    r
}

/// The scope of user `name`'s page: `/user/` and the name.
pub fn user_page_scope(name: &str) -> (r: String)
    ensures
        r@ == "/user/"@ + name@,
{
    let mut r = String::new();
    push_str(&mut r, "/user/");
    push_str(&mut r, name);
    r
}

} // verus!
