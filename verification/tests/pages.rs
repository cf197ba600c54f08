use mast::config::Basic;
use mast::pages::{
    default_user_page, user_page_name, user_page_scope,
    auth_markup, home_path, inject, next_include_name, raw_page_response, replace_all, splice_include, status_markup,
    template_vars, toc_markers_ordered, PageContext,
};

const SHELL: &str = "<title><!--MAST_WIKINAME--></title><h><!--MAST-HEADING--></h><main><!--MAST-CONTENT--></main><nav><!--MAST-TOC--></nav><!--MAST_AUTH--><a href=\"<!--MAST_HOME-->\">home</a><!--MAST_MAST_FOOTER-->";

fn wiki() -> Basic {
    let mut b = Basic::default();
    b.name = "W".to_string();
    b
}

#[test]
fn replace_all_replaces_left_to_right() {
    assert_eq!(replace_all("a-b-c", "-", "+"), "a+b+c");
    assert_eq!(replace_all("aaa", "aa", "b"), "ba");
    assert_eq!(replace_all("x", "y", "z"), "x");
    assert_eq!(replace_all("", "y", "z"), "");
    assert_eq!(replace_all("a.b", ".", ""), "ab");
    assert_eq!(replace_all("abc", "", "-"), "abc".replace("", "-"));
    assert_eq!(replace_all("abc", "", "-"), "-a-b-c-");
    assert_eq!(replace_all("", "", "x"), "x");
}

#[test]
fn inject_before_installation() {
    let html = inject("<h2 id=\"a\">A</h2><p>x</p>", "T", &PageContext::default(), SHELL, false, &wiki());
    assert_eq!(
        html,
        "<title>Mast</title><h><h2 id=\"a\">A</h2></h><main><p>x</p></main><nav>T</nav><li><a href=\"/signin\">Log in</a></li><a href=\"<!--MAST_HOME-->\">home</a><!--MAST_MAST_FOOTER-->"
    );
}

#[test]
fn inject_after_installation() {
    let ctx = PageContext { username: Some("al".to_string()) };
    let html = inject("<p>x</p>", "", &ctx, SHELL, true, &wiki());
    assert_eq!(
        html,
        "<title>W</title><h></h><main><p>x</p></main><nav></nav><li><a href=\"/user/al\">Account</a></li><a href=\"/wiki/home\">home</a>Powered by Mast"
    );
}

#[test]
fn a_page_toc_replaces_the_generated_one() {
    let content = "<p>y</p><!--MAST-TOC-CONTENT-->  mine  <!--/MAST-TOC-CONTENT--><p>z</p>";
    let html = inject(content, "generated", &PageContext::default(), "<!--MAST-CONTENT-->|<!--MAST-TOC-->", false, &wiki());
    assert_eq!(html, "<p>y</p><p>z</p>|mine");
}

#[test]
fn an_empty_page_toc_keeps_the_generated_one() {
    let content = "<p>y</p><!--MAST-TOC-CONTENT-->   <!--/MAST-TOC-CONTENT-->";
    let html = inject(content, "generated", &PageContext::default(), "<!--MAST-CONTENT-->|<!--MAST-TOC-->", false, &wiki());
    assert_eq!(html, "<p>y</p>|generated");
}

#[test]
fn the_lowest_heading_level_is_taken_first() {
    let html = inject("<h3>c</h3><h1>a</h1>", "", &PageContext::default(), "[<!--MAST-HEADING-->]<!--MAST-CONTENT-->", false, &wiki());
    assert_eq!(html, "[<h1>a</h1>]<h3>c</h3>");
    let html = inject("<h1>a<h2>b</h2>", "", &PageContext::default(), "[<!--MAST-HEADING-->]<!--MAST-CONTENT-->", false, &wiki());
    assert_eq!(html, "[<h2>b</h2>]<h1>a");
}

#[test]
fn toc_markers_order() {
    assert!(toc_markers_ordered("a<!--MAST-TOC-CONTENT-->b<!--/MAST-TOC-CONTENT-->"));
    assert!(toc_markers_ordered("no markers"));
    assert!(toc_markers_ordered("<!--/MAST-TOC-CONTENT--> only the end"));
    assert!(!toc_markers_ordered("<!--/MAST-TOC-CONTENT--><!--MAST-TOC-CONTENT-->"));
}

#[test]
fn template_values() {
    let vars = template_vars(&PageContext::default(), false, &wiki());
    assert_eq!(
        vars,
        vec![("WIKINAME", "Mast".to_string()), ("AUTH", "<li><a href=\"/signin\">Log in</a></li>".to_string())]
    );
    let ctx = PageContext { username: Some("bo".to_string()) };
    let vars = template_vars(&ctx, true, &wiki());
    assert_eq!(
        vars,
        vec![
            ("WIKINAME", "W".to_string()),
            ("HOME", "/wiki/home".to_string()),
            ("MAST_FOOTER", "Powered by Mast".to_string()),
            ("AUTH", "<li><a href=\"/user/bo\">Account</a></li>".to_string()),
        ]
    );
    assert_eq!(home_path(&wiki()), "/wiki/home");
}

#[test]
fn sign_in_entry() {
    assert_eq!(auth_markup(None), "<li><a href=\"/signin\">Log in</a></li>");
    assert_eq!(auth_markup(Some("x")), "<li><a href=\"/user/x\">Account</a></li>");
}

#[test]
fn status_lines() {
    assert_eq!(
        status_markup("update", 0, "New version"),
        r#"<div class="inline-grid *:[grid-area:1/1]">
               <div class="status status-info animate-ping"></div>
               <div class="status status-info"></div>
               </div> New version"#
    );
    assert_eq!(
        status_markup("warning", 3, ""),
        r#"<div class="inline-grid *:[grid-area:1/1]">\
               <div class="status status-warning animate-ping"></div>\
               <div class="status status-warning"></div>\
               </div> 3 warning(s) — <a href="/admin/logs" class="link">open logs</a>"#
    );
    assert_eq!(
        status_markup("error", 12, ""),
        r#"<div class="inline-grid *:[grid-area:1/1]">\
               <div class="status status-error animate-ping"></div>\
               <div class="status status-error"></div>\
               </div> 12 error(s) — <a href="/admin/logs" class="link">open logs</a>"#
    );
    assert_eq!(
        status_markup("operational", 0, "ignored"),
        r#"<div class="inline-grid *:[grid-area:1/1]">
               <div class="status status-success animate-ping"></div>
               <div class="status status-success"></div>
               </div> Wiki is operational"#
    );
}

#[test]
fn includes() {
    let shell = "a<!--MAST_INCLUDE:../na\\v/x.y-->b<!--MAST_INCLUDE:foot-->";
    assert_eq!(next_include_name(shell), Some("navxy".to_string()));
    let once = splice_include(shell, "N");
    assert_eq!(once, "aNb<!--MAST_INCLUDE:foot-->");
    assert_eq!(next_include_name(&once), Some("foot".to_string()));
    assert_eq!(splice_include(&once, "F"), "aNbF");
    assert_eq!(next_include_name("a<!--MAST_INCLUDE:open"), None);
    assert_eq!(splice_include("a<!--MAST_INCLUDE:open", "x"), "a<!--MAST_INCLUDE:open");
    assert_eq!(next_include_name("plain"), None);
}

#[test]
fn raw_page_answers() {
    let r = raw_page_response(Some(("text".to_string(), "123".to_string())));
    assert_eq!((r.content.as_str(), r.sha.as_str(), r.status), ("text", "123", 200));
    let r = raw_page_response(None);
    assert_eq!((r.content.as_str(), r.sha.as_str(), r.status), ("", "", 404));
}

#[test]
fn user_pages() {
    let names = vec!["Alice".to_string(), "bob".to_string(), "ALICE".to_string()];
    assert_eq!(user_page_name(&names, "alice"), Some("Alice".to_string()));
    assert_eq!(user_page_name(&names, "BOB"), Some("bob".to_string()));
    assert_eq!(user_page_name(&names, "carol"), None);
    assert_eq!(user_page_scope("bob"), "/user/bob");
    assert_eq!(
        default_user_page("bob"),
        "<h1>bob</h1>\n\n<p>This is bob's page. Save the page <code>user/bob</code> to customise it.</p>"
    );
}
