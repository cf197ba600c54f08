//! The settings form of the admin pages: how each configuration value is
//! shown as a form control, how the sections are laid out, and how a
//! submitted form value replaces the current one.

use vstd::prelude::*;
use vstd::string::*;
use crate::chars::{str_chars, chars_to_string, trim};
use crate::pages::{replace_all, spec_replace};
use crate::renderer::trim_bounds;
use crate::renderer::{all_ascii_digits, digits_value, is_ascii_digit};
use crate::text::{decimal, digit_char, push_str};

verus! {

/// A configuration value as the settings form sees it: a flag, a number
/// (its decimal text, and whether it is not an integer), a list (`None`
/// for an entry that is not text), or anything else (its text, if it is
/// text).
#[derive(Debug, Clone)]
pub enum FieldValue {
    Bool(bool),
    Number { text: String, is_float: bool },
    Array(Vec<Option<String>>),
    Text(Option<String>),
}

/// A field of a settings section, as listed for the form.
#[derive(Debug, Clone)]
pub struct FormField {
    pub key: Option<String>,
    pub label: Option<String>,
    pub description: Option<String>,
    pub value: FieldValue,
}

/// A settings section, as listed for the form.
#[derive(Debug, Clone)]
pub struct FormSection {
    pub label: Option<String>,
    pub fields: Option<Vec<FormField>>,
}

pub open spec fn text_or_empty(o: Option<String>) -> Seq<char> {
    match o {
        Some(s) => s@,
        None => Seq::empty(),
    }
}

/// The texts of a list, in order, skipping entries that are not text.
pub open spec fn texts_of(arr: Seq<Option<String>>) -> Seq<Seq<char>>
    decreases arr.len(),
{
    if arr.len() == 0 {
        Seq::empty()
    } else {
        let init = texts_of(arr.drop_last());
        match arr.last() {
            Some(s) => init.push(s@),
            None => init,
        }
    }
}

/// Texts joined by `sep`.
pub open spec fn joined(ws: Seq<Seq<char>>, sep: Seq<char>) -> Seq<char>
    decreases ws.len(),
{
    if ws.len() == 0 {
        Seq::empty()
    } else if ws.len() == 1 {
        ws[0]
    } else {
        joined(ws.drop_last(), sep) + sep + ws.last()
    }
}

/// The form control of a value named `key`, with id `id`.
pub open spec fn spec_control(key: Seq<char>, id: Seq<char>, value: FieldValue) -> Seq<char> {
    match value {
        FieldValue::Bool(b) => "<input type=\"checkbox\" name=\""@ + key + "\" id=\""@ + id + "\" class=\"toggle\" "@ + (if b { "checked"@ } else { Seq::empty() }) + " />"@,
        FieldValue::Number { text, is_float } => "<input type=\"number\" name=\""@ + key + "\" id=\""@ + id + "\" value=\""@ + text@ + "\" class=\"input input-bordered w-full\" />"@,
        FieldValue::Array(arr) => "<textarea name=\""@ + key + "\" id=\""@ + id + "\" class=\"textarea textarea-bordered w-full\">"@ + joined(texts_of(arr@), ", "@) + "</textarea>"@,
        FieldValue::Text(v) => "<input type=\"text\" name=\""@ + key + "\" id=\""@ + id + "\" value=\""@ + text_or_empty(v) + "\" class=\"input input-bordered w-full\" />"@,
    }
}

/// A labelled, described form control.
pub open spec fn spec_render_field(key: Seq<char>, label: Seq<char>, desc: Seq<char>, value: FieldValue) -> Seq<char> {
    let id = "cfg-"@ + key;
    "<div class=\"form-control mb-3\">\n            <label for=\""@ + id + "\" class=\"label\"><span class=\"label-text font-medium\">"@ + label + "</span></label>\n            <p class=\"text-sm opacity-60 mb-1\">"@ + desc + "</p>\n            "@ + spec_control(key, id, value) + "\n        </div>"@
}

/// The texts of a list joined by `, `.
fn join_texts(arr: &Vec<Option<String>>) -> (r: String)
    ensures
        r@ == joined(texts_of(arr@), ", "@),
{
    let mut r = String::new();
    let mut any = false;
    let mut i: usize = 0;
    while i < arr.len()
        invariant
            i <= arr@.len(),
            any == (texts_of(arr@.subrange(0, i as int)).len() > 0),
            r@ == joined(texts_of(arr@.subrange(0, i as int)), ", "@),
        decreases arr@.len() - i,
    {
        let ghost before = texts_of(arr@.subrange(0, i as int));
        proof {
            assert(arr@.subrange(0, i + 1).drop_last() =~= arr@.subrange(0, i as int));
        }
        match &arr[i] {
            Some(s) => {
                if any {
                    push_str(&mut r, ", ");
                }
                r.append(s.as_str());
                any = true;
                proof {
                    let now = texts_of(arr@.subrange(0, i + 1));
                    assert(now == before.push(s@));
                    assert(now.drop_last() =~= before);
                    if before.len() == 0 {
                        assert(r@ =~= joined(now, ", "@));
                    } else {
                        assert(r@ =~= joined(now, ", "@));
                    }
                }
            },
            None => {},
        }
        i = i + 1;
    }
    proof {
        assert(arr@.subrange(0, i as int) =~= arr@);
    }
    r
}

/// The form control of a value.
fn control(key: &str, id: &str, value: &FieldValue) -> (r: String)
    ensures
        r@ == spec_control(key@, id@, *value),
{
    let mut r = String::new();
    match value {
        FieldValue::Bool(b) => {
            push_str(&mut r, "<input type=\"checkbox\" name=\"");
            push_str(&mut r, key);
            push_str(&mut r, "\" id=\"");
            push_str(&mut r, id);
            push_str(&mut r, "\" class=\"toggle\" ");
            if *b {
                push_str(&mut r, "checked");
            }
            push_str(&mut r, " />");
        },
        FieldValue::Number { text, is_float: _ } => {
            push_str(&mut r, "<input type=\"number\" name=\"");
            push_str(&mut r, key);
            push_str(&mut r, "\" id=\"");
            push_str(&mut r, id);
            push_str(&mut r, "\" value=\"");
            push_str(&mut r, text.as_str());
            push_str(&mut r, "\" class=\"input input-bordered w-full\" />");
        },
        FieldValue::Array(arr) => {
            push_str(&mut r, "<textarea name=\"");
            push_str(&mut r, key);
            push_str(&mut r, "\" id=\"");
            push_str(&mut r, id);
            push_str(&mut r, "\" class=\"textarea textarea-bordered w-full\">");
            let csv = join_texts(arr);
            r.append(csv.as_str());
            push_str(&mut r, "</textarea>");
        },
        FieldValue::Text(v) => {
            push_str(&mut r, "<input type=\"text\" name=\"");
            push_str(&mut r, key);
            push_str(&mut r, "\" id=\"");
            push_str(&mut r, id);
            push_str(&mut r, "\" value=\"");
            match v {
                Some(s) => push_str(&mut r, s.as_str()),
                None => {},
            }
            push_str(&mut r, "\" class=\"input input-bordered w-full\" />");
        },
    }
    proof {
        assert(r@ =~= spec_control(key@, id@, *value));
    }
    r
}

/// A labelled, described form control for the value named `key`.
pub fn render_field(key: &str, label: &str, desc: &str, value: &FieldValue) -> (r: String)
    ensures
        r@ == spec_render_field(key@, label@, desc@, *value),
{
    let mut id = String::new();
    push_str(&mut id, "cfg-");
    push_str(&mut id, key);
    let input = control(key, id.as_str(), value);
    let mut r = String::new();
    push_str(&mut r, "<div class=\"form-control mb-3\">\n            <label for=\"");
    push_str(&mut r, id.as_str());
    push_str(&mut r, "\" class=\"label\"><span class=\"label-text font-medium\">");
    push_str(&mut r, label);
    push_str(&mut r, "</span></label>\n            <p class=\"text-sm opacity-60 mb-1\">");
    push_str(&mut r, desc);
    push_str(&mut r, "</p>\n            ");
    r.append(input.as_str());
    push_str(&mut r, "\n        </div>");
    proof {
        assert(r@ =~= spec_render_field(key@, label@, desc@, *value));
    }
    r
}

/// The controls of a section's fields, one per line.
pub open spec fn fields_html(fs: Seq<FormField>) -> Seq<char>
    decreases fs.len(),
{
    if fs.len() == 0 {
        Seq::empty()
    } else {
        let f = fs.last();
        let one = spec_render_field(text_or_empty(f.key), text_or_empty(f.label), text_or_empty(f.description), f.value);
        if fs.len() == 1 {
            one
        } else {
            fields_html(fs.drop_last()) + seq!['\n'] + one
        }
    }
}

/// The card of a section: its title and its fields.
pub open spec fn spec_section_card(s: FormSection) -> Seq<char> {
    let fields = match s.fields {
        Some(v) => fields_html(v@),
        None => Seq::empty(),
    };
    "<div class=\"card bg-base-100 shadow-sm\">\n                <div class=\"card-body\">\n                    <h2 class=\"card-title\">"@ + text_or_empty(s.label) + "</h2>\n                    "@ + fields + "\n                </div>\n            </div>"@
}

/// The cards of the sections, one per line.
pub open spec fn cards_html(ss: Seq<FormSection>) -> Seq<char>
    decreases ss.len(),
{
    if ss.len() == 0 {
        Seq::empty()
    } else if ss.len() == 1 {
        spec_section_card(ss[0])
    } else {
        cards_html(ss.drop_last()) + seq!['\n'] + spec_section_card(ss.last())
    }
}

/// The marker of the settings sections in the admin page.
pub open spec fn sections_marker() -> Seq<char> {
    "<!--MAST_CONFIG_SECTIONS-->"@
}

fn render_fields(fs: &Vec<FormField>) -> (r: String)
    ensures
        r@ == fields_html(fs@),
{
    let mut r = String::new();
    let mut i: usize = 0;
    while i < fs.len()
        invariant
            i <= fs@.len(),
            r@ == fields_html(fs@.subrange(0, i as int)),
        decreases fs@.len() - i,
    {
        let f = &fs[i];
        let key = match &f.key { Some(k) => k.as_str(), None => "" };
        let label = match &f.label { Some(k) => k.as_str(), None => "" };
        let desc = match &f.description { Some(k) => k.as_str(), None => "" };
        proof {
            reveal_strlit("");
            assert(fs@.subrange(0, i + 1).drop_last() =~= fs@.subrange(0, i as int));
            assert(fs@.subrange(0, i + 1).last() == *f);
        }
        let one = render_field(key, label, desc, &f.value);
        if i > 0 {
            push_str(&mut r, "\n");
            proof {
                reveal_strlit("\n");
            }
        }
        r.append(one.as_str());
        proof {
            if i == 0 {
                assert(r@ =~= fields_html(fs@.subrange(0, 1)));
            } else {
                assert(r@ =~= fields_html(fs@.subrange(0, i + 1)));
            }
        }
        i = i + 1;
    }
    proof {
        assert(fs@.subrange(0, i as int) =~= fs@);
    }
    r
}

fn render_section(s: &FormSection) -> (r: String)
    ensures
        r@ == spec_section_card(*s),
{
    let fields = match &s.fields {
        Some(v) => render_fields(v),
        None => String::new(),
    };
    let mut r = String::new();
    push_str(&mut r, "<div class=\"card bg-base-100 shadow-sm\">\n                <div class=\"card-body\">\n                    <h2 class=\"card-title\">");
    match &s.label {
        Some(l) => push_str(&mut r, l.as_str()),
        None => {},
    }
    push_str(&mut r, "</h2>\n                    ");
    r.append(fields.as_str());
    push_str(&mut r, "\n                </div>\n            </div>");
    proof {
        assert(r@ =~= spec_section_card(*s));
    }
    r
}

/// The admin page `content` with its sections marker replaced by the
/// cards of `sections`.
pub fn render_config_form(content: &str, sections: &Vec<FormSection>) -> (r: String)
    ensures
        r@ == spec_replace(content@, sections_marker(), cards_html(sections@)),
{
    let mut html = String::new();
    let mut i: usize = 0;
    while i < sections.len()
        invariant
            i <= sections@.len(),
            html@ == cards_html(sections@.subrange(0, i as int)),
        decreases sections@.len() - i,
    {
        proof {
            assert(sections@.subrange(0, i + 1).drop_last() =~= sections@.subrange(0, i as int));
            assert(sections@.subrange(0, i + 1).last() == sections@[i as int]);
        }
        let card = render_section(&sections[i]);
        if i > 0 {
            push_str(&mut html, "\n");
            proof {
                reveal_strlit("\n");
            }
        }
        html.append(card.as_str());
        proof {
            if i == 0 {
                assert(html@ =~= cards_html(sections@.subrange(0, 1)));
            } else {
                assert(html@ =~= cards_html(sections@.subrange(0, i + 1)));
            }
        }
        i = i + 1;
    }
    proof {
        assert(sections@.subrange(0, i as int) =~= sections@);
        reveal_strlit("<!--MAST_CONFIG_SECTIONS-->");
    }
    replace_all(content, "<!--MAST_CONFIG_SECTIONS-->", html.as_str())
}

/// The alert listing the problems of a submitted configuration.
pub fn errors_html(errors: &Vec<String>) -> (r: String)
    ensures
        r@ == "<div class=\"alert alert-error mb-4\">"@ + errors_list(errors@) + "</div>"@,
{
    let mut body = String::new();
    let mut i: usize = 0;
    while i < errors.len()
        invariant
            i <= errors@.len(),
            body@ == errors_list(errors@.subrange(0, i as int)),
        decreases errors@.len() - i,
    {
        proof {
            assert(errors@.subrange(0, i + 1).drop_last() =~= errors@.subrange(0, i as int));
        }
        push_str(&mut body, "<p>");
        push_str(&mut body, errors[i].as_str());
        push_str(&mut body, "</p>");
        proof {
            assert(body@ =~= errors_list(errors@.subrange(0, i + 1)));
        }
        i = i + 1;
    }
    proof {
        assert(errors@.subrange(0, i as int) =~= errors@);
    }
    let mut r = String::new();
    push_str(&mut r, "<div class=\"alert alert-error mb-4\">");
    r.append(body.as_str());
    push_str(&mut r, "</div>");
    r
}

/// Each problem as a paragraph.
pub open spec fn errors_list(errors: Seq<String>) -> Seq<char>
    decreases errors.len(),
{
    if errors.len() == 0 {
        Seq::empty()
    } else {
        errors_list(errors.drop_last()) + "<p>"@ + errors.last()@ + "</p>"@
    }
}

/// Where a card starts.
pub open spec fn card_start() -> Seq<char> {
    "<div class=\"card bg-base-100 shadow-sm\">"@
}

/// The note that the configuration was saved.
pub open spec fn saved_note() -> Seq<char> {
    "<div class=\"alert alert-success mb-4\">Configuration saved. Restart the server to apply changes.</div>"@
}

/// The form with the saved note before each card.
pub fn with_saved_note(rendered: &str) -> (r: String)
    ensures
        r@ == spec_replace(rendered@, card_start(), saved_note() + card_start()),
{
    let mut w = String::new();
    push_str(&mut w, "<div class=\"alert alert-success mb-4\">Configuration saved. Restart the server to apply changes.</div>");
    push_str(&mut w, "<div class=\"card bg-base-100 shadow-sm\">");
    proof {
        reveal_strlit("<div class=\"card bg-base-100 shadow-sm\">");
    }
    replace_all(rendered, "<div class=\"card bg-base-100 shadow-sm\">", w.as_str())
}

/// The settings page after a submitted configuration was checked: not
/// found (404) for a requester who is not sudo; with `errors`, the admin
/// page `content` whose sections marker is replaced by the alert listing
/// them, then the cards of `sections` put in place of the marker (which
/// is gone by then); without, the cards of `sections` in place of the
/// marker and the saved note before each card.
pub fn config_manage_page(is_sudo: bool, content: &str, errors: &Vec<String>, sections: &Vec<FormSection>) -> (r: Result<String, u16>)
    ensures
        !is_sudo ==> r == Err::<String, u16>(404),
        is_sudo && errors@.len() > 0 ==> (r matches Ok(p) && p@ == spec_replace(
            spec_replace(content@, sections_marker(), "<div class=\"alert alert-error mb-4\">"@ + errors_list(errors@) + "</div>"@),
            sections_marker(),
            cards_html(sections@),
        )),
        is_sudo && errors@.len() == 0 ==> (r matches Ok(p) && p@ == spec_replace(
            spec_replace(content@, sections_marker(), cards_html(sections@)),
            card_start(),
            saved_note() + card_start(),
        )),
{
    if !is_sudo {
        return Err(404);
    }
    if errors.len() > 0 {
        let alert = errors_html(errors);
        proof {
            reveal_strlit("<!--MAST_CONFIG_SECTIONS-->");
        }
        let with_errors = replace_all(content, "<!--MAST_CONFIG_SECTIONS-->", alert.as_str());
        Ok(render_config_form(with_errors.as_str(), sections))
    } else {
        let rendered = render_config_form(content, sections);
        Ok(with_saved_note(rendered.as_str()))
    }
}

/// A submitted form key `section.field` split at its first `.`.
pub open spec fn spec_split_key(flat: Seq<char>) -> Option<(Seq<char>, Seq<char>)> {
    match crate::auth::first_index(flat, '.', 0) {
        Some(i) => Some((flat.subrange(0, i), flat.subrange(i + 1, flat.len() as int))),
        None => None,
    }
}

/// The section and the field of a submitted form key.
pub fn split_flat_key(flat: &str) -> (r: Option<(String, String)>)
    ensures
        match spec_split_key(flat@) {
            Some((a, b)) => r matches Some(p) && p.0@ == a && p.1@ == b,
            None => r is None,
        },
{
    let cs = str_chars(flat);
    let mut i: usize = 0;
    while i < cs.len()
        invariant
            i <= cs@.len(),
            cs@ == flat@,
            crate::auth::first_index(cs@, '.', 0) == crate::auth::first_index(cs@, '.', i as int),
        decreases cs@.len() - i,
    {
        if cs[i] == '.' {
            return Some((chars_to_string(&cs, 0, i), chars_to_string(&cs, i + 1, cs.len())));
        }
        i = i + 1;
    }
    None
}

/// The pieces of `s` between commas, each trimmed.
pub open spec fn comma_pieces(s: Seq<char>, k: int) -> Seq<Seq<char>>
    decreases s.len() - k,
{
    if k < 0 || k > s.len() {
        Seq::empty()
    } else {
        match crate::auth::first_index(s, ',', k) {
            Some(i) => {
                proof {
                    lemma_first_index_bounds(s, ',', k);
                }
                seq![trim(s.subrange(k, i))] + comma_pieces(s, i + 1)
            },
            None => seq![trim(s.subrange(k, s.len() as int))],
        }
    }
}

pub proof fn lemma_first_index_bounds(s: Seq<char>, c: char, k: int)
    requires
        0 <= k,
    ensures
        crate::auth::first_index(s, c, k) matches Some(i) ==> k <= i < s.len() && s[i] == c
            && forall|j: int| k <= j < i ==> s[j] != c,
        crate::auth::first_index(s, c, k) is None ==> forall|j: int| k <= j < s.len() ==> s[j] != c,
    decreases s.len() - k,
{
    if 0 <= k < s.len() && s[k] != c {
        lemma_first_index_bounds(s, c, k + 1);
    }
}

/// The integer a text spells: an optional sign and at least one decimal
/// digit, within the range of `i64` (std's `i64` parsing).
pub open spec fn parse_i64(s: Seq<char>) -> Option<int> {
    let neg = s.len() > 0 && s[0] == '-';
    let d = if s.len() > 0 && (s[0] == '-' || s[0] == '+') { s.drop_first() } else { s };
    if d.len() == 0 || !all_ascii_digits(d) {
        None
    } else {
        let v = if neg { -digits_value(d) } else { digits_value(d) };
        if v < i64::MIN || v > i64::MAX { None } else { Some(v) }
    }
}

/// The decimal text of an integer.
pub open spec fn int_text(v: int) -> Seq<char> {
    if v < 0 { seq!['-'] + decimal((-v) as nat) } else { decimal(v as nat) }
}

/// The value a submitted text gives a field that holds `current`: a flag
/// is set by `on`; an integer is read from the text (kept when it does not
/// read); a list is the trimmed pieces between commas; anything else
/// becomes the text. `None` for a number that is not an integer, which is
/// read as a floating-point number by the caller.
pub open spec fn spec_form_value(current: FieldValue, raw: Seq<char>) -> Option<(FieldKind, Seq<Seq<char>>)> {
    match current {
        FieldValue::Bool(_) => Some((FieldKind::Flag(raw == "on"@), Seq::empty())),
        FieldValue::Number { text, is_float } => if is_float {
            None
        } else {
            match parse_i64(raw) {
                Some(v) => Some((FieldKind::Number(int_text(v)), Seq::empty())),
                None => Some((FieldKind::Number(text@), Seq::empty())),
            }
        },
        FieldValue::Array(_) => Some((FieldKind::List, comma_pieces(raw, 0))),
        FieldValue::Text(_) => Some((FieldKind::Text(raw), Seq::empty())),
    }
}

/// The kind and content of a form value, as the specification states it.
pub enum FieldKind {
    Flag(bool),
    Number(Seq<char>),
    List,
    Text(Seq<char>),
}

/// What a form value is, in the terms of `spec_form_value`.
pub open spec fn value_kind(v: FieldValue) -> (FieldKind, Seq<Seq<char>>) {
    match v {
        FieldValue::Bool(b) => (FieldKind::Flag(b), Seq::empty()),
        FieldValue::Number { text, is_float: _ } => (FieldKind::Number(text@), Seq::empty()),
        FieldValue::Array(a) => (FieldKind::List, texts_of(a@)),
        FieldValue::Text(t) => (FieldKind::Text(text_or_empty(t)), Seq::empty()),
    }
}

/// The value a submitted text gives a field holding `current`.
pub fn form_value(current: &FieldValue, raw: &str) -> (r: Option<FieldValue>)
    ensures
        match spec_form_value(*current, raw@) {
            Some(k) => r matches Some(v) && value_kind(v) == k && !(v matches FieldValue::Number { is_float: true, .. })
                && (v matches FieldValue::Array(a) ==> forall|i: int| 0 <= i < a@.len() ==> a@[i] is Some)
                && (v matches FieldValue::Text(t) ==> t is Some),
            None => r is None,
        },
{
    match current {
        FieldValue::Bool(_) => Some(FieldValue::Bool(crate::chars::str_eq(raw, "on"))),
        FieldValue::Number { text, is_float } => {
            if *is_float {
                return None;
            }
            match parse_i64_str(raw) {
                Some(v) => Some(FieldValue::Number { text: i64_text(v), is_float: false }),
                None => Some(FieldValue::Number { text: text.clone(), is_float: false }),
            }
        },
        FieldValue::Array(_) => {
            let pieces = comma_pieces_vec(raw);
            Some(FieldValue::Array(pieces))
        },
        FieldValue::Text(_) => Some(FieldValue::Text(Some(raw.to_owned()))),
    }
}

/// The trimmed pieces of `raw` between commas.
fn comma_pieces_vec(raw: &str) -> (r: Vec<Option<String>>)
    ensures
        texts_of(r@) == comma_pieces(raw@, 0),
        forall|i: int| 0 <= i < r@.len() ==> r@[i] is Some,
{
    let cs = str_chars(raw);
    let n = cs.len();
    let mut r: Vec<Option<String>> = Vec::new();
    let mut k: usize = 0;
    loop
        invariant
            k <= n,
            n == cs@.len(),
            cs@ == raw@,
            texts_of(r@) + comma_pieces(cs@, k as int) == comma_pieces(cs@, 0),
            forall|i: int| 0 <= i < r@.len() ==> r@[i] is Some,
        decreases n - k,
    {
        let mut i = k;
        while i < n && cs[i] != ','
            invariant
                k <= i <= n,
                n == cs@.len(),
                crate::auth::first_index(cs@, ',', k as int) == crate::auth::first_index(cs@, ',', i as int),
            decreases n - i,
        {
            i = i + 1;
        }
        let (a, b) = trim_bounds(&cs, k, i);
        let piece = chars_to_string(&cs, a, b);
        let ghost before = r@;
        r.push(Some(piece));
        proof {
            assert(r@.drop_last() =~= before);
            assert(texts_of(r@) == texts_of(before).push(piece@));
        }
        if i >= n {
            proof {
                assert(comma_pieces(cs@, k as int) == seq![trim(cs@.subrange(k as int, n as int))]);
                assert(texts_of(r@) =~= texts_of(before) + comma_pieces(cs@, k as int));
            }
            return r;
        }
        proof {
            lemma_first_index_bounds(cs@, ',', k as int);
            assert(comma_pieces(cs@, k as int) == seq![trim(cs@.subrange(k as int, i as int))] + comma_pieces(cs@, i + 1));
            assert(texts_of(r@) + comma_pieces(cs@, i + 1) =~= texts_of(before) + comma_pieces(cs@, k as int));
        }
        k = i + 1;
    }
}

/// std's `str::parse::<i64>`.
fn parse_i64_str(s: &str) -> (r: Option<i64>)
    ensures
        match parse_i64(s@) {
            Some(v) => r == Some(v as i64) && r->0 as int == v,
            None => r is None,
        },
{
    let cs = str_chars(s);
    let neg = cs.len() > 0 && cs[0] == '-';
    let start: usize = if cs.len() > 0 && (cs[0] == '-' || cs[0] == '+') { 1 } else { 0 };
    let ghost d = if s@.len() > 0 && (s@[0] == '-' || s@[0] == '+') { s@.drop_first() } else { s@ };
    proof {
        assert(d =~= cs@.subrange(start as int, cs@.len() as int));
    }
    if start >= cs.len() {
        proof {
            assert(d.len() == 0);
        }
        return None;
    }
    let mut k = start;
    while k < cs.len()
        invariant
            start <= k <= cs@.len(),
            cs@ == s@,
            d == (if s@.len() > 0 && (s@[0] == '-' || s@[0] == '+') { s@.drop_first() } else { s@ }),
            d == cs@.subrange(start as int, cs@.len() as int),
            forall|j: int| start <= j < k ==> is_ascii_digit(#[trigger] cs@[j]),
        decreases cs@.len() - k,
    {
        if !('0' <= cs[k] && cs[k] <= '9') {
            proof {
                assert(d[k - start] == cs@[k as int]);
                assert(!all_ascii_digits(d));
            }
            return None;
        }
        k = k + 1;
    }
    proof {
        assert forall|j: int| 0 <= j < d.len() implies is_ascii_digit(#[trigger] d[j]) by {
            assert(d[j] == cs@[j + start]);
        }
    }
    // the magnitude, capped just above the largest one that fits
    let cap: u64 = 9223372036854775808;
    let mut v: u64 = 0;
    let mut i = start;
    while i < cs.len()
        invariant
            start <= i <= cs@.len(),
            d == cs@.subrange(start as int, cs@.len() as int),
            all_ascii_digits(d),
            cap == 9223372036854775808,
            v == (if digits_value(d.subrange(0, i - start)) > cap { cap + 1 } else { digits_value(d.subrange(0, i - start)) }),
        decreases cs@.len() - i,
    {
        let c = cs[i];
        let ghost p = d.subrange(0, i - start);
        let ghost dp = d.subrange(0, i - start + 1);
        proof {
            assert(d[i - start] == c);
            assert(dp.drop_last() =~= p);
            assert(dp.last() == c);
            assert(forall|q: int| 0 <= q < p.len() ==> p[q] == d[q]);
            lemma_digits_nonneg(p);
            let pv = digits_value(p);
            if pv > cap {
                assert(pv * 10 > cap) by (nonlinear_arith)
                    requires
                        pv > cap,
                ;
            }
        }
        let digit = (c as u64) - ('0' as u64);
        if v > cap {
            v = cap + 1;
        } else {
            if v > (cap + 1 - digit) / 10 {
                proof {
                    assert(v * 10 + digit > cap) by (nonlinear_arith)
                        requires
                            v > (cap + 1 - digit) / 10,
                            digit <= 9,
                    ;
                }
                v = cap + 1;
            } else {
                proof {
                    assert(v * 10 + digit <= cap + 1) by (nonlinear_arith)
                        requires
                            v <= (cap + 1 - digit) / 10,
                            digit <= 9,
                    ;
                }
                let nv = v * 10 + digit;
                v = if nv > cap { cap + 1 } else { nv };
            }
        }
        i = i + 1;
    }
    proof {
        assert(d.subrange(0, i - start) =~= d);
    }
    if neg {
        if v > cap {
            None
        } else if v == cap {
            Some(i64::MIN)
        } else {
            Some(-(v as i64))
        }
    } else {
        if v >= cap {
            None
        } else {
            Some(v as i64)
        }
    }
}

proof fn lemma_digits_nonneg(d: Seq<char>)
    requires
        forall|i: int| 0 <= i < d.len() ==> is_ascii_digit(#[trigger] d[i]),
    ensures
        digits_value(d) >= 0,
    decreases d.len(),
{
    if d.len() > 0 {
        assert(forall|i: int| 0 <= i < d.drop_last().len() ==> d.drop_last()[i] == d[i]);
        lemma_digits_nonneg(d.drop_last());
    }
}

/// The decimal text of an integer.
fn i64_text(v: i64) -> (r: String)
    ensures
        r@ == int_text(v as int),
{
    let mut r = String::new();
    let m: u64 = if v < 0 {
        if v == i64::MIN { 9223372036854775808 } else { (-v) as u64 }
    } else {
        v as u64
    };
    if v < 0 {
        crate::text::push_char(&mut r, '-');
    }
    push_decimal_u64(&mut r, m);
    proof {
        assert(r@ =~= int_text(v as int));
    }
    r
}

/// Appends the decimal numeral of `n`.
fn push_decimal_u64(s: &mut String, n: u64)
    ensures
        final(s)@ == old(s)@ + decimal(n as nat),
    decreases n,
{
    if n >= 10 {
        push_decimal_u64(s, n / 10);
    }
    let d = n % 10;
    let c = if d == 0 { '0' }
        else if d == 1 { '1' }
        else if d == 2 { '2' }
        else if d == 3 { '3' }
        else if d == 4 { '4' }
        else if d == 5 { '5' }
        else if d == 6 { '6' }
        else if d == 7 { '7' }
        else if d == 8 { '8' }
        else { '9' };
    crate::text::push_char(s, c);
    proof {
        if n >= 10 {
            assert(decimal(n as nat) == decimal((n / 10) as nat).push(digit_char((n % 10) as nat)));
        }
    }
}

} // verus!
