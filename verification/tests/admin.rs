use mast::admin::{
    config_manage_page, errors_html, form_value, render_config_form, render_field, split_flat_key, with_saved_note, FieldValue, FormField,
    FormSection,
};

fn field(key: &str, value: FieldValue) -> FormField {
    FormField { key: Some(key.to_string()), label: Some("L".to_string()), description: Some("D".to_string()), value }
}

#[test]
fn controls() {
    assert_eq!(
        render_field("basic.name", "Name", "The wiki's name", &FieldValue::Text(Some("W".to_string()))),
        "<div class=\"form-control mb-3\">\n            <label for=\"cfg-basic.name\" class=\"label\"><span class=\"label-text font-medium\">Name</span></label>\n            <p class=\"text-sm opacity-60 mb-1\">The wiki's name</p>\n            <input type=\"text\" name=\"basic.name\" id=\"cfg-basic.name\" value=\"W\" class=\"input input-bordered w-full\" />\n        </div>"
    );
    let f = render_field("k", "l", "d", &FieldValue::Bool(true));
    assert!(f.contains("<input type=\"checkbox\" name=\"k\" id=\"cfg-k\" class=\"toggle\" checked />"));
    let f = render_field("k", "l", "d", &FieldValue::Bool(false));
    assert!(f.contains("<input type=\"checkbox\" name=\"k\" id=\"cfg-k\" class=\"toggle\"  />"));
    let f = render_field("k", "l", "d", &FieldValue::Number { text: "42".to_string(), is_float: false });
    assert!(f.contains("<input type=\"number\" name=\"k\" id=\"cfg-k\" value=\"42\" class=\"input input-bordered w-full\" />"));
    let f = render_field("k", "l", "d", &FieldValue::Array(vec![Some("a".to_string()), None, Some("b".to_string())]));
    assert!(f.contains("<textarea name=\"k\" id=\"cfg-k\" class=\"textarea textarea-bordered w-full\">a, b</textarea>"));
    let f = render_field("k", "l", "d", &FieldValue::Text(None));
    assert!(f.contains("value=\"\" class"));
}

#[test]
fn sections_form() {
    let sections = vec![
        FormSection { label: Some("Basic".to_string()), fields: Some(vec![field("a", FieldValue::Bool(true))]) },
        FormSection { label: None, fields: None },
    ];
    let page = render_config_form("<main><!--MAST_CONFIG_SECTIONS--></main>", &sections);
    let first = format!(
        "<div class=\"card bg-base-100 shadow-sm\">\n                <div class=\"card-body\">\n                    <h2 class=\"card-title\">Basic</h2>\n                    {}\n                </div>\n            </div>",
        render_field("a", "L", "D", &FieldValue::Bool(true))
    );
    let second = "<div class=\"card bg-base-100 shadow-sm\">\n                <div class=\"card-body\">\n                    <h2 class=\"card-title\"></h2>\n                    \n                </div>\n            </div>";
    assert_eq!(page, format!("<main>{}\n{}</main>", first, second));
    let saved = with_saved_note(&page);
    assert_eq!(saved.matches("<div class=\"alert alert-success mb-4\">Configuration saved. Restart the server to apply changes.</div><div class=\"card bg-base-100 shadow-sm\">").count(), 2);
}

#[test]
fn error_alert() {
    assert_eq!(
        errors_html(&vec!["one".to_string(), "two".to_string()]),
        "<div class=\"alert alert-error mb-4\"><p>one</p><p>two</p></div>"
    );
    assert_eq!(errors_html(&Vec::new()), "<div class=\"alert alert-error mb-4\"></div>");
}

#[test]
fn flat_keys() {
    assert_eq!(split_flat_key("basic.name"), Some(("basic".to_string(), "name".to_string())));
    assert_eq!(split_flat_key("a.b.c"), Some(("a".to_string(), "b.c".to_string())));
    assert_eq!(split_flat_key("plain"), None);
}

fn number_text(v: Option<FieldValue>) -> Option<String> {
    match v {
        Some(FieldValue::Number { text, is_float }) => {
            assert!(!is_float);
            Some(text)
        }
        _ => None,
    }
}

#[test]
fn submitted_values() {
    assert!(matches!(form_value(&FieldValue::Bool(false), "on"), Some(FieldValue::Bool(true))));
    assert!(matches!(form_value(&FieldValue::Bool(true), "off"), Some(FieldValue::Bool(false))));
    let n = FieldValue::Number { text: "7".to_string(), is_float: false };
    assert_eq!(number_text(form_value(&n, "+012")), Some("12".to_string()));
    assert_eq!(number_text(form_value(&n, "-5")), Some("-5".to_string()));
    assert_eq!(number_text(form_value(&n, "x")), Some("7".to_string()));
    assert_eq!(number_text(form_value(&n, "")), Some("7".to_string()));
    assert_eq!(number_text(form_value(&n, "-9223372036854775808")), Some("-9223372036854775808".to_string()));
    assert_eq!(number_text(form_value(&n, "9223372036854775807")), Some("9223372036854775807".to_string()));
    assert_eq!(number_text(form_value(&n, "9223372036854775808")), Some("7".to_string()));
    assert!(form_value(&FieldValue::Number { text: "1.5".to_string(), is_float: true }, "2").is_none());
    match form_value(&FieldValue::Array(Vec::new()), " a , b,,c ") {
        Some(FieldValue::Array(v)) => assert_eq!(
            v,
            vec![Some("a".to_string()), Some("b".to_string()), Some("".to_string()), Some("c".to_string())]
        ),
        _ => panic!("expected a list"),
    }
    match form_value(&FieldValue::Array(Vec::new()), "") {
        Some(FieldValue::Array(v)) => assert_eq!(v, vec![Some("".to_string())]),
        _ => panic!("expected a list"),
    }
    match form_value(&FieldValue::Text(None), "raw text") {
        Some(FieldValue::Text(t)) => assert_eq!(t, Some("raw text".to_string())),
        _ => panic!("expected text"),
    }
}

#[test]
fn the_settings_page_after_a_submission() {
    let sections = vec![FormSection { label: Some("Basic".to_string()), fields: None }];
    let content = "<main><!--MAST_CONFIG_SECTIONS--></main>";
    assert_eq!(config_manage_page(false, content, &vec![], &sections), Err(404));

    let card = "<div class=\"card bg-base-100 shadow-sm\">\n                <div class=\"card-body\">\n                    <h2 class=\"card-title\">Basic</h2>\n                    \n                </div>\n            </div>";
    let saved = config_manage_page(true, content, &vec![], &sections).unwrap();
    assert_eq!(
        saved,
        format!(
            "<main><div class=\"alert alert-success mb-4\">Configuration saved. Restart the server to apply changes.</div>{}</main>",
            card
        )
    );

    let errors = vec!["bad name".to_string(), "bad port".to_string()];
    let refused = config_manage_page(true, content, &errors, &sections).unwrap();
    assert_eq!(refused, "<main><div class=\"alert alert-error mb-4\"><p>bad name</p><p>bad port</p></div></main>");
}
